use smooth_frame::{CubicSegment, PathCommand, PathFormatter, SmoothPath, sharp_polygon_path};

type Pt = (f64, f64);

#[test]
fn new_path_is_empty() {
    let path: SmoothPath<Pt> = SmoothPath::new();
    assert!(path.commands().is_empty());
    assert!(path.cubics().is_empty());
    let default_path: SmoothPath<Pt> = SmoothPath::default();
    assert_eq!(default_path, path);
}

#[test]
fn builders_append_commands_in_order() {
    let mut path = SmoothPath::new();
    path.move_to((0.0, 0.0));
    path.line_to((10.0, 0.0));
    path.cubic_to((12.0, 0.0), (14.0, 2.0), (14.0, 4.0));
    path.close();
    assert_eq!(
        path.commands(),
        &[
            PathCommand::MoveTo((0.0, 0.0)),
            PathCommand::LineTo((10.0, 0.0)),
            PathCommand::CubicTo { ctrl1: (12.0, 0.0), ctrl2: (14.0, 2.0), to: (14.0, 4.0) },
            PathCommand::Close,
        ]
    );
}

#[test]
fn cubics_start_from_the_current_point() {
    let mut path = SmoothPath::new();
    path.move_to((0.0, 0.0));
    path.cubic_to((1.0, 0.0), (2.0, 1.0), (2.0, 2.0));
    path.line_to((2.0, 5.0));
    path.cubic_to((2.0, 6.0), (3.0, 7.0), (4.0, 7.0));
    let cubics = path.cubics();
    assert_eq!(
        cubics,
        vec![
            CubicSegment { from: (0.0, 0.0), ctrl1: (1.0, 0.0), ctrl2: (2.0, 1.0), to: (2.0, 2.0) },
            CubicSegment { from: (2.0, 5.0), ctrl1: (2.0, 6.0), ctrl2: (3.0, 7.0), to: (4.0, 7.0) },
        ]
    );
}

#[test]
fn close_returns_to_the_subpath_start() {
    let mut path = SmoothPath::new();
    path.move_to((1.0, 1.0));
    path.line_to((5.0, 1.0));
    path.close();
    path.cubic_to((2.0, 2.0), (3.0, 3.0), (4.0, 4.0));
    let cubics = path.cubics();
    assert_eq!(cubics.len(), 1);
    assert_eq!(cubics[0].from, (1.0, 1.0));
}

#[test]
fn cubic_before_any_point_yields_no_piece() {
    let mut path = SmoothPath::new();
    path.cubic_to((1.0, 1.0), (2.0, 2.0), (3.0, 3.0));
    path.cubic_to((4.0, 4.0), (5.0, 5.0), (6.0, 6.0));
    let cubics = path.cubics();
    assert_eq!(cubics.len(), 1);
    assert_eq!(cubics[0].from, (3.0, 3.0));
    assert_eq!(cubics[0].to, (6.0, 6.0));
}

#[test]
fn cubics_are_one_per_cubic_command_after_move() {
    let mut path = SmoothPath::new();
    path.move_to((0.0, 0.0));
    for k in 0..5 {
        let x = k as f64;
        path.cubic_to((x, 1.0), (x, 2.0), (x, 3.0));
        path.line_to((x, 4.0));
        path.close();
    }
    let cubics = path.cubics();
    assert_eq!(cubics.len(), 5);
    for (k, cubic) in cubics.iter().enumerate() {
        assert_eq!(cubic.ctrl1, (k as f64, 1.0));
        assert_eq!(cubic.to, (k as f64, 3.0));
        assert_eq!(cubic.from, (0.0, 0.0));
    }
}

struct FunctionCallFormat;

impl PathFormatter<Pt> for FunctionCallFormat {
    type Output = Vec<String>;

    fn format(&self, commands: &[PathCommand<Pt>]) -> Self::Output {
        commands
            .iter()
            .map(|command| match *command {
                PathCommand::MoveTo(p) => format!("move_to({}, {})", p.0, p.1),
                PathCommand::LineTo(p) => format!("line_to({}, {})", p.0, p.1),
                PathCommand::CubicTo { ctrl1, ctrl2, to } => format!(
                    "cubic_to({}, {}, {}, {}, {}, {})",
                    ctrl1.0, ctrl1.1, ctrl2.0, ctrl2.1, to.0, to.1
                ),
                PathCommand::Close => "close()".to_owned(),
            })
            .collect()
    }
}

#[test]
fn custom_formatter_exports_a_sharp_rect_as_calls() {
    let points = [(0.0, 0.0), (10.0, 0.0), (10.0, 5.0), (0.0, 5.0)];
    let calls = sharp_polygon_path(&points).export_with(&FunctionCallFormat);
    assert_eq!(
        calls,
        ["move_to(0, 0)", "line_to(10, 0)", "line_to(10, 5)", "line_to(0, 5)", "close()"]
    );
}
