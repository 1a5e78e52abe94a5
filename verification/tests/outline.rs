use smooth_frame::{
    CornerPieces, CubicSegment, PathCommand, RectCornerPieces, collapsed_path, frame_path, rect_path,
    sharp_polygon_path,
};

type Pt = (i64, i64);

fn cubic(from: Pt, to: Pt) -> CubicSegment<Pt> {
    CubicSegment { from, ctrl1: (from.0, to.1), ctrl2: (to.0, from.1), to }
}

fn point_cubic(at: Pt) -> CubicSegment<Pt> {
    CubicSegment { from: at, ctrl1: at, ctrl2: at, to: at }
}

fn rounded_corner(origin: Pt, start: Pt, end: Pt) -> CornerPieces<Pt> {
    let a = (start.0 + 1, start.1 + 1);
    let b = (end.0 - 1, end.1 - 1);
    CornerPieces { origin, rounded: true, start, end, cubics: vec![cubic(start, a), cubic(a, b), cubic(b, end)] }
}

fn sharp_corner(origin: Pt) -> CornerPieces<Pt> {
    CornerPieces { origin, rounded: false, start: origin, end: origin, cubics: vec![] }
}

#[test]
fn sharp_rect_outline() {
    let path = sharp_polygon_path(&[(0, 0), (1000, 0), (1000, 500), (0, 500)]);
    assert_eq!(path.cubics().len(), 0);
    assert_eq!(
        path.commands(),
        &[
            PathCommand::MoveTo((0, 0)),
            PathCommand::LineTo((1000, 0)),
            PathCommand::LineTo((1000, 500)),
            PathCommand::LineTo((0, 500)),
            PathCommand::Close,
        ]
    );
}

#[test]
fn collapsed_outline_is_a_point() {
    let path = collapsed_path((0, 0));
    assert_eq!(path.commands(), &[PathCommand::MoveTo((0, 0)), PathCommand::Close]);
    assert!(path.cubics().is_empty());
}

#[test]
fn frame_without_rounding_is_the_polygon() {
    let corners = vec![sharp_corner((40, 0)), sharp_corner((180, 30)), sharp_corner((80, 150))];
    let path = frame_path(&corners);
    assert_eq!(
        path.commands(),
        &[
            PathCommand::MoveTo((40, 0)),
            PathCommand::LineTo((180, 30)),
            PathCommand::LineTo((80, 150)),
            PathCommand::Close,
        ]
    );
}

#[test]
fn rounded_triangle_has_nine_cubics_and_fourteen_commands() {
    let corners = vec![
        rounded_corner((40, 0), (30, 10), (50, 10)),
        rounded_corner((180, 30), (170, 40), (190, 40)),
        rounded_corner((80, 150), (70, 160), (90, 160)),
    ];
    let path = frame_path(&corners);
    assert_eq!(path.commands().len(), 14);
    let cubics = path.cubics();
    assert_eq!(cubics.len(), 9);
    let expected: Vec<_> = corners[1]
        .cubics
        .iter()
        .chain(corners[2].cubics.iter())
        .chain(corners[0].cubics.iter())
        .copied()
        .collect();
    assert_eq!(cubics, expected);
    assert_eq!(path.commands()[0], PathCommand::MoveTo((50, 10)));
    assert_eq!(path.commands()[1], PathCommand::LineTo((170, 40)));
    assert_eq!(path.commands()[13], PathCommand::Close);
}

#[test]
fn frame_counts_only_rounded_corners() {
    let corners = vec![
        rounded_corner((0, 0), (0, 10), (10, 0)),
        rounded_corner((220, 30), (210, 30), (220, 40)),
        sharp_corner((180, 170)),
        rounded_corner((20, 140), (30, 140), (20, 130)),
    ];
    let path = frame_path(&corners);
    assert_eq!(path.cubics().len(), 9);
    assert_eq!(path.commands().len(), 4 + 2 + 9);
}

fn rect_corner(start: Pt, end: Pt, joined: bool, first_flat: bool, last_flat: bool) -> RectCornerPieces<Pt> {
    let a = (start.0 + 1, start.1);
    let b = (end.0, end.1 - 1);
    RectCornerPieces {
        start,
        end,
        joined,
        first: if first_flat { point_cubic(start) } else { cubic(start, a) },
        first_flat,
        middle: cubic(a, b),
        last: if last_flat { point_cubic(end) } else { cubic(b, end) },
        last_flat,
    }
}

fn rect_with(joined: [bool; 4], flat: [(bool, bool); 4]) -> Vec<RectCornerPieces<Pt>> {
    let spots = [((0, 160), (160, 0)), ((840, 0), (1000, 160)), ((1000, 840), (840, 1000)), ((160, 1000), (0, 840))];
    (0..4).map(|k| rect_corner(spots[k].0, spots[k].1, joined[k], flat[k].0, flat[k].1)).collect()
}

#[test]
fn plain_smooth_rect_has_four_lines_and_twelve_cubics() {
    let path = rect_path(&rect_with([false; 4], [(false, false); 4]));
    assert_eq!(path.cubics().len(), 12);
    assert_eq!(path.commands().len(), 18);
    assert_eq!(path.commands()[0], PathCommand::MoveTo((160, 0)));
    assert_eq!(path.commands()[1], PathCommand::LineTo((840, 0)));
}

#[test]
fn saturated_rect_omits_zero_length_edges() {
    let path = rect_path(&rect_with([true; 4], [(false, false); 4]));
    assert_eq!(path.cubics().len(), 12);
    assert_eq!(path.commands().len(), 14);
    assert!(path.commands().iter().all(|c| !matches!(c, PathCommand::LineTo(_))));
}

#[test]
fn short_axis_saturation_keeps_two_edges_and_eight_cubics() {
    let flat = [(true, false), (false, true), (true, false), (false, true)];
    let path = rect_path(&rect_with([true, false, true, false], flat));
    assert_eq!(path.cubics().len(), 8);
    assert_eq!(path.commands().len(), 12);
}

#[test]
fn max_radius_square_becomes_four_cubic_circle() {
    let path = rect_path(&rect_with([true; 4], [(true, true); 4]));
    assert_eq!(path.cubics().len(), 4);
    assert_eq!(path.commands().len(), 6);
}

#[test]
fn near_max_radius_falls_back_to_round_rect() {
    let path = rect_path(&rect_with([false; 4], [(true, true); 4]));
    assert_eq!(path.cubics().len(), 4);
    assert_eq!(path.commands().len(), 10);
}
