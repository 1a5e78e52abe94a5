use smooth_frame::{
    MAX_FORMAT_PRECISION, PathCommand, PointText, SvgPathFormat, bounded_precision, svg_path_data,
    tidy_number_text,
};

fn pt(x: &str, y: &str) -> PointText {
    PointText { x: x.to_owned(), y: y.to_owned() }
}

#[test]
fn precision_is_capped_at_twelve() {
    assert_eq!(MAX_FORMAT_PRECISION, 12);
    assert_eq!(bounded_precision(0), 0);
    assert_eq!(bounded_precision(3), 3);
    assert_eq!(bounded_precision(12), 12);
    assert_eq!(bounded_precision(13), 12);
    assert_eq!(bounded_precision(usize::MAX), 12);
}

#[test]
fn svg_format_keeps_its_precision() {
    assert_eq!(SvgPathFormat::new(3).precision(), 3);
    assert_eq!(SvgPathFormat::new(40).precision(), 40);
    assert_eq!(SvgPathFormat::default().precision(), 6);
    assert_eq!(SvgPathFormat::default(), SvgPathFormat::new(6));
}

#[test]
fn tidy_drops_trailing_zeros_and_point() {
    assert_eq!(tidy_number_text("1000.000"), "1000");
    assert_eq!(tidy_number_text("12.340"), "12.34");
    assert_eq!(tidy_number_text("945.399049973955"), "945.399049973955");
    assert_eq!(tidy_number_text("0.500"), "0.5");
    assert_eq!(tidy_number_text("500"), "500");
    assert_eq!(tidy_number_text("100"), "100");
}

#[test]
fn tidy_turns_negative_zero_into_zero() {
    assert_eq!(tidy_number_text("-0.000"), "0");
    assert_eq!(tidy_number_text("-0"), "0");
    assert_eq!(tidy_number_text("-0.010"), "-0.01");
    assert_eq!(tidy_number_text("-10.0"), "-10");
}

#[test]
fn tidy_leaves_no_trailing_zero_after_a_point() {
    for text in ["1.000", "2.5000", "3.", "0.0", "-7.250", "40.0400"] {
        let tidy = tidy_number_text(text);
        if tidy.contains('.') {
            assert!(!tidy.ends_with('0') && !tidy.ends_with('.'), "{text} -> {tidy}");
        }
    }
}

#[test]
fn svg_text_of_a_sharp_rect() {
    let commands = vec![
        PathCommand::MoveTo(pt(&tidy_number_text("0.000"), &tidy_number_text("0.000"))),
        PathCommand::LineTo(pt(&tidy_number_text("1000.000"), &tidy_number_text("0.000"))),
        PathCommand::LineTo(pt(&tidy_number_text("1000.000"), &tidy_number_text("500.000"))),
        PathCommand::LineTo(pt(&tidy_number_text("0.000"), &tidy_number_text("500.000"))),
        PathCommand::Close,
    ];
    let svg = svg_path_data(&commands);
    assert_eq!(svg, "M 0,0 L 1000,0 L 1000,500 L 0,500 Z");
    assert!(!svg.contains(".000"));
}

#[test]
fn svg_text_of_a_cubic() {
    let commands = vec![
        PathCommand::MoveTo(pt("840", "0")),
        PathCommand::CubicTo { ctrl1: pt("896.005", "0"), ctrl2: pt("924.008", "0"), to: pt("945.399", "10.899") },
        PathCommand::Close,
    ];
    assert_eq!(svg_path_data(&commands), "M 840,0 C 896.005,0 924.008,0 945.399,10.899 Z");
}

#[test]
fn svg_text_of_nothing_is_empty() {
    assert_eq!(svg_path_data(&[]), "");
    assert_eq!(svg_path_data(&[PathCommand::Close]), "Z");
}
