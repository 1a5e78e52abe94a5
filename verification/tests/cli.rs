use smooth_frame::value_after_equals;

#[test]
fn value_after_equals_takes_text_after_first_equals() {
    assert_eq!(value_after_equals("--width=1000"), "1000");
    assert_eq!(value_after_equals("--output=a=b.svg"), "a=b.svg");
    assert_eq!(value_after_equals("--radius="), "");
    assert_eq!(value_after_equals("--svg"), "");
    assert_eq!(value_after_equals(""), "");
}
