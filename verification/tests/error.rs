use smooth_frame::SmoothError;

#[test]
fn every_error_has_its_message() {
    assert_eq!(SmoothError::NonFiniteInput.message(), "输入包含非有限数值");
    assert_eq!(SmoothError::NegativeInput.message(), "长度、半径或限制不能为负数");
    assert_eq!(SmoothError::DegenerateAxis.message(), "角点方向向量退化");
    assert_eq!(SmoothError::InvalidAngle.message(), "角点角度必须满足 0 < phi < PI");
    assert_eq!(SmoothError::TooFewPoints.message(), "闭合 frame 至少需要 3 个点");
    assert_eq!(SmoothError::DegenerateFrame.message(), "frame 包含退化边或面积为零");
    assert_eq!(SmoothError::ConcaveFrame.message(), "当前版本仅支持凸 frame");
    assert_eq!(SmoothError::SelfIntersectingFrame.message(), "当前版本不支持自相交 frame");
}

#[test]
fn errors_compare_by_variant() {
    assert_eq!(SmoothError::ConcaveFrame, SmoothError::ConcaveFrame);
    assert_ne!(SmoothError::ConcaveFrame, SmoothError::DegenerateFrame);
}
