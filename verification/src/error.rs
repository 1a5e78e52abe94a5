use vstd::prelude::*;

verus! {

/// Errors reported by the smooth-corner and smooth-frame constructions.
#[derive(Debug, Clone, Copy, PartialEq, Eq, Structural)]
pub enum SmoothError {
    /// An input holds `NaN` or a forbidden infinity.
    NonFiniteInput,
    /// A length, radius or limit is negative.
    NegativeInput,
    /// A corner direction vector is too short.
    DegenerateAxis,
    /// The corner angle is not inside the open interval `(0, PI)`.
    InvalidAngle,
    /// A closed frame has fewer than 3 points.
    TooFewPoints,
    /// A frame has a degenerate edge, collinear points or zero area.
    DegenerateFrame,
    /// A frame has a concave corner.
    ConcaveFrame,
    /// A frame has intersecting edges.
    SelfIntersectingFrame,
}

impl SmoothError {
    /// The human-readable description of the error.
    pub fn message(&self) -> (text: &'static str)
        ensures
            text@ == match *self {
                SmoothError::NonFiniteInput => "输入包含非有限数值"@,
                SmoothError::NegativeInput => "长度、半径或限制不能为负数"@,
                SmoothError::DegenerateAxis => "角点方向向量退化"@,
                SmoothError::InvalidAngle => "角点角度必须满足 0 < phi < PI"@,
                SmoothError::TooFewPoints => "闭合 frame 至少需要 3 个点"@,
                SmoothError::DegenerateFrame => "frame 包含退化边或面积为零"@,
                SmoothError::ConcaveFrame => "当前版本仅支持凸 frame"@,
                SmoothError::SelfIntersectingFrame => "当前版本不支持自相交 frame"@,
            },
    {
        match self {
            SmoothError::NonFiniteInput => "输入包含非有限数值",
            SmoothError::NegativeInput => "长度、半径或限制不能为负数",
            SmoothError::DegenerateAxis => "角点方向向量退化",
            SmoothError::InvalidAngle => "角点角度必须满足 0 < phi < PI",
            SmoothError::TooFewPoints => "闭合 frame 至少需要 3 个点",
            SmoothError::DegenerateFrame => "frame 包含退化边或面积为零",
            SmoothError::ConcaveFrame => "当前版本仅支持凸 frame",
            SmoothError::SelfIntersectingFrame => "当前版本不支持自相交 frame",
        }
    }
}

} // verus!
