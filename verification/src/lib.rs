//! Cubic Bezier path structure for Sketch-like smooth corners and frames.
//!
//! The library holds the parts of the smooth-corner geometry that do not
//! depend on floating-point arithmetic: the path model and its cubic
//! extraction, the assembly of frame and rectangle outlines from corner
//! pieces, the validation verdicts of closed frames and single corners, and
//! the SVG path text. Each path type is generic over its point type.
pub mod cli;
pub mod error;
pub mod format;
pub mod outline;
pub mod path;
pub mod validation;

pub use cli::value_after_equals;
pub use error::SmoothError;
pub use format::{
    MAX_FORMAT_PRECISION, PointText, SvgPathFormat, bounded_precision, svg_path_data, tidy_number_text,
};
pub use outline::{CornerPieces, RectCornerPieces, collapsed_path, frame_path, rect_path, sharp_polygon_path};
pub use path::{CubicSegment, PathCommand, PathFormatter, SmoothPath};
pub use validation::{
    CornerFacts, FrameFacts, Turn, are_adjacent_edges, corner_verdict, edge_pairs_to_check, frame_verdict,
    neighbor_indices, turns_verdict,
};
