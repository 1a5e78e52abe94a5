# smooth_frame

Sketch-like smooth corners as cubic Bezier paths, in two layers.

`src/` is the verified library. It holds everything that does not compute
with floating-point numbers, generic over the point type:

- `path`: `SmoothPath`, `PathCommand`, `CubicSegment`, the extraction of the
  cubic pieces with the point each starts from, and the `PathFormatter`
  extension point.
- `outline`: the assembly of closed outlines from corner pieces (sharp
  polygons, frames with rounded corners, Sketch-style rectangles).
- `validation`: polygon index arithmetic, the edge pairs a self-intersection
  test compares, and the verdicts that decide which error a frame or a
  corner reports.
- `format`: SVG path-data text and the tidy form of numbers.
- `error`, `cli`: the error type and a command-line helper.

`app/` supplies the `f64` geometry: `Point`, `Vector`, `SmoothCorner`,
`SmoothFrame`, `SmoothRect`, number formatting and the demo command line.
