use vstd::prelude::*;

verus! {

/// One cubic Bezier piece together with the point it starts from.
#[derive(Debug, Clone, Copy, PartialEq)]
pub struct CubicSegment<P> {
    /// Start point of the cubic.
    pub from: P,
    /// First control point.
    pub ctrl1: P,
    /// Second control point.
    pub ctrl2: P,
    /// End point of the cubic.
    pub to: P,
}

/// A path command that maps one to one onto SVG, Canvas or Skia calls.
#[derive(Debug, Clone, Copy, PartialEq)]
pub enum PathCommand<P> {
    /// Moves the current point.
    MoveTo(P),
    /// Draws a straight line from the current point.
    LineTo(P),
    /// Draws a cubic Bezier from the current point.
    CubicTo {
        /// First control point.
        ctrl1: P,
        /// Second control point.
        ctrl2: P,
        /// End point.
        to: P,
    },
    /// Closes the current sub-path.
    Close,
}

/// A smooth outline: the sequence of its path commands.
#[derive(Debug, Clone, PartialEq)]
pub struct SmoothPath<P> {
    commands: Vec<PathCommand<P>>,
}

/// What a left-to-right walk over path commands has seen so far: the cubic
/// pieces found, the current point and the start of the current sub-path.
pub struct CubicScan<P> {
    /// Cubic pieces collected so far.
    pub cubics: Seq<CubicSegment<P>>,
    /// The current point, once a command has set one.
    pub current: Option<P>,
    /// The start of the current sub-path, once a `MoveTo` has set one.
    pub subpath_start: Option<P>,
}

/// One step of the walk: how a command changes the scan state.
pub open spec fn scan_step<P>(state: CubicScan<P>, command: PathCommand<P>) -> CubicScan<P> {
    match command {
        PathCommand::MoveTo(p) => CubicScan { cubics: state.cubics, current: Some(p), subpath_start: Some(p) },
        PathCommand::LineTo(p) => CubicScan { cubics: state.cubics, current: Some(p), subpath_start: state.subpath_start },
        PathCommand::CubicTo { ctrl1, ctrl2, to } => CubicScan {
            cubics: match state.current {
                Some(from) => state.cubics.push(CubicSegment { from, ctrl1, ctrl2, to }),
                None => state.cubics,
            },
            current: Some(to),
            subpath_start: state.subpath_start,
        },
        PathCommand::Close => CubicScan {
            cubics: state.cubics,
            current: state.subpath_start,
            subpath_start: state.subpath_start,
        },
    }
}

/// The scan state after walking all of `commands`.
pub open spec fn scan_commands<P>(commands: Seq<PathCommand<P>>) -> CubicScan<P>
    decreases commands.len(),
{
    if commands.len() == 0 {
        CubicScan { cubics: Seq::empty(), current: None, subpath_start: None }
    } else {
        scan_step(scan_commands(commands.drop_last()), commands.last())
    }
}

/// Appending a command takes one more step of the scan.
pub(crate) proof fn lemma_scan_push<P>(commands: Seq<PathCommand<P>>, command: PathCommand<P>)
    ensures
        scan_commands(commands.push(command)) == scan_step(scan_commands(commands), command),
{
    assert(commands.push(command).drop_last() =~= commands);
}

/// The number of `LineTo` commands, that is of straight edges drawn.
pub open spec fn line_count<P>(commands: Seq<PathCommand<P>>) -> nat
    decreases commands.len(),
{
    if commands.len() == 0 {
        0
    } else {
        line_count(commands.drop_last()) + if commands.last() is LineTo { 1nat } else { 0nat }
    }
}

/// Appending a command adds one to the line count exactly when it is a line.
pub(crate) proof fn lemma_line_count_push<P>(commands: Seq<PathCommand<P>>, command: PathCommand<P>)
    ensures
        line_count(commands.push(command)) == line_count(commands) + if command is LineTo { 1nat } else { 0nat },
{
    assert(commands.push(command).drop_last() =~= commands);
}

/// The cubic pieces of a command sequence, each with the point it starts from.
pub open spec fn spec_cubics<P>(commands: Seq<PathCommand<P>>) -> Seq<CubicSegment<P>> {
    scan_commands(commands).cubics
}

/// The control and end points of the `CubicTo` commands, in order.
pub open spec fn cubic_command_points<P>(commands: Seq<PathCommand<P>>) -> Seq<(P, P, P)>
    decreases commands.len(),
{
    if commands.len() == 0 {
        Seq::empty()
    } else {
        let rest = cubic_command_points(commands.drop_last());
        match commands.last() {
            PathCommand::CubicTo { ctrl1, ctrl2, to } => rest.push((ctrl1, ctrl2, to)),
            _ => rest,
        }
    }
}

/// The control and end points of a cubic piece.
pub open spec fn cubic_points<P>(c: CubicSegment<P>) -> (P, P, P) {
    (c.ctrl1, c.ctrl2, c.to)
}

proof fn lemma_scan_after_move<P>(commands: Seq<PathCommand<P>>)
    requires
        commands.len() > 0,
        commands[0] is MoveTo,
    ensures
        scan_commands(commands).current is Some,
        scan_commands(commands).subpath_start is Some,
        scan_commands(commands).cubics.map_values(|c: CubicSegment<P>| cubic_points(c))
            == cubic_command_points(commands),
    decreases commands.len(),
{
    let pre = commands.drop_last();
    if commands.len() == 1 {
        assert(pre.len() == 0);
        assert(scan_commands(pre).cubics.map_values(|c: CubicSegment<P>| cubic_points(c))
            =~= cubic_command_points(pre));
    } else {
        assert(pre[0] == commands[0]);
        lemma_scan_after_move(pre);
        let before = scan_commands(pre);
        let after = scan_commands(commands);
        match commands.last() {
            PathCommand::CubicTo { ctrl1, ctrl2, to } => {
                assert(after.cubics.map_values(|c: CubicSegment<P>| cubic_points(c))
                    =~= before.cubics.map_values(|c: CubicSegment<P>| cubic_points(c)).push((ctrl1, ctrl2, to)));
            },
            _ => {},
        }
    }
}

/// Law: in a path that starts with `MoveTo`, the cubic pieces are exactly
/// the `CubicTo` commands, one piece per command, in order, with the same
/// control and end points.
pub proof fn lemma_cubics_are_the_cubic_commands<P>(commands: Seq<PathCommand<P>>)
    requires
        commands.len() > 0,
        commands[0] is MoveTo,
    ensures
        spec_cubics(commands).len() == cubic_command_points(commands).len(),
        forall|k: int| 0 <= k < spec_cubics(commands).len()
            ==> cubic_points(#[trigger] spec_cubics(commands)[k]) == cubic_command_points(commands)[k],
{
    lemma_scan_after_move(commands);
    let m = spec_cubics(commands).map_values(|c: CubicSegment<P>| cubic_points(c));
    assert forall|k: int| 0 <= k < spec_cubics(commands).len()
        implies cubic_points(#[trigger] spec_cubics(commands)[k]) == cubic_command_points(commands)[k] by {
        assert(m[k] == cubic_points(spec_cubics(commands)[k]));
    }
}

impl<P> View for SmoothPath<P> {
    type V = Seq<PathCommand<P>>;

    closed spec fn view(&self) -> Seq<PathCommand<P>> {
        self.commands@
    }
}

/// An output format for path commands, for callers to implement.
pub trait PathFormatter<P> {
    /// The type the formatter produces.
    type Output;

    /// Turns the path commands into the output.
    fn format(&self, commands: &[PathCommand<P>]) -> Self::Output;
}

impl<P> SmoothPath<P> {
    /// Creates an empty path.
    pub fn new() -> (path: Self)
        ensures
            path@ == Seq::<PathCommand<P>>::empty(),
    {
        SmoothPath { commands: Vec::new() }
    }

    /// The path commands.
    pub fn commands(&self) -> (commands: &[PathCommand<P>])
        ensures
            commands@ == self@,
    {
        self.commands.as_slice()
    }

    /// Appends a `MoveTo` command.
    pub fn move_to(&mut self, point: P)
        ensures
            final(self)@ == old(self)@.push(PathCommand::MoveTo(point)),
    {
        self.commands.push(PathCommand::MoveTo(point));
    }

    /// Appends a `LineTo` command.
    pub fn line_to(&mut self, point: P)
        ensures
            final(self)@ == old(self)@.push(PathCommand::LineTo(point)),
    {
        self.commands.push(PathCommand::LineTo(point));
    }

    /// Appends a `CubicTo` command.
    pub fn cubic_to(&mut self, ctrl1: P, ctrl2: P, to: P)
        ensures
            final(self)@ == old(self)@.push(PathCommand::CubicTo { ctrl1, ctrl2, to }),
    {
        self.commands.push(PathCommand::CubicTo { ctrl1, ctrl2, to });
    }

    /// Appends a `Close` command.
    pub fn close(&mut self)
        ensures
            final(self)@ == old(self)@.push(PathCommand::Close),
    {
        self.commands.push(PathCommand::Close);
    }

    /// Exports the path with the given formatter.
    pub fn export_with<F: PathFormatter<P>>(&self, formatter: &F) -> (output: F::Output)
        ensures
            exists|commands: &[PathCommand<P>]| commands@ == self@
                && call_ensures(F::format, (formatter, commands), output),
    {
        formatter.format(self.commands())
    }
}

impl<P> Default for SmoothPath<P> {
    /// The empty path.
    fn default() -> (path: Self)
        ensures
            path@ == Seq::<PathCommand<P>>::empty(),
    {
        SmoothPath::new()
    }
}

impl<P: Copy> SmoothPath<P> {
    /// The cubic pieces of the path, each with the point it starts from.
    ///
    /// A `CubicTo` issued before any point was set yields no piece; `Close`
    /// returns the current point to the start of the sub-path.
    pub fn cubics(&self) -> (cubics: Vec<CubicSegment<P>>)
        ensures
            cubics@ == spec_cubics(self@),
    {
        let mut cubics: Vec<CubicSegment<P>> = Vec::new();
        let mut current: Option<P> = None;
        let mut subpath_start: Option<P> = None;
        let n: usize = self.commands.len();
        let mut i: usize = 0;
        while i < n
            invariant
                n == self@.len(),
                i <= n,
                scan_commands(self@.take(i as int)) == (CubicScan { cubics: cubics@, current, subpath_start }),
            decreases n - i,
        {
            assert(self@.take(i + 1).drop_last() == self@.take(i as int));
            match self.commands[i] {
                PathCommand::MoveTo(point) => {
                    current = Some(point);
                    subpath_start = Some(point);
                },
                PathCommand::LineTo(point) => {
                    current = Some(point);
                },
                PathCommand::CubicTo { ctrl1, ctrl2, to } => {
                    if let Some(from) = current {
                        cubics.push(CubicSegment { from, ctrl1, ctrl2, to });
                    }
                    current = Some(to);
                },
                PathCommand::Close => {
                    current = subpath_start;
                },
            }
            i += 1;
        }
        assert(self@.take(n as int) == self@);
        cubics
    }
}

} // verus!
