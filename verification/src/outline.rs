use vstd::prelude::*;

use crate::path::{
    CubicSegment, PathCommand, SmoothPath, lemma_line_count_push, lemma_scan_push, line_count,
    scan_commands, spec_cubics,
};

verus! {

/// The `CubicTo` command that draws a cubic piece from the current point.
pub open spec fn cubic_command<P>(c: CubicSegment<P>) -> PathCommand<P> {
    PathCommand::CubicTo { ctrl1: c.ctrl1, ctrl2: c.ctrl2, to: c.to }
}

/// The outline of a polygon without rounding: move to the first point, a
/// line to each further point, then close.
pub open spec fn sharp_outline<P>(points: Seq<P>) -> Seq<PathCommand<P>> {
    seq![PathCommand::MoveTo(points[0])] + points.drop_first().map_values(|p: P| PathCommand::LineTo(p))
        + seq![PathCommand::Close]
}

/// The closed outline through `points`, with straight edges.
pub fn sharp_polygon_path<P: Copy>(points: &[P]) -> (path: SmoothPath<P>)
    requires
        points@.len() >= 1,
    ensures
        path@ == sharp_outline(points@),
        path@.len() == points@.len() + 1,
        spec_cubics(path@).len() == 0,
        line_count(path@) == points@.len() - 1,
{
    let mut path = SmoothPath::new();
    path.move_to(points[0]);
    proof {
        lemma_scan_push(Seq::empty(), PathCommand::MoveTo(points@[0]));
        lemma_line_count_push(Seq::empty(), PathCommand::MoveTo(points@[0]));
        assert(Seq::<PathCommand<P>>::empty().push(PathCommand::MoveTo(points@[0])) == path@);
    }
    let n: usize = points.len();
    let mut i: usize = 1;
    while i < n
        invariant
            n == points@.len(),
            1 <= i <= n,
            path@ == seq![PathCommand::MoveTo(points@[0])]
                + points@.subrange(1, i as int).map_values(|p: P| PathCommand::LineTo(p)),
            scan_commands(path@).cubics.len() == 0,
            line_count(path@) == i - 1,
        decreases n - i,
    {
        let ghost before = path@;
        path.line_to(points[i]);
        proof {
            lemma_scan_push(before, PathCommand::LineTo(points@[i as int]));
            lemma_line_count_push(before, PathCommand::LineTo(points@[i as int]));
            assert(points@.subrange(1, i + 1).map_values(|p: P| PathCommand::LineTo(p))
                =~= points@.subrange(1, i as int).map_values(|p: P| PathCommand::LineTo(p)).push(
                PathCommand::LineTo(points@[i as int])));
        }
        i += 1;
    }
    let ghost before = path@;
    path.close();
    proof {
        lemma_scan_push(before, PathCommand::Close);
        lemma_line_count_push(before, PathCommand::Close);
        assert(points@.subrange(1, n as int) =~= points@.drop_first());
    }
    path
}

/// The outline of a shape that has collapsed to one point: move there, close.
pub fn collapsed_path<P>(point: P) -> (path: SmoothPath<P>)
    ensures
        path@ == seq![PathCommand::MoveTo(point), PathCommand::Close],
{
    let mut path = SmoothPath::new();
    path.move_to(point);
    path.close();
    proof {
        assert(path@ =~= seq![PathCommand::MoveTo(point), PathCommand::Close]);
    }
    path
}

/// The pieces of one rounded corner of a frame: where its curve starts and
/// ends on the two edges and the cubic pieces between them.
pub struct CornerPieces<P> {
    /// The vertex of the frame.
    pub origin: P,
    /// Whether the corner kept a radius; an unrounded corner has no cubics.
    pub rounded: bool,
    /// Where the curve leaves the incoming edge.
    pub start: P,
    /// Where the curve meets the outgoing edge.
    pub end: P,
    /// The cubic pieces of the curve, from `start` to `end`.
    pub cubics: Vec<CubicSegment<P>>,
}

/// The commands that draw a sequence of cubic pieces.
pub open spec fn cubic_commands<P>(cubics: Seq<CubicSegment<P>>) -> Seq<PathCommand<P>> {
    cubics.map_values(|c: CubicSegment<P>| cubic_command(c))
}

/// The commands of one frame corner: a line to where its curve starts, then
/// its cubic pieces.
pub open spec fn corner_piece<P>(c: CornerPieces<P>) -> Seq<PathCommand<P>> {
    seq![PathCommand::LineTo(c.start)] + cubic_commands(c.cubics@)
}

/// The commands of several frame corners, one after the other.
pub open spec fn corner_pieces<P>(corners: Seq<CornerPieces<P>>) -> Seq<PathCommand<P>>
    decreases corners.len(),
{
    if corners.len() == 0 {
        Seq::empty()
    } else {
        corner_pieces(corners.drop_last()) + corner_piece(corners.last())
    }
}

/// The cubic pieces of several frame corners, one after the other.
pub open spec fn all_corner_cubics<P>(corners: Seq<CornerPieces<P>>) -> Seq<CubicSegment<P>>
    decreases corners.len(),
{
    if corners.len() == 0 {
        Seq::empty()
    } else {
        all_corner_cubics(corners.drop_last()) + corners.last().cubics@
    }
}

/// Each cubic piece starts where the one before it ends, the first at `start`.
pub open spec fn cubics_chained_from<P>(start: P, cubics: Seq<CubicSegment<P>>) -> bool {
    forall|k: int| 0 <= k < cubics.len()
        ==> (#[trigger] cubics[k]).from == if k == 0 { start } else { cubics[k - 1].to }
}

/// The rounded outline of a frame: from the end of the first corner, each
/// further corner in turn, then the first corner, then close.
pub open spec fn rounded_outline<P>(corners: Seq<CornerPieces<P>>) -> Seq<PathCommand<P>> {
    seq![PathCommand::MoveTo(corners[0].end)] + corner_pieces(corners.drop_first()) + corner_piece(corners[0])
        + seq![PathCommand::Close]
}

/// Whether some corner of the frame kept a radius.
pub open spec fn some_corner_rounded<P>(corners: Seq<CornerPieces<P>>) -> bool {
    exists|i: int| 0 <= i < corners.len() && (#[trigger] corners[i]).rounded
}

/// The outline of a frame: rounded if some corner kept a radius, otherwise
/// the sharp polygon through the vertices.
pub open spec fn frame_outline<P>(corners: Seq<CornerPieces<P>>) -> Seq<PathCommand<P>> {
    if some_corner_rounded(corners) {
        rounded_outline(corners)
    } else {
        sharp_outline(corners.map_values(|c: CornerPieces<P>| c.origin))
    }
}

fn push_corner_piece<P: Copy>(path: &mut SmoothPath<P>, corner: &CornerPieces<P>)
    ensures
        final(path)@ == old(path)@ + corner_piece(*corner),
        scan_commands(final(path)@).subpath_start == scan_commands(old(path)@).subpath_start,
        scan_commands(final(path)@).current is Some,
        scan_commands(final(path)@).cubics.len() == scan_commands(old(path)@).cubics.len()
            + corner.cubics@.len(),
        cubics_chained_from(corner.start, corner.cubics@) ==> scan_commands(final(path)@).cubics
            == scan_commands(old(path)@).cubics + corner.cubics@,
        line_count(final(path)@) == line_count(old(path)@) + 1,
{
    let ghost start = path@;
    path.line_to(corner.start);
    proof {
        lemma_scan_push(start, PathCommand::LineTo(corner.start));
        lemma_line_count_push(start, PathCommand::LineTo(corner.start));
    }
    let n: usize = corner.cubics.len();
    let mut k: usize = 0;
    while k < n
        invariant
            n == corner.cubics@.len(),
            k <= n,
            path@ == start + seq![PathCommand::LineTo(corner.start)]
                + cubic_commands(corner.cubics@.take(k as int)),
            scan_commands(path@).subpath_start == scan_commands(start).subpath_start,
            scan_commands(path@).current == Some(
                if k == 0 { corner.start } else { corner.cubics@[k - 1].to },
            ),
            scan_commands(path@).cubics.len() == scan_commands(start).cubics.len() + k,
            line_count(path@) == line_count(start) + 1,
            cubics_chained_from(corner.start, corner.cubics@) ==> scan_commands(path@).cubics
                == scan_commands(start).cubics + corner.cubics@.take(k as int),
        decreases n - k,
    {
        let c = corner.cubics[k];
        let ghost before = path@;
        path.cubic_to(c.ctrl1, c.ctrl2, c.to);
        proof {
            lemma_scan_push(before, cubic_command(c));
            lemma_line_count_push(before, cubic_command(c));
            assert(cubic_commands(corner.cubics@.take(k + 1))
                =~= cubic_commands(corner.cubics@.take(k as int)).push(cubic_command(c)));
            if cubics_chained_from(corner.start, corner.cubics@) {
                assert(corner.cubics@[k as int] == c);
                assert(corner.cubics@.take(k + 1) =~= corner.cubics@.take(k as int).push(c));
            }
        }
        k += 1;
    }
    proof {
        assert(corner.cubics@.take(n as int) =~= corner.cubics@);
    }
}

/// The closed outline of a frame from its corners.
///
/// When no corner kept a radius the outline is the sharp polygon through
/// the vertices. Otherwise it moves to the end of the first corner, draws
/// each further corner (a line to where its curve starts, then its cubic
/// pieces), then the first corner, and closes.
pub fn frame_path<P: Copy>(corners: &[CornerPieces<P>]) -> (path: SmoothPath<P>)
    requires
        corners@.len() >= 1,
    ensures
        path@ == frame_outline(corners@),
        !some_corner_rounded(corners@) ==> spec_cubics(path@).len() == 0,
        some_corner_rounded(corners@) ==> spec_cubics(path@).len() == all_corner_cubics(corners@).len(),
        some_corner_rounded(corners@) ==> path@.len() == corners@.len() + 2 + all_corner_cubics(corners@).len(),
        !some_corner_rounded(corners@) ==> path@.len() == corners@.len() + 1,
        some_corner_rounded(corners@) ==> line_count(path@) == corners@.len(),
        !some_corner_rounded(corners@) ==> line_count(path@) == corners@.len() - 1,
        some_corner_rounded(corners@) && (forall|i: int| 0 <= i < corners@.len()
            ==> cubics_chained_from((#[trigger] corners@[i]).start, corners@[i].cubics@))
            ==> spec_cubics(path@) == all_corner_cubics(corners@.drop_first()) + corners@[0].cubics@,
{
    let n: usize = corners.len();
    let mut rounded = false;
    let mut i: usize = 0;
    while i < n
        invariant
            n == corners@.len(),
            i <= n,
            rounded <==> exists|j: int| 0 <= j < i && (#[trigger] corners@[j]).rounded,
        decreases n - i,
    {
        if corners[i].rounded {
            rounded = true;
        }
        i += 1;
    }
    if !rounded {
        let mut path = SmoothPath::new();
        path.move_to(corners[0].origin);
        proof {
            lemma_scan_push(Seq::empty(), PathCommand::MoveTo(corners@[0].origin));
            lemma_line_count_push(Seq::empty(), PathCommand::MoveTo(corners@[0].origin));
            assert(Seq::<PathCommand<P>>::empty().push(PathCommand::MoveTo(corners@[0].origin)) == path@);
        }
        let ghost origins = corners@.map_values(|c: CornerPieces<P>| c.origin);
        let mut j: usize = 1;
        while j < n
            invariant
                n == corners@.len(),
                1 <= j <= n,
                origins == corners@.map_values(|c: CornerPieces<P>| c.origin),
                path@ == seq![PathCommand::MoveTo(origins[0])]
                    + origins.subrange(1, j as int).map_values(|p: P| PathCommand::LineTo(p)),
                scan_commands(path@).cubics.len() == 0,
                line_count(path@) == j - 1,
            decreases n - j,
        {
            let ghost before = path@;
            path.line_to(corners[j].origin);
            proof {
                lemma_scan_push(before, PathCommand::LineTo(origins[j as int]));
                lemma_line_count_push(before, PathCommand::LineTo(origins[j as int]));
                assert(origins.subrange(1, j + 1).map_values(|p: P| PathCommand::LineTo(p))
                    =~= origins.subrange(1, j as int).map_values(|p: P| PathCommand::LineTo(p)).push(
                    PathCommand::LineTo(origins[j as int])));
            }
            j += 1;
        }
        let ghost before = path@;
        path.close();
        proof {
            lemma_scan_push(before, PathCommand::Close);
            lemma_line_count_push(before, PathCommand::Close);
            assert(origins.subrange(1, n as int) =~= origins.drop_first());
        }
        return path;
    }
    let ghost rest = corners@.drop_first();
    let mut path = SmoothPath::new();
    path.move_to(corners[0].end);
    proof {
        lemma_scan_push(Seq::empty(), PathCommand::MoveTo(corners@[0].end));
        lemma_line_count_push(Seq::empty(), PathCommand::MoveTo(corners@[0].end));
        assert(Seq::<PathCommand<P>>::empty().push(PathCommand::MoveTo(corners@[0].end)) == path@);
        assert(rest.subrange(0, 0) =~= Seq::<CornerPieces<P>>::empty());
    }
    let ghost head = path@;
    let mut j: usize = 1;
    while j < n
        invariant
            n == corners@.len(),
            1 <= j <= n,
            rest == corners@.drop_first(),
            head == seq![PathCommand::MoveTo(corners@[0].end)],
            path@ == head + corner_pieces(rest.subrange(0, j - 1)),
            scan_commands(path@).current is Some,
            scan_commands(path@).subpath_start is Some,
            scan_commands(path@).cubics.len() == all_corner_cubics(rest.subrange(0, j - 1)).len(),
            line_count(path@) == j - 1,
            (forall|i: int| 0 <= i < corners@.len()
                ==> cubics_chained_from((#[trigger] corners@[i]).start, corners@[i].cubics@))
                ==> scan_commands(path@).cubics == all_corner_cubics(rest.subrange(0, j - 1)),
        decreases n - j,
    {
        let ghost before = path@;
        push_corner_piece(&mut path, &corners[j]);
        proof {
            let done = rest.subrange(0, j - 1);
            let next = rest.subrange(0, j as int);
            assert(next.drop_last() =~= done);
            assert(next.last() == corners@[j as int]);
            if forall|i: int| 0 <= i < corners@.len()
                ==> cubics_chained_from((#[trigger] corners@[i]).start, corners@[i].cubics@) {
                assert(cubics_chained_from(corners@[j as int].start, corners@[j as int].cubics@));
            }
        }
        j += 1;
    }
    proof {
        assert(rest.subrange(0, n - 1) =~= rest);
    }
    let ghost before = path@;
    push_corner_piece(&mut path, &corners[0]);
    proof {
        if forall|i: int| 0 <= i < corners@.len()
            ==> cubics_chained_from((#[trigger] corners@[i]).start, corners@[i].cubics@) {
            assert(cubics_chained_from(corners@[0].start, corners@[0].cubics@));
        }
        lemma_all_corner_cubics_len_rotate(corners@);
        lemma_corner_pieces_len(rest);
    }
    let ghost before_close = path@;
    path.close();
    proof {
        lemma_scan_push(before_close, PathCommand::Close);
        lemma_line_count_push(before_close, PathCommand::Close);
    }
    path
}

proof fn lemma_corner_pieces_len<P>(corners: Seq<CornerPieces<P>>)
    ensures
        corner_pieces(corners).len() == corners.len() + all_corner_cubics(corners).len(),
    decreases corners.len(),
{
    if corners.len() > 0 {
        lemma_corner_pieces_len(corners.drop_last());
    }
}

proof fn lemma_rect_pieces_len<P>(corners: Seq<RectCornerPieces<P>>)
    ensures
        rect_pieces(corners).len() == unjoined_count(corners) + total_kept_cubics(corners),
    decreases corners.len(),
{
    if corners.len() > 0 {
        lemma_rect_pieces_len(corners.drop_last());
    }
}

proof fn lemma_all_corner_cubics_len_rotate<P>(corners: Seq<CornerPieces<P>>)
    requires
        corners.len() >= 1,
    ensures
        all_corner_cubics(corners).len() == all_corner_cubics(corners.drop_first()).len()
            + corners[0].cubics@.len(),
    decreases corners.len(),
{
    if corners.len() == 1 {
        assert(corners.drop_first() =~= Seq::<CornerPieces<P>>::empty());
        assert(corners.drop_last() =~= Seq::<CornerPieces<P>>::empty());
    } else {
        lemma_all_corner_cubics_len_rotate(corners.drop_last());
        assert(corners.drop_last().drop_first() =~= corners.drop_first().drop_last());
        assert(corners.drop_first().last() == corners.last());
    }
}

/// The pieces of one corner of a smooth rectangle: where its curve starts
/// and ends, and its three cubic pieces.
pub struct RectCornerPieces<P> {
    /// Where the curve leaves the incoming edge.
    pub start: P,
    /// Where the curve meets the outgoing edge.
    pub end: P,
    /// Whether `start` coincides with the end of the corner before, so that
    /// no line is drawn to it.
    pub joined: bool,
    /// The transition from the incoming edge to the arc.
    pub first: CubicSegment<P>,
    /// Whether the first piece has shrunk to a single point and is left out.
    pub first_flat: bool,
    /// The arc in the middle; it is always drawn.
    pub middle: CubicSegment<P>,
    /// The transition from the arc to the outgoing edge.
    pub last: CubicSegment<P>,
    /// Whether the last piece has shrunk to a single point and is left out.
    pub last_flat: bool,
}

/// The commands of one rectangle corner: a line to its start unless the
/// corner is joined to the one before, the first piece unless flat, the
/// middle arc, and the last piece unless flat.
pub open spec fn rect_piece<P>(c: RectCornerPieces<P>) -> Seq<PathCommand<P>> {
    (if c.joined { Seq::empty() } else { seq![PathCommand::LineTo(c.start)] })
        + (if c.first_flat { Seq::empty() } else { seq![cubic_command(c.first)] })
        + seq![cubic_command(c.middle)]
        + (if c.last_flat { Seq::empty() } else { seq![cubic_command(c.last)] })
}

/// The commands of several rectangle corners, one after the other.
pub open spec fn rect_pieces<P>(corners: Seq<RectCornerPieces<P>>) -> Seq<PathCommand<P>>
    decreases corners.len(),
{
    if corners.len() == 0 {
        Seq::empty()
    } else {
        rect_pieces(corners.drop_last()) + rect_piece(corners.last())
    }
}

/// The number of cubic pieces a rectangle corner draws.
pub open spec fn kept_cubic_count<P>(c: RectCornerPieces<P>) -> nat {
    (if c.first_flat { 0nat } else { 1nat }) + 1 + (if c.last_flat { 0nat } else { 1nat })
}

/// The number of cubic pieces that several rectangle corners draw.
pub open spec fn total_kept_cubics<P>(corners: Seq<RectCornerPieces<P>>) -> nat
    decreases corners.len(),
{
    if corners.len() == 0 {
        0
    } else {
        total_kept_cubics(corners.drop_last()) + kept_cubic_count(corners.last())
    }
}

/// The number of rectangle corners that draw a line to their start.
pub open spec fn unjoined_count<P>(corners: Seq<RectCornerPieces<P>>) -> nat
    decreases corners.len(),
{
    if corners.len() == 0 {
        0
    } else {
        unjoined_count(corners.drop_last()) + if corners.last().joined { 0nat } else { 1nat }
    }
}

/// The outline of a smooth rectangle: from the end of the first corner, each
/// further corner in turn, then the first corner, then close.
pub open spec fn rect_outline<P>(corners: Seq<RectCornerPieces<P>>) -> Seq<PathCommand<P>> {
    seq![PathCommand::MoveTo(corners[0].end)] + rect_pieces(corners.drop_first()) + rect_piece(corners[0])
        + seq![PathCommand::Close]
}

/// The cubic pieces a rectangle corner draws, in order: its first
/// transition unless flat, its middle arc, its last transition unless flat.
pub open spec fn rect_corner_drawn<P>(c: RectCornerPieces<P>) -> Seq<CubicSegment<P>> {
    (if c.first_flat { Seq::empty() } else { seq![c.first] }) + seq![c.middle]
        + (if c.last_flat { Seq::empty() } else { seq![c.last] })
}

/// The cubic pieces several rectangle corners draw, one corner after the other.
pub open spec fn all_rect_drawn<P>(corners: Seq<RectCornerPieces<P>>) -> Seq<CubicSegment<P>>
    decreases corners.len(),
{
    if corners.len() == 0 {
        Seq::empty()
    } else {
        all_rect_drawn(corners.drop_last()) + rect_corner_drawn(corners.last())
    }
}

/// The pieces of a rectangle corner follow one another: the first starts at
/// `start`, each starts where the one before it ends, the last ends at
/// `end`, and a piece marked flat starts and ends at the same point.
pub open spec fn rect_corner_chained<P>(c: RectCornerPieces<P>) -> bool {
    &&& c.first.from == c.start
    &&& c.middle.from == c.first.to
    &&& c.last.from == c.middle.to
    &&& c.last.to == c.end
    &&& c.first_flat ==> c.first.to == c.first.from
    &&& c.last_flat ==> c.last.from == c.last.to
}

/// A corner marked joined starts where the corner before it (cyclically) ends.
pub open spec fn rect_corners_meet<P>(corners: Seq<RectCornerPieces<P>>) -> bool {
    forall|i: int| 0 <= i < corners.len() && (#[trigger] corners[i]).joined
        ==> corners[i].start == corners[if i == 0 { corners.len() - 1 } else { i - 1 }].end
}

proof fn lemma_scan_rect_piece<P>(prefix: Seq<PathCommand<P>>, c: RectCornerPieces<P>, q: P)
    requires
        scan_commands(prefix).current == Some(q),
        rect_corner_chained(c),
        c.joined ==> c.start == q,
    ensures
        scan_commands(prefix + rect_piece(c)).cubics == scan_commands(prefix).cubics + rect_corner_drawn(c),
        scan_commands(prefix + rect_piece(c)).current == Some(c.end),
        scan_commands(prefix + rect_piece(c)).subpath_start == scan_commands(prefix).subpath_start,
{
    let s1 = if c.joined { prefix } else { prefix.push(PathCommand::LineTo(c.start)) };
    if !c.joined {
        lemma_scan_push(prefix, PathCommand::LineTo(c.start));
    }
    let s2 = if c.first_flat { s1 } else { s1.push(cubic_command(c.first)) };
    if !c.first_flat {
        lemma_scan_push(s1, cubic_command(c.first));
    }
    let s3 = s2.push(cubic_command(c.middle));
    lemma_scan_push(s2, cubic_command(c.middle));
    let s4 = if c.last_flat { s3 } else { s3.push(cubic_command(c.last)) };
    if !c.last_flat {
        lemma_scan_push(s3, cubic_command(c.last));
    }
    assert(s4 =~= prefix + rect_piece(c));
    assert(scan_commands(s4).cubics =~= scan_commands(prefix).cubics + rect_corner_drawn(c));
}

proof fn lemma_scan_rect_pieces<P>(prefix: Seq<PathCommand<P>>, corners: Seq<RectCornerPieces<P>>, q: P)
    requires
        scan_commands(prefix).current == Some(q),
        forall|i: int| 0 <= i < corners.len() ==> rect_corner_chained(#[trigger] corners[i]),
        corners.len() > 0 && corners[0].joined ==> corners[0].start == q,
        forall|i: int| 0 < i < corners.len() && (#[trigger] corners[i]).joined ==> corners[i].start == corners[i - 1].end,
    ensures
        scan_commands(prefix + rect_pieces(corners)).cubics == scan_commands(prefix).cubics + all_rect_drawn(corners),
        scan_commands(prefix + rect_pieces(corners)).current == Some(
            if corners.len() == 0 { q } else { corners.last().end },
        ),
        scan_commands(prefix + rect_pieces(corners)).subpath_start == scan_commands(prefix).subpath_start,
    decreases corners.len(),
{
    if corners.len() == 0 {
        assert(prefix + rect_pieces(corners) =~= prefix);
        assert(scan_commands(prefix).cubics + all_rect_drawn(corners) =~= scan_commands(prefix).cubics);
    } else {
        let d = corners.drop_last();
        let last = corners.last();
        assert forall|i: int| 0 < i < d.len() && (#[trigger] d[i]).joined implies d[i].start == d[i - 1].end by {
            assert(corners[i] == d[i] && corners[i - 1] == d[i - 1]);
        }
        assert forall|i: int| 0 <= i < d.len() implies rect_corner_chained(#[trigger] d[i]) by {
            assert(corners[i] == d[i]);
        }
        if d.len() > 0 {
            assert(corners[0] == d[0]);
        }
        lemma_scan_rect_pieces(prefix, d, q);
        let q2 = if d.len() == 0 { q } else { d.last().end };
        assert(rect_corner_chained(corners[corners.len() - 1]));
        if d.len() > 0 {
            assert(corners[corners.len() - 2] == d.last());
        }
        lemma_scan_rect_piece(prefix + rect_pieces(d), last, q2);
        assert(prefix + rect_pieces(corners) =~= (prefix + rect_pieces(d)) + rect_piece(last));
        assert(scan_commands(prefix).cubics + all_rect_drawn(corners)
            =~= scan_commands(prefix).cubics + all_rect_drawn(d) + rect_corner_drawn(last));
    }
}

/// Law: when each corner's pieces follow one another and every corner marked
/// joined starts where the corner before it ends, the cubic pieces of the
/// rectangle outline are exactly the pieces the corners draw, each with the
/// point it starts from: those of the second corner onwards, then those of
/// the first, every corner giving its first transition unless flat, its
/// middle arc, then its last transition unless flat.
pub proof fn lemma_rect_outline_draws_each_corner_in_order<P>(corners: Seq<RectCornerPieces<P>>)
    requires
        corners.len() >= 1,
        forall|i: int| 0 <= i < corners.len() ==> rect_corner_chained(#[trigger] corners[i]),
        rect_corners_meet(corners),
    ensures
        spec_cubics(rect_outline(corners)) == all_rect_drawn(corners.drop_first()) + rect_corner_drawn(corners[0]),
{
    let n = corners.len();
    let head = seq![PathCommand::MoveTo(corners[0].end)];
    lemma_scan_push(Seq::empty(), PathCommand::MoveTo(corners[0].end));
    assert(Seq::<PathCommand<P>>::empty().push(PathCommand::MoveTo(corners[0].end)) =~= head);
    let rest = corners.drop_first();
    assert forall|i: int| 0 <= i < rest.len() implies rect_corner_chained(#[trigger] rest[i]) by {
        assert(rest[i] == corners[i + 1]);
    }
    assert forall|i: int| 0 < i < rest.len() && (#[trigger] rest[i]).joined implies rest[i].start == rest[i - 1].end by {
        assert(rest[i] == corners[i + 1] && rest[i - 1] == corners[i]);
        assert(corners[i + 1].joined);
    }
    if rest.len() > 0 {
        assert(rest[0] == corners[1]);
        if corners[1].joined {
            assert(corners[1].start == corners[0].end);
        }
    }
    lemma_scan_rect_pieces(head, rest, corners[0].end);
    let q2 = if rest.len() == 0 { corners[0].end } else { rest.last().end };
    if rest.len() > 0 {
        assert(rest.last() == corners[n - 1]);
    }
    if corners[0].joined {
        assert(corners[0].start == corners[n - 1].end);
    }
    assert(rect_corner_chained(corners[0]));
    let body = head + rect_pieces(rest);
    lemma_scan_rect_piece(body, corners[0], q2);
    lemma_scan_push(body + rect_piece(corners[0]), PathCommand::Close);
    assert(rect_outline(corners) =~= (body + rect_piece(corners[0])).push(PathCommand::Close));
    assert(scan_commands(head).cubics =~= Seq::<CubicSegment<P>>::empty());
    assert(spec_cubics(rect_outline(corners)) =~= all_rect_drawn(rest) + rect_corner_drawn(corners[0]));
}

fn push_rect_piece<P: Copy>(path: &mut SmoothPath<P>, corner: &RectCornerPieces<P>)
    requires
        scan_commands(old(path)@).current is Some,
    ensures
        rect_corner_chained(*corner) && (corner.joined ==> scan_commands(old(path)@).current == Some(corner.start))
            ==> scan_commands(final(path)@).cubics == scan_commands(old(path)@).cubics + rect_corner_drawn(*corner)
            && scan_commands(final(path)@).current == Some(corner.end),
        final(path)@ == old(path)@ + rect_piece(*corner),
        scan_commands(final(path)@).subpath_start == scan_commands(old(path)@).subpath_start,
        scan_commands(final(path)@).current is Some,
        scan_commands(final(path)@).cubics.len() == scan_commands(old(path)@).cubics.len()
            + kept_cubic_count(*corner),
        line_count(final(path)@) == line_count(old(path)@) + if corner.joined { 0nat } else { 1nat },
{
    let ghost start = path@;
    if !corner.joined {
        path.line_to(corner.start);
        proof {
            lemma_scan_push(start, PathCommand::LineTo(corner.start));
            lemma_line_count_push(start, PathCommand::LineTo(corner.start));
        }
    }
    let ghost after_line = path@;
    if !corner.first_flat {
        let c = corner.first;
        path.cubic_to(c.ctrl1, c.ctrl2, c.to);
        proof {
            lemma_scan_push(after_line, cubic_command(c));
            lemma_line_count_push(after_line, cubic_command(c));
        }
    }
    let ghost after_first = path@;
    let m = corner.middle;
    path.cubic_to(m.ctrl1, m.ctrl2, m.to);
    proof {
        lemma_scan_push(after_first, cubic_command(m));
        lemma_line_count_push(after_first, cubic_command(m));
    }
    let ghost after_middle = path@;
    if !corner.last_flat {
        let c = corner.last;
        path.cubic_to(c.ctrl1, c.ctrl2, c.to);
        proof {
            lemma_scan_push(after_middle, cubic_command(c));
            lemma_line_count_push(after_middle, cubic_command(c));
        }
    }
    proof {
        assert(path@ =~= start + rect_piece(*corner));
        if rect_corner_chained(*corner) && (corner.joined ==> scan_commands(start).current == Some(corner.start)) {
            lemma_scan_rect_piece(start, *corner, scan_commands(start).current.unwrap());
        }
    }
}

/// The closed outline of a smooth rectangle from its corners: move to the
/// end of the first corner, draw each further corner, then the first corner,
/// and close. A corner joined to the one before draws no line, and flat
/// transition pieces are left out; the middle arc of each corner is always
/// drawn.
pub fn rect_path<P: Copy>(corners: &[RectCornerPieces<P>]) -> (path: SmoothPath<P>)
    requires
        corners@.len() >= 1,
    ensures
        path@ == rect_outline(corners@),
        spec_cubics(path@).len() == total_kept_cubics(corners@),
        line_count(path@) == unjoined_count(corners@),
        spec_cubics(path@).len() <= 3 * corners@.len(),
        line_count(path@) <= corners@.len(),
        path@.len() == 2 + unjoined_count(corners@) + total_kept_cubics(corners@),
        (forall|i: int| 0 <= i < corners@.len() ==> rect_corner_chained(#[trigger] corners@[i]))
            && rect_corners_meet(corners@) ==> spec_cubics(path@) == all_rect_drawn(corners@.drop_first())
            + rect_corner_drawn(corners@[0]),
{
    let n: usize = corners.len();
    let ghost rest = corners@.drop_first();
    let mut path = SmoothPath::new();
    path.move_to(corners[0].end);
    proof {
        lemma_scan_push(Seq::empty(), PathCommand::MoveTo(corners@[0].end));
        lemma_line_count_push(Seq::empty(), PathCommand::MoveTo(corners@[0].end));
        assert(Seq::<PathCommand<P>>::empty().push(PathCommand::MoveTo(corners@[0].end)) == path@);
        assert(rest.subrange(0, 0) =~= Seq::<RectCornerPieces<P>>::empty());
    }
    let ghost head = path@;
    let mut j: usize = 1;
    while j < n
        invariant
            n == corners@.len(),
            1 <= j <= n,
            rest == corners@.drop_first(),
            head == seq![PathCommand::MoveTo(corners@[0].end)],
            path@ == head + rect_pieces(rest.subrange(0, j - 1)),
            scan_commands(path@).current is Some,
            scan_commands(path@).subpath_start is Some,
            scan_commands(path@).cubics.len() == total_kept_cubics(rest.subrange(0, j - 1)),
            line_count(path@) == unjoined_count(rest.subrange(0, j - 1)),
        decreases n - j,
    {
        push_rect_piece(&mut path, &corners[j]);
        proof {
            let next = rest.subrange(0, j as int);
            assert(next.drop_last() =~= rest.subrange(0, j - 1));
            assert(next.last() == corners@[j as int]);
        }
        j += 1;
    }
    proof {
        assert(rest.subrange(0, n - 1) =~= rest);
    }
    push_rect_piece(&mut path, &corners[0]);
    proof {
        lemma_rect_counts_rotate(corners@);
        lemma_rect_counts_bounded(corners@);
        lemma_rect_pieces_len(rest);
    }
    let ghost before_close = path@;
    path.close();
    proof {
        lemma_scan_push(before_close, PathCommand::Close);
        lemma_line_count_push(before_close, PathCommand::Close);
    }
    proof {
        assert(path@ == rect_outline(corners@));
        if (forall|i: int| 0 <= i < corners@.len() ==> rect_corner_chained(#[trigger] corners@[i]))
            && rect_corners_meet(corners@) {
            lemma_rect_outline_draws_each_corner_in_order(corners@);
        }
    }
    path
}

proof fn lemma_rect_counts_bounded<P>(corners: Seq<RectCornerPieces<P>>)
    ensures
        total_kept_cubics(corners) <= 3 * corners.len(),
        unjoined_count(corners) <= corners.len(),
    decreases corners.len(),
{
    if corners.len() > 0 {
        lemma_rect_counts_bounded(corners.drop_last());
    }
}

proof fn lemma_rect_counts_rotate<P>(corners: Seq<RectCornerPieces<P>>)
    requires
        corners.len() >= 1,
    ensures
        total_kept_cubics(corners) == total_kept_cubics(corners.drop_first()) + kept_cubic_count(corners[0]),
        unjoined_count(corners) == unjoined_count(corners.drop_first()) + if corners[0].joined { 0nat } else { 1nat },
    decreases corners.len(),
{
    if corners.len() == 1 {
        assert(corners.drop_first() =~= Seq::<RectCornerPieces<P>>::empty());
        assert(corners.drop_last() =~= Seq::<RectCornerPieces<P>>::empty());
    } else {
        lemma_rect_counts_rotate(corners.drop_last());
        assert(corners.drop_last().drop_first() =~= corners.drop_first().drop_last());
        assert(corners.drop_first().last() == corners.last());
    }
}

} // verus!
