use vstd::prelude::*;
use vstd::arithmetic::div_mod::{lemma_mod_add_multiples_vanish, lemma_small_mod};

use crate::error::SmoothError;

verus! {

/// The neighbours of vertex `index` in a closed polygon of `count` vertices:
/// the vertex before it and the vertex after it, wrapping around.
pub fn neighbor_indices(index: usize, count: usize) -> (neighbors: (usize, usize))
    requires
        index < count,
    ensures
        neighbors.0 == (index + count - 1) % (count as int),
        neighbors.1 == (index + 1) % (count as int),
        neighbors.0 < count,
        neighbors.1 < count,
{
    proof {
        if index == 0 {
            lemma_small_mod((count - 1) as nat, count as nat);
        } else {
            lemma_mod_add_multiples_vanish(index - 1, count as int);
            lemma_small_mod((index - 1) as nat, count as nat);
        }
        if index + 1 < count {
            lemma_small_mod((index + 1) as nat, count as nat);
        } else {
            assert((count as int) % (count as int) == 0) by {
                lemma_mod_add_multiples_vanish(0, count as int);
                lemma_small_mod(0, count as nat);
            }
        }
    }
    let prev: usize = if index == 0 { count - 1 } else { index - 1 };
    let next: usize = if index + 1 < count { index + 1 } else { 0 };
    (prev, next)
}

/// Whether edges `a` and `b` of a closed polygon of `count` edges share an
/// end point (or are the same edge); edge `i` runs from vertex `i` to vertex
/// `i + 1`, wrapping around.
pub open spec fn edges_adjacent(a: int, b: int, count: int) -> bool {
    a == b || (a + 1) % count == b || (b + 1) % count == a
}

/// Whether two edges of a closed polygon share an end point (or are the same
/// edge).
pub fn are_adjacent_edges(first: usize, second: usize, count: usize) -> (adjacent: bool)
    requires
        first < count,
        second < count,
    ensures
        adjacent == edges_adjacent(first as int, second as int, count as int),
{
    first == second || (first + 1) % count == second || (second + 1) % count == first
}

/// A pair of edges that the self-intersection test compares: two distinct,
/// non-adjacent edges, the first one with the lower index.
pub open spec fn is_checked_edge_pair(count: int, a: int, b: int) -> bool {
    0 <= a < b < count && !edges_adjacent(a, b, count)
}

/// Lexicographic order on index pairs.
pub open spec fn pair_before(p: (usize, usize), q: (usize, usize)) -> bool {
    p.0 < q.0 || (p.0 == q.0 && p.1 < q.1)
}

/// The pairs of edges of a closed polygon with `count` edges that can cross
/// without sharing a vertex: every pair of distinct non-adjacent edges once,
/// lower index first, in lexicographic order.
pub fn edge_pairs_to_check(count: usize) -> (pairs: Vec<(usize, usize)>)
    ensures
        forall|k: int| 0 <= k < pairs.len()
            ==> is_checked_edge_pair(count as int, #[trigger] pairs@[k].0 as int, pairs@[k].1 as int),
        forall|k: int, l: int| 0 <= k < l < pairs.len() ==> pair_before(#[trigger] pairs@[k], #[trigger] pairs@[l]),
        forall|a: int, b: int| #[trigger] is_checked_edge_pair(count as int, a, b)
            ==> exists|k: int| 0 <= k < pairs.len() && #[trigger] pairs@[k] == (a as usize, b as usize),
{
    let mut pairs: Vec<(usize, usize)> = Vec::new();
    let mut first: usize = 0;
    while first < count
        invariant
            first <= count,
            forall|k: int| 0 <= k < pairs.len()
                ==> is_checked_edge_pair(count as int, #[trigger] pairs@[k].0 as int, pairs@[k].1 as int),
            forall|k: int, l: int| 0 <= k < l < pairs.len() ==> pair_before(#[trigger] pairs@[k], #[trigger] pairs@[l]),
            forall|k: int| 0 <= k < pairs.len() ==> #[trigger] pairs@[k].0 < first,
            forall|a: int, b: int| #[trigger] is_checked_edge_pair(count as int, a, b) && a < first
                ==> exists|k: int| 0 <= k < pairs.len() && #[trigger] pairs@[k] == (a as usize, b as usize),
        decreases count - first,
    {
        let mut second: usize = first + 1;
        while second < count
            invariant
                first < count,
                first + 1 <= second <= count,
                forall|k: int| 0 <= k < pairs.len()
                    ==> is_checked_edge_pair(count as int, #[trigger] pairs@[k].0 as int, pairs@[k].1 as int),
                forall|k: int, l: int| 0 <= k < l < pairs.len() ==> pair_before(#[trigger] pairs@[k], #[trigger] pairs@[l]),
                forall|k: int| 0 <= k < pairs.len() ==> pair_before(#[trigger] pairs@[k], (first, second)),
                forall|a: int, b: int| #[trigger] is_checked_edge_pair(count as int, a, b)
                    && (a < first || (a == first && b < second))
                    ==> exists|k: int| 0 <= k < pairs.len() && #[trigger] pairs@[k] == (a as usize, b as usize),
            decreases count - second,
        {
            if !are_adjacent_edges(first, second, count) {
                let ghost old_pairs = pairs@;
                pairs.push((first, second));
                assert forall|a: int, b: int| #[trigger] is_checked_edge_pair(count as int, a, b)
                    && (a < first || (a == first && b < second + 1))
                    implies exists|k: int| 0 <= k < pairs.len() && #[trigger] pairs@[k] == (a as usize, b as usize) by {
                    if a == first && b == second {
                        assert(pairs@[old_pairs.len() as int] == (a as usize, b as usize));
                    } else {
                        let k = choose|k: int| 0 <= k < old_pairs.len() && #[trigger] old_pairs[k] == (a as usize, b as usize);
                        assert(pairs@[k] == old_pairs[k]);
                    }
                }
            }
            second += 1;
        }
        first += 1;
    }
    pairs
}

/// The turn direction at one vertex of a frame.
#[derive(Debug, Clone, Copy, PartialEq, Eq, Structural)]
pub enum Turn {
    /// The two edges at the vertex are too short or collinear.
    Degenerate,
    /// The edges turn with a positive cross product.
    Positive,
    /// The edges turn with a negative cross product.
    Negative,
}

/// The turns up to index `i` are all sound and all in the direction of the
/// first turn.
pub open spec fn turns_agree_before(turns: Seq<Turn>, i: int) -> bool {
    forall|j: int| 0 <= j < i ==> #[trigger] turns[j] != Turn::Degenerate && turns[j] == turns[0]
}

/// Decides whether the turns of a frame make a convex polygon: the first
/// degenerate turn gives `DegenerateFrame` and the first turn against the
/// direction of the first one gives `ConcaveFrame`, whichever comes first.
pub fn turns_verdict(turns: &[Turn]) -> (verdict: Result<(), SmoothError>)
    ensures
        verdict is Ok <==> turns_agree_before(turns@, turns@.len() as int),
        verdict == Err::<(), SmoothError>(SmoothError::DegenerateFrame) <==> exists|i: int|
            0 <= i < turns@.len() && #[trigger] turns@[i] == Turn::Degenerate && turns_agree_before(turns@, i),
        verdict == Err::<(), SmoothError>(SmoothError::ConcaveFrame) <==> exists|i: int|
            0 <= i < turns@.len() && #[trigger] turns@[i] != Turn::Degenerate && turns@[i] != turns@[0]
                && turns_agree_before(turns@, i),
        verdict is Ok || verdict == Err::<(), SmoothError>(SmoothError::DegenerateFrame)
            || verdict == Err::<(), SmoothError>(SmoothError::ConcaveFrame),
{
    let n: usize = turns.len();
    let mut i: usize = 0;
    while i < n
        invariant
            n == turns@.len(),
            i <= n,
            turns_agree_before(turns@, i as int),
        decreases n - i,
    {
        let turn = turns[i];
        if turn == Turn::Degenerate {
            proof {
                assert forall|j: int| 0 <= j < turns@.len() && #[trigger] turns@[j] != Turn::Degenerate
                    && turns@[j] != turns@[0] implies !turns_agree_before(turns@, j) by {
                    if j > i {
                        assert(turns@[i as int] == Turn::Degenerate);
                    }
                }
            }
            return Err(SmoothError::DegenerateFrame);
        }
        if turn != turns[0] {
            proof {
                assert forall|j: int| 0 <= j < turns@.len() && #[trigger] turns@[j] == Turn::Degenerate
                    implies !turns_agree_before(turns@, j) by {
                    if j > i {
                        assert(turns@[i as int] != turns@[0]);
                    }
                }
            }
            return Err(SmoothError::ConcaveFrame);
        }
        i += 1;
    }
    Ok(())
}

/// What the frame checks found: the facts that decide which error, if any,
/// a frame reports.
pub struct FrameFacts {
    /// The number of points.
    pub point_count: usize,
    /// Whether every coordinate is finite.
    pub points_finite: bool,
    /// Whether every edge has a length and the enclosed area is not zero.
    pub edges_and_area_sound: bool,
    /// Whether two non-adjacent edges meet.
    pub self_intersecting: bool,
    /// The turn at each vertex, in vertex order.
    pub turns: Vec<Turn>,
    /// Whether the radius is negative.
    pub radius_negative: bool,
    /// Whether radius and smoothing are both finite.
    pub settings_finite: bool,
}

/// The verdict on a frame, from its facts: the checks run in a fixed order
/// and the first one that fails names the error.
pub open spec fn spec_frame_verdict(facts: FrameFacts) -> Result<(), SmoothError> {
    if facts.point_count < 3 {
        Err(SmoothError::TooFewPoints)
    } else if !facts.points_finite {
        Err(SmoothError::NonFiniteInput)
    } else if !facts.edges_and_area_sound {
        Err(SmoothError::DegenerateFrame)
    } else if facts.self_intersecting {
        Err(SmoothError::SelfIntersectingFrame)
    } else if !turns_agree_before(facts.turns@, facts.turns@.len() as int) {
        if exists|i: int| 0 <= i < facts.turns@.len() && #[trigger] facts.turns@[i] == Turn::Degenerate
            && turns_agree_before(facts.turns@, i) {
            Err(SmoothError::DegenerateFrame)
        } else {
            Err(SmoothError::ConcaveFrame)
        }
    } else if facts.radius_negative {
        Err(SmoothError::NegativeInput)
    } else if !facts.settings_finite {
        Err(SmoothError::NonFiniteInput)
    } else {
        Ok(())
    }
}

/// Every check on a frame passes: at least 3 finite points, sound edges and
/// area, no crossing, every turn sound and in the direction of the first,
/// a non-negative radius, and finite radius and smoothing.
pub open spec fn frame_acceptable(facts: FrameFacts) -> bool {
    &&& facts.point_count >= 3
    &&& facts.points_finite
    &&& facts.edges_and_area_sound
    &&& !facts.self_intersecting
    &&& forall|i: int| 0 <= i < facts.turns@.len()
        ==> #[trigger] facts.turns@[i] != Turn::Degenerate && facts.turns@[i] == facts.turns@[0]
    &&& !facts.radius_negative
    &&& facts.settings_finite
}

/// Law: a frame is refused for having too few points exactly when it has
/// fewer than 3 points; a triangle is never refused for that.
pub proof fn lemma_frame_verdict_too_few_points(facts: FrameFacts)
    ensures
        spec_frame_verdict(facts) == Err::<(), SmoothError>(SmoothError::TooFewPoints) <==> facts.point_count < 3,
{
}

/// Law: a frame is accepted exactly when every check passes, the turn at
/// every vertex, the last one included, among them; an accepted frame is
/// convex, all its turns going the same way.
pub proof fn lemma_frame_verdict_accepts_exactly_sound_convex_frames(facts: FrameFacts)
    ensures
        spec_frame_verdict(facts) is Ok <==> frame_acceptable(facts),
        spec_frame_verdict(facts) is Ok ==> forall|i: int, j: int|
            0 <= i < facts.turns@.len() && 0 <= j < facts.turns@.len()
                ==> facts.turns@[i] == facts.turns@[j] && facts.turns@[i] != Turn::Degenerate,
{
    if spec_frame_verdict(facts) is Ok {
        assert forall|i: int, j: int|
            0 <= i < facts.turns@.len() && 0 <= j < facts.turns@.len()
                implies facts.turns@[i] == facts.turns@[j] && facts.turns@[i] != Turn::Degenerate by {
            assert(facts.turns@[i] != Turn::Degenerate && facts.turns@[i] == facts.turns@[0]);
            assert(facts.turns@[j] != Turn::Degenerate && facts.turns@[j] == facts.turns@[0]);
        }
    }
    if frame_acceptable(facts) {
        assert(turns_agree_before(facts.turns@, facts.turns@.len() as int));
    }
}

/// Decides whether a frame can be drawn, and if not which error it reports:
/// too few points, then non-finite points, then degenerate edges or area,
/// then self-intersection, then the turns (degenerate or concave), then a
/// negative radius, then a non-finite radius or smoothing.
pub fn frame_verdict(facts: &FrameFacts) -> (verdict: Result<(), SmoothError>)
    ensures
        verdict == spec_frame_verdict(*facts),
        verdict == Err::<(), SmoothError>(SmoothError::TooFewPoints) <==> facts.point_count < 3,
        verdict is Ok <==> frame_acceptable(*facts),
{
    proof {
        lemma_frame_verdict_too_few_points(*facts);
        lemma_frame_verdict_accepts_exactly_sound_convex_frames(*facts);
    }
    if facts.point_count < 3 {
        return Err(SmoothError::TooFewPoints);
    }
    if !facts.points_finite {
        return Err(SmoothError::NonFiniteInput);
    }
    if !facts.edges_and_area_sound {
        return Err(SmoothError::DegenerateFrame);
    }
    if facts.self_intersecting {
        return Err(SmoothError::SelfIntersectingFrame);
    }
    let turns = turns_verdict(facts.turns.as_slice());
    if turns.is_err() {
        return turns;
    }
    if facts.radius_negative {
        return Err(SmoothError::NegativeInput);
    }
    if !facts.settings_finite {
        return Err(SmoothError::NonFiniteInput);
    }
    Ok(())
}

/// What the corner checks found: the facts that decide which error, if any,
/// a single smooth corner reports.
pub struct CornerFacts {
    /// Whether origin, axes, radius and smoothing are finite and neither
    /// limit is `NaN`.
    pub inputs_finite: bool,
    /// Whether radius and both limits are non-negative.
    pub inputs_non_negative: bool,
    /// Whether both axes have a length to normalise.
    pub axes_sound: bool,
    /// Whether the angle between the axes lies strictly between 0 and PI.
    pub angle_open: bool,
}

/// Decides whether a corner can be drawn, and if not which error it reports:
/// non-finite input, then negative input, then a degenerate axis, then an
/// angle outside `(0, PI)`.
pub fn corner_verdict(facts: &CornerFacts) -> (verdict: Result<(), SmoothError>)
    ensures
        verdict == if !facts.inputs_finite {
            Err(SmoothError::NonFiniteInput)
        } else if !facts.inputs_non_negative {
            Err(SmoothError::NegativeInput)
        } else if !facts.axes_sound {
            Err(SmoothError::DegenerateAxis)
        } else if !facts.angle_open {
            Err(SmoothError::InvalidAngle)
        } else {
            Ok(())
        },
{
    if !facts.inputs_finite {
        Err(SmoothError::NonFiniteInput)
    } else if !facts.inputs_non_negative {
        Err(SmoothError::NegativeInput)
    } else if !facts.axes_sound {
        Err(SmoothError::DegenerateAxis)
    } else if !facts.angle_open {
        Err(SmoothError::InvalidAngle)
    } else {
        Ok(())
    }
}

} // verus!
