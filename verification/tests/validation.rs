use smooth_frame::{
    CornerFacts, FrameFacts, SmoothError, Turn, are_adjacent_edges, corner_verdict, edge_pairs_to_check,
    frame_verdict, neighbor_indices, turns_verdict,
};

fn sound_frame(turns: Vec<Turn>) -> FrameFacts {
    FrameFacts {
        point_count: turns.len(),
        points_finite: true,
        edges_and_area_sound: true,
        self_intersecting: false,
        turns,
        radius_negative: false,
        settings_finite: true,
    }
}

#[test]
fn neighbors_wrap_around() {
    assert_eq!(neighbor_indices(0, 4), (3, 1));
    assert_eq!(neighbor_indices(1, 4), (0, 2));
    assert_eq!(neighbor_indices(3, 4), (2, 0));
    assert_eq!(neighbor_indices(0, 1), (0, 0));
}

#[test]
fn adjacency_of_edges() {
    assert!(are_adjacent_edges(0, 1, 5));
    assert!(are_adjacent_edges(0, 4, 5));
    assert!(are_adjacent_edges(2, 2, 5));
    assert!(!are_adjacent_edges(0, 2, 5));
    assert!(!are_adjacent_edges(1, 3, 5));
    assert!(are_adjacent_edges(0, 2, 3));
}

#[test]
fn edge_pairs_skip_adjacent_edges() {
    assert_eq!(edge_pairs_to_check(3), vec![]);
    assert_eq!(edge_pairs_to_check(4), vec![(0, 2), (1, 3)]);
    assert_eq!(edge_pairs_to_check(5), vec![(0, 2), (0, 3), (1, 3), (1, 4), (2, 4)]);
    assert_eq!(edge_pairs_to_check(10).len(), 10 * 7 / 2);
    assert_eq!(edge_pairs_to_check(0), vec![]);
}

#[test]
fn convex_turns_pass() {
    assert_eq!(turns_verdict(&[Turn::Positive, Turn::Positive, Turn::Positive]), Ok(()));
    assert_eq!(turns_verdict(&[Turn::Negative, Turn::Negative, Turn::Negative, Turn::Negative]), Ok(()));
    assert_eq!(turns_verdict(&[]), Ok(()));
}

#[test]
fn first_bad_turn_names_the_error() {
    assert_eq!(
        turns_verdict(&[Turn::Positive, Turn::Negative, Turn::Degenerate]),
        Err(SmoothError::ConcaveFrame)
    );
    assert_eq!(
        turns_verdict(&[Turn::Positive, Turn::Degenerate, Turn::Negative]),
        Err(SmoothError::DegenerateFrame)
    );
    assert_eq!(turns_verdict(&[Turn::Degenerate, Turn::Positive]), Err(SmoothError::DegenerateFrame));
}

#[test]
fn frame_with_too_few_points_is_refused_first() {
    let mut facts = sound_frame(vec![Turn::Positive, Turn::Positive]);
    facts.points_finite = false;
    facts.self_intersecting = true;
    assert_eq!(frame_verdict(&facts), Err(SmoothError::TooFewPoints));
}

#[test]
fn frame_errors_come_in_order() {
    let turns = vec![Turn::Positive, Turn::Negative, Turn::Positive, Turn::Positive, Turn::Positive];
    let mut facts = sound_frame(turns);
    facts.points_finite = false;
    facts.edges_and_area_sound = false;
    facts.self_intersecting = true;
    facts.radius_negative = true;
    facts.settings_finite = false;
    assert_eq!(frame_verdict(&facts), Err(SmoothError::NonFiniteInput));
    facts.points_finite = true;
    assert_eq!(frame_verdict(&facts), Err(SmoothError::DegenerateFrame));
    facts.edges_and_area_sound = true;
    assert_eq!(frame_verdict(&facts), Err(SmoothError::SelfIntersectingFrame));
    facts.self_intersecting = false;
    assert_eq!(frame_verdict(&facts), Err(SmoothError::ConcaveFrame));
    facts.turns = vec![Turn::Positive; 5];
    assert_eq!(frame_verdict(&facts), Err(SmoothError::NegativeInput));
    facts.radius_negative = false;
    assert_eq!(frame_verdict(&facts), Err(SmoothError::NonFiniteInput));
    facts.settings_finite = true;
    assert_eq!(frame_verdict(&facts), Ok(()));
}

#[test]
fn concave_star_turns_give_concave_error() {
    let turns = (0..10).map(|k| if k % 2 == 0 { Turn::Negative } else { Turn::Positive }).collect();
    assert_eq!(frame_verdict(&sound_frame(turns)), Err(SmoothError::ConcaveFrame));
}

#[test]
fn collinear_turn_gives_degenerate_error() {
    let turns = vec![Turn::Positive, Turn::Positive, Turn::Degenerate, Turn::Positive];
    assert_eq!(frame_verdict(&sound_frame(turns)), Err(SmoothError::DegenerateFrame));
}

#[test]
fn corner_errors_come_in_order() {
    let mut facts = CornerFacts { inputs_finite: false, inputs_non_negative: false, axes_sound: false, angle_open: false };
    assert_eq!(corner_verdict(&facts), Err(SmoothError::NonFiniteInput));
    facts.inputs_finite = true;
    assert_eq!(corner_verdict(&facts), Err(SmoothError::NegativeInput));
    facts.inputs_non_negative = true;
    assert_eq!(corner_verdict(&facts), Err(SmoothError::DegenerateAxis));
    facts.axes_sound = true;
    assert_eq!(corner_verdict(&facts), Err(SmoothError::InvalidAngle));
    facts.angle_open = true;
    assert_eq!(corner_verdict(&facts), Ok(()));
}
