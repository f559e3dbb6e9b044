use town::building::{areas_at, find_entity_by_iid, inside_level_positional, visit_entrances, LevelPositional, PixelCoords};
use town::level::LevelMeasurements;
use town::player::{
    animation_change, animation_frames, confinement_bounds, look_direction_from_direction, AnimationStateBundle,
    LookDirection, MovingState,
};

fn area(x: i32, y: i32, width: i32, height: i32) -> LevelPositional {
    LevelPositional { px: PixelCoords { x, y }, width, height }
}

#[test]
fn inside_is_strict() {
    let a = area(10, 20, 16, 8);
    assert!(inside_level_positional(&a, &PixelCoords { x: 11, y: 21 }));
    assert!(inside_level_positional(&a, &PixelCoords { x: 25, y: 27 }));
    assert!(!inside_level_positional(&a, &PixelCoords { x: 10, y: 21 }));
    assert!(!inside_level_positional(&a, &PixelCoords { x: 26, y: 21 }));
    assert!(!inside_level_positional(&a, &PixelCoords { x: 11, y: 28 }));
}

#[test]
fn areas_at_a_point() {
    let areas = vec![area(0, 0, 10, 10), area(20, 0, 10, 10), area(5, 5, 10, 10)];
    assert_eq!(areas_at(&areas, &PixelCoords { x: 7, y: 7 }), vec![0, 2]);
    assert_eq!(areas_at(&areas, &PixelCoords { x: 25, y: 5 }), vec![1]);
    assert_eq!(areas_at(&areas, &PixelCoords { x: -1000, y: -1000 }), Vec::<usize>::new());
}

#[test]
fn entrances_are_entered_once() {
    let entrances = vec![area(0, 0, 10, 10), area(5, 5, 10, 10)];
    let spot = PixelCoords { x: 7, y: 7 };
    let first = visit_entrances(false, &entrances, &spot);
    assert!(first.inside);
    assert_eq!(first.enter, vec![0, 1]);
    let second = visit_entrances(first.inside, &entrances, &spot);
    assert!(second.inside);
    assert_eq!(second.enter, Vec::<usize>::new());
    let outside = visit_entrances(true, &entrances, &PixelCoords { x: 50, y: 50 });
    assert!(!outside.inside);
    assert_eq!(outside.enter, Vec::<usize>::new());
}

#[test]
fn entity_references_resolve_to_the_first_match() {
    let iids = vec!["a".to_string(), "b".to_string(), "b".to_string()];
    assert_eq!(find_entity_by_iid(&"b".to_string(), &iids), Some(1));
    assert_eq!(find_entity_by_iid(&"c".to_string(), &iids), None);
}

#[test]
fn look_direction_prefers_sideways() {
    assert_eq!(look_direction_from_direction(1, 1), Some(LookDirection::Right));
    assert_eq!(look_direction_from_direction(-1, -1), Some(LookDirection::Left));
    assert_eq!(look_direction_from_direction(0, 1), Some(LookDirection::Up));
    assert_eq!(look_direction_from_direction(0, -1), Some(LookDirection::Down));
    assert_eq!(look_direction_from_direction(0, 0), None);
}

#[test]
fn animation_frames_per_state() {
    assert_eq!(animation_frames(MovingState::Idle, LookDirection::Up), (4, 6));
    assert_eq!(animation_frames(MovingState::Idle, LookDirection::Down), (0, 2));
    assert_eq!(animation_frames(MovingState::Idle, LookDirection::Left), (8, 10));
    assert_eq!(animation_frames(MovingState::Idle, LookDirection::Right), (12, 14));
    assert_eq!(animation_frames(MovingState::Moving, LookDirection::Up), (6, 8));
    assert_eq!(animation_frames(MovingState::Moving, LookDirection::Down), (2, 4));
    assert_eq!(animation_frames(MovingState::Moving, LookDirection::Left), (10, 12));
    assert_eq!(animation_frames(MovingState::Moving, LookDirection::Right), (14, 16));
}

#[test]
fn animation_state_starts_idle_looking_up() {
    let bundle = AnimationStateBundle::default();
    assert_eq!(bundle.moving_state, MovingState::Idle);
    assert_eq!(bundle.look_direction, LookDirection::Up);
}

#[test]
fn animation_changes_only_what_differs() {
    let c = animation_change(1, 0, MovingState::Idle, LookDirection::Up);
    assert_eq!(c.moving_state, Some(MovingState::Moving));
    assert_eq!(c.look_direction, Some(LookDirection::Right));
    let again = animation_change(1, 0, MovingState::Moving, LookDirection::Right);
    assert_eq!(again.moving_state, None);
    assert_eq!(again.look_direction, None);
    let stop = animation_change(0, 0, MovingState::Moving, LookDirection::Right);
    assert_eq!(stop.moving_state, Some(MovingState::Idle));
    assert_eq!(stop.look_direction, None);
    let still = animation_change(0, 0, MovingState::Idle, LookDirection::Left);
    assert_eq!(still.moving_state, None);
    assert_eq!(still.look_direction, None);
}

#[test]
fn confinement_keeps_the_player_inside() {
    let m = LevelMeasurements { px_wid: 256, px_hei: 192, c_wid: 16, c_hei: 12, grid_size: 16 };
    let b = confinement_bounds(&m);
    assert_eq!(b.half_player_size, 8);
    assert_eq!((b.x_min, b.x_max), (8, 256 - 8));
    assert_eq!((b.y_min, b.y_max), (8, 192 - 8));
    assert_eq!(b.half_cell_size, 8);
}
