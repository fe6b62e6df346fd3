use pi_estimator::{Body, WallSide, WorldState};

#[test]
fn overlapping_footprints_collide() {
    let a = Body::new(1, 0, 5, 0);
    let b = Body::new(1, 7, 5, 0);
    assert!(a.touches(&b));
    assert!(b.touches(&a));
}

#[test]
fn touching_edges_count_as_colliding() {
    let a = Body::new(1, 0, 5, 0);
    let b = Body::new(1, 10, 5, 0);
    assert!(a.touches(&b));
    assert!(b.touches(&a));
}

#[test]
fn separated_footprints_do_not_collide() {
    let a = Body::new(1, 0, 5, 0);
    let b = Body::new(1, 11, 5, 0);
    assert!(!a.touches(&b));
    assert!(!b.touches(&a));
}

#[test]
fn a_body_inside_another_collides() {
    let a = Body::new(1, 0, 100, 0);
    let b = Body::new(1, 3, 1, 0);
    assert!(a.touches(&b));
    assert!(b.touches(&a));
}

#[test]
fn overlap_ignores_mass_and_velocity() {
    let a = Body::new(1, 0, 5, 1000);
    let b = Body::new(70, 20, 5, -1000);
    assert!(!a.touches(&b));
}

#[test]
fn overlap_at_the_ends_of_the_number_range() {
    let a = Body::new(1, i64::MIN, i64::MAX, 0);
    let b = Body::new(1, i64::MAX, i64::MAX, 0);
    // low edge of b is 0, high edge of a is -1
    assert!(!a.touches(&b));
    let c = Body::new(1, i64::MAX, i64::MAX, 0);
    let d = Body::new(1, i64::MAX - 1, 1, 0);
    assert!(c.touches(&d));
}

#[test]
fn leading_edge_on_the_low_wall_counts() {
    assert!(Body::new(1, 5000, 5000, -1).at_wall(0, WallSide::Low));
    assert!(Body::new(1, 4999, 5000, -1).at_wall(0, WallSide::Low));
    assert!(!Body::new(1, 5001, 5000, -1).at_wall(0, WallSide::Low));
    assert!(Body::new(1, -442, 10, 0).at_wall(-452, WallSide::Low));
    assert!(!Body::new(1, -441, 10, 0).at_wall(-452, WallSide::Low));
}

#[test]
fn leading_edge_on_the_high_wall_counts() {
    assert!(Body::new(1, -5000, 5000, 1).at_wall(0, WallSide::High));
    assert!(Body::new(1, -4999, 5000, 1).at_wall(0, WallSide::High));
    assert!(!Body::new(1, -5001, 5000, 1).at_wall(0, WallSide::High));
}

#[test]
fn wall_test_at_the_ends_of_the_number_range() {
    assert!(Body::new(1, i64::MIN, i64::MAX, 0).at_wall(i64::MIN, WallSide::Low));
    assert!(!Body::new(1, i64::MAX, 1, 0).at_wall(i64::MIN, WallSide::Low));
    assert!(Body::new(1, i64::MAX, i64::MAX, 0).at_wall(i64::MAX, WallSide::High));
    assert!(!Body::new(1, i64::MIN, 1, 0).at_wall(i64::MAX, WallSide::High));
}

#[test]
fn validity_needs_positive_mass_and_half_extent() {
    assert!(Body::new(1, 0, 1, 0).is_valid());
    assert!(!Body::new(0, 0, 1, 0).is_valid());
    assert!(!Body::new(-3, 0, 1, 0).is_valid());
    assert!(!Body::new(1, 0, 0, 0).is_valid());
    assert!(!Body::new(1, 0, -2, 0).is_valid());
}

#[test]
fn new_keeps_the_four_quantities() {
    let b = Body::new(3, -7, 11, 13);
    assert_eq!(b, Body { mass: 3, position: -7, half_extent: 11, velocity: 13 });
}

fn detection_scene(wall: i64, side: WallSide) -> WorldState {
    let bodies = vec![
        Body::new(1, 0, 10, 3),
        Body::new(2, 15, 10, -4),
        Body::new(3, 30, 10, 0),
        Body::new(4, 5, 1, 9),
    ];
    WorldState::with_wall_side(wall, side, bodies).unwrap()
}

#[test]
fn the_detector_lists_each_overlapping_pair_once_in_index_order() {
    let world = detection_scene(-1000, WallSide::Low);
    assert_eq!(world.overlapping_pairs(), vec![(0, 1), (0, 3), (1, 2), (1, 3)]);
}

#[test]
fn the_detector_finds_nothing_among_fewer_than_two_bodies() {
    let world = WorldState::new(0, Vec::new()).unwrap();
    assert_eq!(world.overlapping_pairs(), Vec::<(usize, usize)>::new());
    assert_eq!(world.bodies_at_wall(), Vec::<usize>::new());
    let world = WorldState::new(-100, vec![Body::new(1, 0, 10, 0)]).unwrap();
    assert_eq!(world.overlapping_pairs(), Vec::<(usize, usize)>::new());
    assert_eq!(world.bodies_at_wall(), Vec::<usize>::new());
}

#[test]
fn the_detector_lists_the_bodies_at_a_low_wall() {
    assert_eq!(detection_scene(-10, WallSide::Low).bodies_at_wall(), vec![0]);
    assert_eq!(detection_scene(-11, WallSide::Low).bodies_at_wall(), Vec::<usize>::new());
    assert_eq!(detection_scene(5, WallSide::Low).bodies_at_wall(), vec![0, 1, 3]);
    assert_eq!(detection_scene(20, WallSide::Low).bodies_at_wall(), vec![0, 1, 2, 3]);
}

#[test]
fn the_detector_lists_the_bodies_at_a_high_wall() {
    assert_eq!(detection_scene(40, WallSide::High).bodies_at_wall(), vec![2]);
    assert_eq!(detection_scene(41, WallSide::High).bodies_at_wall(), Vec::<usize>::new());
    assert_eq!(detection_scene(25, WallSide::High).bodies_at_wall(), vec![1, 2]);
    assert_eq!(detection_scene(6, WallSide::High).bodies_at_wall(), vec![0, 1, 2, 3]);
}

#[test]
fn each_pass_counts_what_the_detector_lists() {
    let mut world = detection_scene(5, WallSide::Low);
    let pairs = world.overlapping_pairs();
    assert_eq!(world.resolve_body_collisions(), Ok(pairs.len() as u64));
    // velocities changed, footprints did not
    assert_eq!(world.overlapping_pairs(), pairs);
    let hits = world.bodies_at_wall();
    assert_eq!(world.resolve_wall_collisions(), Ok(hits.len() as u64));
    assert_eq!(world.collision_count(), 7);
}

#[test]
fn detection_changes_nothing() {
    let world = detection_scene(5, WallSide::Low);
    let before: Vec<Body> = (0..4).map(|i| world.body(i).unwrap()).collect();
    world.overlapping_pairs();
    world.bodies_at_wall();
    let after: Vec<Body> = (0..4).map(|i| world.body(i).unwrap()).collect();
    assert_eq!(before, after);
    assert_eq!(world.collision_count(), 0);
}
