use pi_estimator::{Body, StepError, WallSide, WorldState};

fn stepping_bodies(world: &WorldState) -> Vec<Body> {
    let mut out = Vec::new();
    for i in 0..world.body_count() {
        out.push(world.body(i).unwrap());
    }
    out
}

fn stepping_energy(world: &WorldState) -> i128 {
    stepping_bodies(world)
        .iter()
        .map(|b| b.mass as i128 * b.velocity as i128 * b.velocity as i128)
        .sum()
}

#[test]
fn integration_adds_velocity_times_duration() {
    let mut world =
        WorldState::new(-1000, vec![Body::new(1, 10, 1, -3), Body::new(5, 100, 2, 4)]).unwrap();
    assert_eq!(world.integrate(7), Ok(()));
    assert_eq!(stepping_bodies(&world), vec![Body::new(1, -11, 1, -3), Body::new(5, 128, 2, 4)]);
    assert_eq!(world.collision_count(), 0);
}

#[test]
fn integration_over_no_time_changes_nothing() {
    let start = vec![Body::new(1, 10, 1, -3), Body::new(5, 100, 2, 4)];
    let mut world = WorldState::new(-1000, start.clone()).unwrap();
    assert_eq!(world.integrate(0), Ok(()));
    assert_eq!(stepping_bodies(&world), start);
}

#[test]
fn a_body_at_rest_stays_where_it_is() {
    for dt in [0u64, 1, 500, 1_000_000_007, u64::MAX] {
        let mut world = WorldState::new(0, vec![Body::new(3, 41, 2, 0)]).unwrap();
        assert_eq!(world.integrate(dt), Ok(()));
        assert_eq!(world.body(0), Some(Body::new(3, 41, 2, 0)));
        assert_eq!(world.step(dt), Ok(0));
        assert_eq!(world.body(0), Some(Body::new(3, 41, 2, 0)));
    }
}

#[test]
fn integration_does_not_detect_collisions() {
    let mut world = WorldState::new(0, vec![Body::new(1, 10, 1, -100)]).unwrap();
    assert_eq!(world.integrate(1), Ok(()));
    assert_eq!(world.body(0), Some(Body::new(1, -90, 1, -100)));
    assert_eq!(world.collision_count(), 0);
}

#[test]
fn integration_refuses_to_leave_the_number_range() {
    let start = vec![Body::new(1, 0, 1, 5), Body::new(1, i64::MAX - 5, 1, 3), Body::new(1, 9, 1, 1)];
    let mut world = WorldState::new(-10, start.clone()).unwrap();
    assert_eq!(world.integrate(2), Err(StepError::PositionOutOfRange { body: 1 }));
    assert_eq!(stepping_bodies(&world), start);
    assert_eq!(world.integrate(1), Ok(()));
    assert_eq!(world.body(1), Some(Body::new(1, i64::MAX - 2, 1, 3)));
}

#[test]
fn integration_reports_the_first_body_that_strays() {
    let start = vec![Body::new(1, i64::MIN + 1, 1, -1), Body::new(1, i64::MAX - 1, 1, 1)];
    let mut world = WorldState::new(i64::MIN, start.clone()).unwrap();
    assert_eq!(world.integrate(2), Err(StepError::PositionOutOfRange { body: 0 }));
    assert_eq!(world.step(2), Err(StepError::PositionOutOfRange { body: 0 }));
    assert_eq!(stepping_bodies(&world), start);
    assert_eq!(world.collision_count(), 0);
}

#[test]
fn integration_with_the_longest_duration() {
    let mut world = WorldState::new(i64::MIN, vec![Body::new(1, 0, 1, 1)]).unwrap();
    assert_eq!(world.integrate(u64::MAX), Err(StepError::PositionOutOfRange { body: 0 }));
    let mut world = WorldState::new(i64::MIN, vec![Body::new(1, i64::MIN, 1, 1)]).unwrap();
    assert_eq!(world.integrate(u64::MAX), Ok(()));
    assert_eq!(world.body(0), Some(Body::new(1, i64::MAX, 1, 1)));
}

#[test]
fn overlapping_pair_exchanges_momentum() {
    let mut world =
        WorldState::new(-1000, vec![Body::new(1, 0, 5, 0), Body::new(100, 8, 5, -10201)]).unwrap();
    assert_eq!(world.resolve_body_collisions(), Ok(1));
    assert_eq!(
        stepping_bodies(&world),
        vec![Body::new(1, 0, 5, -20200), Body::new(100, 8, 5, -9999)]
    );
    assert_eq!(world.collision_count(), 1);
}

#[test]
fn separated_pair_is_left_alone() {
    let start = vec![Body::new(1, 0, 5, 0), Body::new(100, 11, 5, -10201)];
    let mut world = WorldState::new(-1000, start.clone()).unwrap();
    assert_eq!(world.resolve_body_collisions(), Ok(0));
    assert_eq!(stepping_bodies(&world), start);
    assert_eq!(world.collision_count(), 0);
}

#[test]
fn body_pass_does_not_separate_overlapping_bodies() {
    let mut world =
        WorldState::new(-1000, vec![Body::new(2, 0, 5, 3), Body::new(2, 4, 5, -3)]).unwrap();
    assert_eq!(world.resolve_body_collisions(), Ok(1));
    assert_eq!(stepping_bodies(&world), vec![Body::new(2, 0, 5, -3), Body::new(2, 4, 5, 3)]);
    // still overlapping: the next pass counts the pair again
    assert_eq!(world.resolve_body_collisions(), Ok(1));
    assert_eq!(stepping_bodies(&world), vec![Body::new(2, 0, 5, 3), Body::new(2, 4, 5, -3)]);
    assert_eq!(world.collision_count(), 2);
}

#[test]
fn later_pairs_see_the_velocities_left_by_earlier_pairs() {
    let start = vec![Body::new(2, 0, 10, 5), Body::new(3, 15, 10, -4), Body::new(5, 30, 10, -7)];
    let mut world = WorldState::new(-1000, start).unwrap();
    // pair (0, 1): -29 / 5 and 16 / 5; pair (0, 2) is apart;
    // pair (1, 2) with the new velocity 3: -76 / 8 and 4 / 8
    assert_eq!(world.resolve_body_collisions(), Ok(2));
    assert_eq!(
        stepping_bodies(&world),
        vec![Body::new(2, 0, 10, -5), Body::new(3, 15, 10, -9), Body::new(5, 30, 10, 0)]
    );
    assert_eq!(world.collision_count(), 2);
}

#[test]
fn each_pair_is_visited_once() {
    let same = Body::new(1, 0, 1, 0);
    let mut world = WorldState::new(-1000, vec![same, same, same, same]).unwrap();
    assert_eq!(world.resolve_body_collisions(), Ok(6));
    assert_eq!(world.collision_count(), 6);
    let mut world = WorldState::new(-1000, vec![same]).unwrap();
    assert_eq!(world.resolve_body_collisions(), Ok(0));
    let mut world = WorldState::new(-1000, Vec::new()).unwrap();
    assert_eq!(world.resolve_body_collisions(), Ok(0));
}

#[test]
fn a_body_at_the_wall_is_reflected_and_put_on_the_wall() {
    let mut world =
        WorldState::new(-452, vec![Body::new(1, -445, 10, -75), Body::new(9, -441, 10, -75)])
            .unwrap();
    assert_eq!(world.resolve_wall_collisions(), Ok(1));
    assert_eq!(
        stepping_bodies(&world),
        vec![Body::new(1, -442, 10, 75), Body::new(9, -441, 10, -75)]
    );
    assert_eq!(world.collision_count(), 1);
}

#[test]
fn a_body_touching_the_wall_is_reflected() {
    let mut world = WorldState::new(0, vec![Body::new(1, 10, 10, -1)]).unwrap();
    assert_eq!(world.resolve_wall_collisions(), Ok(1));
    assert_eq!(world.body(0), Some(Body::new(1, 10, 10, 1)));
}

#[test]
fn a_body_resting_on_the_wall_is_counted_on_every_pass() {
    let mut world = WorldState::new(0, vec![Body::new(1, 10, 10, 0)]).unwrap();
    assert_eq!(world.resolve_wall_collisions(), Ok(1));
    assert_eq!(world.resolve_wall_collisions(), Ok(1));
    assert_eq!(world.body(0), Some(Body::new(1, 10, 10, 0)));
    assert_eq!(world.collision_count(), 2);
}

#[test]
fn a_high_wall_reflects_downward() {
    let mut world =
        WorldState::with_wall_side(100, WallSide::High, vec![Body::new(1, 95, 10, 7)]).unwrap();
    assert_eq!(world.resolve_wall_collisions(), Ok(1));
    assert_eq!(world.body(0), Some(Body::new(1, 90, 10, -7)));
    let mut world =
        WorldState::with_wall_side(100, WallSide::High, vec![Body::new(1, 89, 10, 7)]).unwrap();
    assert_eq!(world.resolve_wall_collisions(), Ok(0));
    assert_eq!(world.body(0), Some(Body::new(1, 89, 10, 7)));
}

#[test]
fn one_step_integrates_then_resolves_bodies_then_the_wall() {
    let start = vec![Body::new(2, 0, 10, 5), Body::new(3, 15, 10, -4), Body::new(5, 30, 10, -7)];
    let mut world = WorldState::new(-1000, start.clone()).unwrap();
    assert_eq!(world.step(1), Ok(3));
    assert_eq!(
        stepping_bodies(&world),
        vec![Body::new(2, 5, 10, -7), Body::new(3, 11, 10, -7), Body::new(5, 23, 10, 1)]
    );
    assert_eq!(world.collision_count(), 3);

    let mut by_hand = WorldState::new(-1000, start).unwrap();
    assert_eq!(by_hand.integrate(1), Ok(()));
    assert_eq!(by_hand.resolve_body_collisions(), Ok(3));
    assert_eq!(by_hand.resolve_wall_collisions(), Ok(0));
    assert_eq!(stepping_bodies(&by_hand), stepping_bodies(&world));
}

#[test]
fn a_single_body_bounces_off_the_wall_once() {
    // mass 1, position 5, half-extent 0.5, velocity -10, time step 0.01,
    // in units of 0.0001 for positions and 0.01 for time
    let mut world = WorldState::new(0, vec![Body::new(1, 50_000, 5_000, -1_000)]).unwrap();
    for _ in 0..44 {
        assert_eq!(world.step(1), Ok(0));
    }
    assert_eq!(world.body(0), Some(Body::new(1, 6_000, 5_000, -1_000)));
    assert_eq!(world.collision_count(), 0);
    assert_eq!(world.step(1), Ok(1));
    assert_eq!(world.body(0), Some(Body::new(1, 5_000, 5_000, 1_000)));
    assert_eq!(world.collision_count(), 1);
    for k in 1..=1000 {
        assert_eq!(world.step(1), Ok(0));
        assert_eq!(world.body(0), Some(Body::new(1, 5_000 + 1_000 * k, 5_000, 1_000)));
        assert_eq!(world.collision_count(), 1);
    }
}

#[test]
fn a_body_that_jumps_past_the_wall_is_put_back() {
    let mut world = WorldState::new(0, vec![Body::new(1, 50, 5, -1_000)]).unwrap();
    assert_eq!(world.step(1), Ok(1));
    assert_eq!(world.body(0), Some(Body::new(1, 5, 5, 1_000)));
    assert_eq!(world.step(1), Ok(0));
    assert_eq!(world.body(0), Some(Body::new(1, 1_005, 5, 1_000)));
}

#[test]
fn a_single_body_bounces_off_a_high_wall_once() {
    let mut world =
        WorldState::with_wall_side(0, WallSide::High, vec![Body::new(1, -50_000, 5_000, 1_000)])
            .unwrap();
    let mut total = 0;
    for _ in 0..60 {
        total += world.step(1).unwrap();
    }
    assert_eq!(total, 1);
    assert_eq!(world.collision_count(), 1);
    assert_eq!(world.body(0), Some(Body::new(1, -20_000, 5_000, -1_000)));
}

#[test]
fn a_fast_pair_tunnels_without_being_counted() {
    let mut world =
        WorldState::new(-1_000_000, vec![Body::new(1, 0, 5, 100), Body::new(1, 60, 5, -100)])
            .unwrap();
    assert_eq!(world.step(1), Ok(0));
    assert_eq!(stepping_bodies(&world), vec![Body::new(1, 100, 5, 100), Body::new(1, -40, 5, -100)]);
}

#[test]
fn the_count_grows_by_the_events_of_each_step() {
    let mut world = WorldState::new(
        0,
        vec![Body::new(1, 3_000, 1_000, 0), Body::new(100, 8_000, 1_000, -101)],
    )
    .unwrap();
    let mut seen = 0u64;
    let mut previous = 0u64;
    for _ in 0..5_000 {
        let events = world.step(1).unwrap();
        seen += events;
        assert_eq!(world.collision_count(), seen);
        assert!(world.collision_count() >= previous);
        assert!(events <= 3);
        previous = world.collision_count();
    }
    assert!(seen > 0);
}

#[test]
fn no_body_reaches_beyond_the_wall_after_a_step() {
    let mut world = WorldState::new(
        -452,
        vec![Body::new(1, 0, 10, 0), Body::new(100, 150, 30, -7), Body::new(3, 400, 5, -11)],
    )
    .unwrap();
    for _ in 0..2_000 {
        world.step(1).unwrap();
        for b in stepping_bodies(&world) {
            assert!(b.position - b.half_extent >= -452);
            assert!(b.mass > 0 && b.half_extent > 0);
        }
    }
    assert!(world.collision_count() > 0);
}

#[test]
fn kinetic_energy_never_grows_along_a_run() {
    let mut world = WorldState::new(
        -452,
        vec![Body::new(1, 0, 10, 0), Body::new(100, 150, 30, -7), Body::new(3, 400, 5, -11)],
    )
    .unwrap();
    let mut energy = stepping_energy(&world);
    assert_eq!(energy, 100 * 49 + 3 * 121);
    for _ in 0..2_000 {
        world.step(1).unwrap();
        let now = stepping_energy(&world);
        assert!(now <= energy);
        energy = now;
    }
}

#[test]
fn masses_and_half_extents_never_change() {
    let start = vec![Body::new(1, 0, 10, 0), Body::new(100, 150, 30, -7), Body::new(3, 400, 5, -11)];
    let mut world = WorldState::new(-452, start.clone()).unwrap();
    for _ in 0..500 {
        world.step(3).unwrap();
    }
    for (before, after) in start.iter().zip(stepping_bodies(&world)) {
        assert_eq!(before.mass, after.mass);
        assert_eq!(before.half_extent, after.half_extent);
    }
    assert_eq!(world.wall_position(), -452);
    assert_eq!(world.body_count(), 3);
}

#[test]
fn a_full_counter_refuses_the_step() {
    let start = vec![Body::new(1, 10, 1, -1), Body::new(1, 20, 1, 1)];
    // two bodies can count one pair and two wall contacts
    let mut world =
        WorldState::with_collision_count(0, WallSide::Low, start.clone(), u64::MAX - 2).unwrap();
    assert_eq!(world.step(1), Err(StepError::CounterExhausted));
    assert_eq!(stepping_bodies(&world), start);
    assert_eq!(world.collision_count(), u64::MAX - 2);
    let mut world =
        WorldState::with_collision_count(0, WallSide::Low, start, u64::MAX - 3).unwrap();
    assert_eq!(world.step(1), Ok(0));
    assert_eq!(stepping_bodies(&world), vec![Body::new(1, 9, 1, -1), Body::new(1, 21, 1, 1)]);
}

#[test]
fn a_full_counter_refuses_each_pass() {
    let start = vec![Body::new(1, 10, 1, -1), Body::new(1, 20, 1, 1)];
    let mut world =
        WorldState::with_collision_count(0, WallSide::Low, start.clone(), u64::MAX).unwrap();
    assert_eq!(world.resolve_body_collisions(), Err(StepError::CounterExhausted));
    assert_eq!(world.resolve_wall_collisions(), Err(StepError::CounterExhausted));
    assert_eq!(world.integrate(1), Ok(()));
    let mut world =
        WorldState::with_collision_count(0, WallSide::Low, start.clone(), u64::MAX - 1).unwrap();
    assert_eq!(world.resolve_body_collisions(), Ok(0));
    assert_eq!(world.resolve_wall_collisions(), Err(StepError::CounterExhausted));
    let mut world =
        WorldState::with_collision_count(0, WallSide::Low, start, u64::MAX - 2).unwrap();
    assert_eq!(world.resolve_wall_collisions(), Ok(0));
}

#[test]
fn the_counter_can_reach_its_last_value() {
    let mut world = WorldState::with_collision_count(
        0,
        WallSide::Low,
        vec![Body::new(1, 1, 1, 0)],
        u64::MAX - 1,
    )
    .unwrap();
    assert_eq!(world.step(1), Ok(1));
    assert_eq!(world.collision_count(), u64::MAX);
    assert_eq!(world.step(1), Err(StepError::CounterExhausted));
}

#[test]
fn a_straying_body_is_reported_before_a_full_counter() {
    let mut world = WorldState::with_collision_count(
        0,
        WallSide::Low,
        vec![Body::new(1, i64::MAX, 1, 1)],
        u64::MAX,
    )
    .unwrap();
    assert_eq!(world.step(1), Err(StepError::PositionOutOfRange { body: 0 }));
    assert_eq!(world.step(0), Err(StepError::CounterExhausted));
}
