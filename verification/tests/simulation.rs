use pi_estimator::{Body, FixedStepScheduler, Simulation, StepError, WorldState};

fn simulation_scene() -> WorldState {
    WorldState::new(0, vec![Body::new(1, 50_000, 5_000, -1_000)]).unwrap()
}

#[test]
fn a_frame_runs_the_steps_that_are_due() {
    let scheduler = FixedStepScheduler::new(10, u64::MAX).unwrap();
    let mut simulation = Simulation::new(simulation_scene(), scheduler);
    assert_eq!(simulation.advance(25), Ok(2));
    assert_eq!(simulation.world().body(0), Some(Body::new(1, 30_000, 5_000, -1_000)));
    assert_eq!(simulation.scheduler().backlog(), 5);
    assert_eq!(simulation.advance(5), Ok(1));
    assert_eq!(simulation.world().body(0), Some(Body::new(1, 20_000, 5_000, -1_000)));
    assert_eq!(simulation.scheduler().backlog(), 0);
}

#[test]
fn a_short_frame_runs_no_step() {
    let scheduler = FixedStepScheduler::new(10, u64::MAX).unwrap();
    let mut simulation = Simulation::new(simulation_scene(), scheduler);
    assert_eq!(simulation.advance(9), Ok(0));
    assert_eq!(simulation.world().body(0), Some(Body::new(1, 50_000, 5_000, -1_000)));
    assert_eq!(simulation.world().collision_count(), 0);
    assert_eq!(simulation.advance(0), Ok(0));
    assert_eq!(simulation.scheduler().backlog(), 9);
}

#[test]
fn frames_of_any_length_give_the_same_world_as_single_steps() {
    let mut by_steps = simulation_scene();
    for _ in 0..100 {
        by_steps.step(10).unwrap();
    }
    let scheduler = FixedStepScheduler::new(10, u64::MAX).unwrap();
    let mut simulation = Simulation::new(simulation_scene(), scheduler);
    let mut steps = 0;
    for frame in [7u64, 13, 0, 250, 1, 9, 333, 387] {
        steps += simulation.advance(frame).unwrap();
    }
    assert_eq!(steps, 100);
    assert_eq!(simulation.world().body(0), by_steps.body(0));
    assert_eq!(simulation.world().collision_count(), by_steps.collision_count());
    assert_eq!(simulation.world().collision_count(), 1);
}

#[test]
fn the_cap_defers_steps_to_later_frames() {
    let scheduler = FixedStepScheduler::new(10, 2).unwrap();
    let mut simulation = Simulation::new(simulation_scene(), scheduler);
    assert_eq!(simulation.advance(50), Ok(2));
    assert_eq!(simulation.world().body(0), Some(Body::new(1, 30_000, 5_000, -1_000)));
    assert_eq!(simulation.scheduler().backlog(), 30);
    assert_eq!(simulation.advance(0), Ok(2));
    assert_eq!(simulation.advance(0), Ok(1));
    assert_eq!(simulation.advance(0), Ok(0));
    // the fifth step carries the body past the wall, which puts it back
    assert_eq!(simulation.world().body(0), Some(Body::new(1, 5_000, 5_000, 1_000)));
    assert_eq!(simulation.world().collision_count(), 1);
}

#[test]
fn a_refused_step_stops_the_frame() {
    let world = WorldState::new(0, vec![Body::new(1, i64::MAX - 25, 5, 10)]).unwrap();
    let scheduler = FixedStepScheduler::new(1, u64::MAX).unwrap();
    let mut simulation = Simulation::new(world, scheduler);
    assert_eq!(simulation.advance(5), Err(StepError::PositionOutOfRange { body: 0 }));
    // two steps fit, the third does not
    assert_eq!(simulation.world().body(0), Some(Body::new(1, i64::MAX - 5, 5, 10)));
    assert_eq!(simulation.scheduler().backlog(), 0);
    assert_eq!(simulation.advance(1), Err(StepError::PositionOutOfRange { body: 0 }));
    assert_eq!(simulation.world().body(0), Some(Body::new(1, i64::MAX - 5, 5, 10)));
}
