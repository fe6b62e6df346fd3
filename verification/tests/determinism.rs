use pi_estimator::{Body, WorldState};

fn determinism_scene() -> WorldState {
    WorldState::new(
        -452_000,
        vec![
            Body::new(1, 0, 10_000, 0),
            Body::new(100, 150_000, 30_000, -7_000),
            Body::new(3, 400_000, 5_000, -11_000),
        ],
    )
    .unwrap()
}

fn determinism_trajectory(durations: &[u64]) -> Vec<u64> {
    let mut world = determinism_scene();
    let mut counts = vec![world.collision_count()];
    for dt in durations {
        world.step(*dt).unwrap();
        counts.push(world.collision_count());
    }
    counts
}

#[test]
fn equal_runs_give_equal_count_trajectories() {
    let durations: Vec<u64> = (0..3_000).map(|k| 1 + (k % 3)).collect();
    let first = determinism_trajectory(&durations);
    let second = determinism_trajectory(&durations);
    assert_eq!(first, second);
    assert!(*first.last().unwrap() > 0);
}

#[test]
fn the_count_trajectory_never_decreases() {
    let durations: Vec<u64> = (0..3_000).map(|k| 1 + (k % 3)).collect();
    let counts = determinism_trajectory(&durations);
    for pair in counts.windows(2) {
        assert!(pair[0] <= pair[1]);
    }
}

#[test]
fn a_cloned_world_runs_like_the_world_it_was_cloned_from() {
    let mut first = determinism_scene();
    for _ in 0..100 {
        first.step(2).unwrap();
    }
    let mut second = first.clone();
    for _ in 0..500 {
        assert_eq!(first.step(2), second.step(2));
    }
    assert_eq!(first.collision_count(), second.collision_count());
    for i in 0..first.body_count() {
        assert_eq!(first.body(i), second.body(i));
    }
}
