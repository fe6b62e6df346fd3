use pi_estimator::{Body, WorldState};

fn galperin_run(heavy_mass: i64, steps: usize) -> (WorldState, usize) {
    let light = Body::new(1, 5_000_000_000, 1_000_000_000, 0);
    let heavy = Body::new(heavy_mass, 8_000_000_000, 1_000_000_000, -1_000_000);
    let mut world = WorldState::new(0, vec![light, heavy]).unwrap();
    let mut last_event = 0;
    for k in 1..=steps {
        if world.step(1).unwrap() > 0 {
            last_event = k;
        }
    }
    (world, last_event)
}

#[test]
fn equal_masses_collide_three_times() {
    let (world, last_event) = galperin_run(1, 30_000);
    assert_eq!(world.collision_count(), 3);
    assert_eq!(last_event, 9_000);
    assert_eq!(world.body(0), Some(Body::new(1, 5_000_000_000, 1_000_000_000, 0)));
    assert_eq!(world.body(1), Some(Body::new(1, 28_000_000_000, 1_000_000_000, 1_000_000)));
}

#[test]
fn mass_ratio_one_hundred_collides_thirty_one_times() {
    let (world, last_event) = galperin_run(100, 30_000);
    assert_eq!(world.collision_count(), 31);
    assert_eq!(last_event, 12_720);
    assert_eq!(world.body(0), Some(Body::new(1, 16_937_672_704, 1_000_000_000, 477_841)));
    assert_eq!(world.body(1), Some(Body::new(100, 27_940_309_014, 1_000_000_000, 998_853)));
}

#[test]
fn mass_ratio_ten_thousand_collides_314_times() {
    let (world, last_event) = galperin_run(10_000, 200_000);
    assert_eq!(world.collision_count(), 314);
    assert_eq!(last_event, 39_540);
    assert_eq!(world.body(0), Some(Body::new(1, 28_231_827_060, 1_000_000_000, 169_711)));
    assert_eq!(world.body(1), Some(Body::new(10_000, 197_840_425_219, 1_000_000_000, 999_950)));
}

#[test]
fn the_bodies_end_apart_and_moving_away_from_the_wall() {
    let (world, _) = galperin_run(100, 30_000);
    let light = world.body(0).unwrap();
    let heavy = world.body(1).unwrap();
    assert!(light.velocity >= 0);
    assert!(heavy.velocity >= light.velocity);
    assert!(!light.touches(&heavy));
    assert!(light.position < heavy.position);
}

#[test]
fn a_coarse_step_lets_the_bodies_tunnel() {
    // the same bodies, much smaller than one step's travel
    let light = Body::new(1, 50_000, 1_000, 0);
    let heavy = Body::new(100, 154_000, 3_000, -10_201);
    let mut world = WorldState::new(0, vec![light, heavy]).unwrap();
    for _ in 0..60_000 {
        world.step(1).unwrap();
    }
    assert_eq!(world.collision_count(), 3);
    assert!(world.body(0).unwrap().position > world.body(1).unwrap().position);
}

#[test]
fn a_window_sized_scene_counts_314() {
    // positions in units of 1e-12, time in microseconds: a wall at -452, a
    // body of mass 1 and side 20 at rest at 0, a body of mass 10000 and
    // side 92.83... at 150 moving at -75 per second, steps of 500 microseconds
    let unit: i64 = 1_000_000_000_000;
    let light = Body::new(1, 0, 10 * unit, 0);
    let heavy = Body::new(10_000, 150 * unit, 46_415_888_336_128, -75_000_000);
    let mut world = WorldState::new(-452 * unit, vec![light, heavy]).unwrap();
    let mut last_event = 0;
    for k in 1..=120_000 {
        if world.step(500).unwrap() > 0 {
            last_event = k;
        }
    }
    assert_eq!(world.collision_count(), 314);
    assert_eq!(last_event, 92_987);
    assert_eq!(world.body(0), Some(Body::new(1, -270_070_345_393_500, 10 * unit, 12_729_401)));
    assert_eq!(
        world.body(1),
        Some(Body::new(10_000, 3_574_954_130_495_000, 46_415_888_336_128, 74_999_840))
    );
}

fn pixels_to_units(pixels: f32) -> i64 {
    (pixels as f64 * 1e12).round() as i64
}

#[test]
fn a_scene_given_in_pixels_and_seconds_counts_314() {
    let side = 10_000f32.powf(1. / 6.);
    let light = Body::new(1, pixels_to_units(0.), pixels_to_units(20. / 2.), 0);
    let heavy = Body::new(
        10_000,
        pixels_to_units(150.),
        pixels_to_units(20. * side / 2.),
        (-75f64 * 1e12 / 1e6).round() as i64,
    );
    assert_eq!(light.half_extent, 10_000_000_000_000);
    assert_eq!(heavy.velocity, -75_000_000);
    let mut world = WorldState::new(pixels_to_units(-452.), vec![light, heavy]).unwrap();
    for _ in 0..120_000 {
        world.step(500).unwrap();
    }
    assert_eq!(world.collision_count(), 314);
    assert!(world.body(0).unwrap().velocity > 0);
    assert!(world.body(1).unwrap().velocity > world.body(0).unwrap().velocity);
}
