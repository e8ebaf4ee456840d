use gravity::body::{Body, Vec2};
use gravity::sim::{SimError, Simulation};

fn v(x: i64, y: i64) -> Vec2 {
    Vec2 { x, y }
}

fn gap_x(sim: &Simulation) -> i64 {
    let b = sim.bodies();
    b[1].pos.x - b[0].pos.x
}

#[test]
fn spawn_rejects_zero_mass() {
    let mut sim = Simulation::new();
    assert_eq!(sim.spawn(v(0, 0), v(0, 0), 0), Err(SimError::InvalidMass));
    assert_eq!(sim.len(), 0);
}

#[test]
fn spawn_rejects_negative_mass() {
    let mut sim = Simulation::new();
    assert_eq!(sim.spawn(v(0, 0), v(0, 0), -5), Err(SimError::InvalidMass));
    assert_eq!(sim.len(), 0);
}

#[test]
fn spawn_appends_body() {
    let mut sim = Simulation::new();
    assert_eq!(sim.spawn(v(7, -4), v(2, 3), 10), Ok(0));
    assert_eq!(sim.len(), 1);
    let b = sim.bodies()[0];
    assert_eq!(b.pos, v(7, -4));
    assert_eq!(b.vel, v(2, 3));
    assert_eq!(b.mass, 10);
    assert_eq!(b.acc.x, 0);
    assert_eq!(b.acc.y, 0);
}

#[test]
fn spawn_clamps_coordinates() {
    let mut sim = Simulation::new();
    sim.spawn(v(i64::MAX, i64::MIN), v(0, 0), 10).unwrap();
    let b = sim.bodies()[0];
    assert_eq!(b.pos.x, 1099511627776);
    assert_eq!(b.pos.y, -1099511627776);
}

#[test]
fn radius_is_sqrt_mass_times_multiplier() {
    let b = Body::new(v(0, 0), v(0, 0), 10);
    assert_eq!(b.radius(), 9); // isqrt(10) == 3, times the size multiplier 3
    let c = Body::new(v(0, 0), v(0, 0), 100);
    assert_eq!(c.radius(), 30);
}

#[test]
fn overlap_is_strict_on_radius_sum() {
    let a = Body::new(v(0, 0), v(0, 0), 10);
    let b = Body::new(v(17, 0), v(0, 0), 10);
    let c = Body::new(v(18, 0), v(0, 0), 10);
    assert!(a.overlaps(&b)); // distance 17 < 9 + 9
    assert!(!a.overlaps(&c)); // distance 18 is not strictly below 18
}

#[test]
fn integrator_moves_by_velocity() {
    let mut sim = Simulation::new();
    sim.spawn(v(100, 200), v(5, -3), 10).unwrap();
    sim.step();
    let b = sim.bodies()[0];
    assert_eq!(b.pos, v(105, 197));
    assert_eq!(b.vel, v(5, -3));
}

#[test]
fn single_body_at_rest_stays_put() {
    let mut sim = Simulation::new();
    sim.spawn(v(100, 200), v(0, 0), 10).unwrap();
    for _ in 0..5 {
        sim.step();
        assert_eq!(sim.len(), 1);
        let b = sim.bodies()[0];
        assert_eq!(b.pos, v(100, 200));
        assert_eq!(b.vel, v(0, 0));
    }
}

#[test]
fn two_bodies_attract_and_merge() {
    let mut sim = Simulation::new();
    sim.spawn(v(0, 0), v(0, 0), 1_000_000).unwrap();
    sim.spawn(v(7000, 0), v(0, 0), 1_000_000).unwrap();
    let total = sim.total_mass();
    let mut prev_gap = gap_x(&sim);
    let mut ticks = 0;
    sim.step();
    ticks += 1;
    // after one tick both bodies have picked up speed toward each other
    assert!(sim.bodies()[0].vel.x > 0);
    assert!(sim.bodies()[1].vel.x < 0);
    while sim.len() == 2 && ticks < 10 {
        let gap = gap_x(&sim);
        assert!(0 < gap && gap < prev_gap); // strictly approaching, no pass-through
        prev_gap = gap;
        sim.step();
        ticks += 1;
        assert_eq!(sim.total_mass(), total);
    }
    assert_eq!(sim.len(), 1); // merged once within the combined radius
    assert_eq!(sim.bodies()[0].mass, 2_000_000);
}

#[test]
fn chain_of_four_merges_into_one() {
    // only adjacent pairs overlap (radius 30 each, spacing 50), yet the
    // whole chain is one transitive cluster
    let mut sim = Simulation::new();
    sim.spawn(v(0, 0), v(0, 0), 100).unwrap();
    sim.spawn(v(50, 0), v(0, 0), 100).unwrap();
    sim.spawn(v(100, 0), v(0, 0), 100).unwrap();
    sim.spawn(v(150, 0), v(0, 0), 100).unwrap();
    sim.step();
    assert_eq!(sim.len(), 1);
    let b = sim.bodies()[0];
    assert_eq!(b.mass, 400); // sum of the members' masses
    assert_eq!(b.pos, v(75, 0)); // count-averaged position
    assert_eq!(b.vel, v(0, 0)); // count-averaged velocity
}

#[test]
fn mass_is_conserved_across_ticks() {
    let mut sim = Simulation::new();
    sim.spawn(v(0, 0), v(0, 0), 100).unwrap();
    sim.spawn(v(50, 0), v(0, 0), 100).unwrap();
    sim.spawn(v(100, 0), v(0, 0), 100).unwrap();
    sim.spawn(v(9000, 40), v(-1, 0), 250).unwrap();
    sim.spawn(v(-8000, -300), v(2, 1), 7).unwrap();
    let total = sim.total_mass();
    assert_eq!(total, 557);
    for _ in 0..10 {
        sim.step();
        assert_eq!(sim.total_mass(), total);
    }
}

#[test]
fn far_bodies_are_never_merged() {
    let mut sim = Simulation::new();
    sim.spawn(v(0, 0), v(0, 0), 10).unwrap();
    sim.spawn(v(1_000_000, 0), v(0, 0), 10).unwrap();
    for _ in 0..10 {
        sim.step();
        assert_eq!(sim.len(), 2);
        // the pull is far below one integer unit, so they do not even move
        assert_eq!(sim.bodies()[0].pos, v(0, 0));
        assert_eq!(sim.bodies()[1].pos, v(1_000_000, 0));
    }
}

#[test]
fn spawn_order_does_not_change_cluster_masses() {
    let spawns: [(i64, i64, i64); 6] = [
        (0, 0, 100),
        (50, 0, 100),
        (100, 0, 100),
        (150, 0, 100),
        (9000, 25, 300),
        (9030, 25, 40),
    ];
    let mut forward = Simulation::new();
    for &(x, y, m) in spawns.iter() {
        forward.spawn(v(x, y), v(0, 0), m).unwrap();
    }
    let mut backward = Simulation::new();
    for &(x, y, m) in spawns.iter().rev() {
        backward.spawn(v(x, y), v(0, 0), m).unwrap();
    }
    forward.step();
    backward.step();
    let mut fm: Vec<u64> = forward.bodies().iter().map(|b| b.mass).collect();
    let mut bm: Vec<u64> = backward.bodies().iter().map(|b| b.mass).collect();
    fm.sort_unstable();
    bm.sort_unstable();
    assert_eq!(fm, vec![340, 400]);
    assert_eq!(fm, bm);
}

#[test]
fn merged_body_averages_positions_and_velocities() {
    let mut sim = Simulation::new();
    // two heavy overlapping bodies merge immediately; their pull on each
    // other at distance 10 is far below a unit of acceleration
    sim.spawn(v(0, 0), v(4, 0), 9).unwrap();
    sim.spawn(v(10, 0), v(-2, 6), 9).unwrap();
    sim.step();
    assert_eq!(sim.len(), 1);
    let b = sim.bodies()[0];
    assert_eq!(b.mass, 18);
    // positions moved by the velocities first, then were averaged:
    // (4 + 8) / 2 == 6, (0 + 6) / 2 == 3
    assert_eq!(b.pos, v(6, 3));
    assert_eq!(b.vel, v(1, 3));
}

#[test]
fn coincident_bodies_merge_without_fault() {
    // zero separation is the force law's singular point; it is clamped
    // internally and the tick completes, merging the pair
    let mut sim = Simulation::new();
    sim.spawn(v(42, -7), v(0, 0), 5).unwrap();
    sim.spawn(v(42, -7), v(0, 0), 7).unwrap();
    sim.step();
    assert_eq!(sim.len(), 1);
    let b = sim.bodies()[0];
    assert_eq!(b.mass, 12);
    assert_eq!(b.pos, v(42, -7));
}
