//! Tests for the simulation driver: tick orchestration, boundary wrap,
//! the velocity clamp ordering, order independence and initialization.

use flocking::agent::{Agent, Bounds, Weights};
use flocking::sim::{initialize, Population};
use flocking::vec2::Vec2;

const RADIUS: i64 = 3000;
const MAX_SPEED: i64 = 1500;
const MAX_STEERING: i64 = 70;

fn arena() -> Bounds {
    Bounds { left: -100_000, right: 100_000, bottom: -100_000, top: 100_000 }
}

fn boid(px: i64, py: i64, vx: i64, vy: i64) -> Agent {
    Agent::new(
        Vec2 { x: px, y: py },
        Vec2 { x: vx, y: vy },
        RADIUS,
        MAX_SPEED,
        MAX_STEERING,
    )
}

#[test]
fn empty_population_tick_is_noop() {
    let mut p = Population { agents: Vec::new(), weights: Weights::uniform() };
    p.tick(arena());
    assert_eq!(p.agents.len(), 0);
}

#[test]
fn velocity_clamped_before_position_moves() {
    // An isolated agent with speed 9.0 against a 1.5 cap: the clamp runs
    // first, so the position moves by exactly the clamped velocity.
    let mut a = boid(0, 0, 9000, 0);
    let snap = vec![a];
    a.update(&snap, 0, arena(), &Weights::uniform());
    assert_eq!(a.velocity, Vec2 { x: 1500, y: 0 });
    assert_eq!(a.position, Vec2 { x: 1500, y: 0 });
    assert_eq!(a.acceleration, Vec2 { x: 0, y: 0 });
}

#[test]
fn speed_cap_holds_across_ticks() {
    let bounds = arena();
    let mut p = initialize(40, bounds, RADIUS, MAX_SPEED, MAX_STEERING, 7);
    for _ in 0..5 {
        p.tick(bounds);
    }
    // After the clamp the magnitude is at most max_speed; the tick then
    // adds at most the three weighted steering outputs on top.
    let slack = MAX_SPEED + 3 * MAX_STEERING;
    for a in &p.agents {
        assert!(a.velocity.x * a.velocity.x + a.velocity.y * a.velocity.y <= slack * slack);
        assert_eq!(a.acceleration, Vec2 { x: 0, y: 0 });
    }
}

#[test]
fn wrap_low_edge_resets_to_high_margin() {
    // Placed one sub-unit beyond the low wrap margin (velocity zero, so the
    // integration step does not move it): x resets to right + 2 * radius.
    let bounds = arena();
    let mut a = boid(-106_001, 0, 0, 0);
    let snap = vec![a];
    a.update(&snap, 0, bounds, &Weights::uniform());
    assert_eq!(a.position.x, 106_000);
}

#[test]
fn wrap_high_edge_resets_to_low_margin() {
    let bounds = arena();
    let mut a = boid(106_001, 0, 0, 0);
    let snap = vec![a];
    a.update(&snap, 0, bounds, &Weights::uniform());
    assert_eq!(a.position.x, -106_000);
}

#[test]
fn wrap_margin_uses_own_velocity() {
    // A negative x-velocity narrows the low margin: the same agent placed
    // at left - vx - 2r - 1 integrates to x - 1000 and wraps to
    // right + vx + 2r.
    let bounds = arena();
    let mut a = boid(-105_001, 0, -1000, 0);
    let snap = vec![a];
    a.update(&snap, 0, bounds, &Weights::uniform());
    assert_eq!(a.position.x, 105_000);
}

#[test]
fn wrap_vertical_edges() {
    let bounds = arena();
    let mut low = boid(0, -106_001, 0, 0);
    let snap = vec![low];
    low.update(&snap, 0, bounds, &Weights::uniform());
    assert_eq!(low.position.y, 106_000);
    let mut high = boid(0, 106_001, 0, 0);
    let snap = vec![high];
    high.update(&snap, 0, bounds, &Weights::uniform());
    assert_eq!(high.position.y, -106_000);
}

#[test]
fn tick_results_are_order_independent() {
    // Updating every agent by hand against the frozen snapshot, in reverse
    // order, gives exactly the population that tick produces.
    let bounds = arena();
    let mut p = initialize(6, bounds, RADIUS, MAX_SPEED, MAX_STEERING, 99);
    let w = p.weights;
    let snap = p.agents.clone();
    let mut manual = p.agents.clone();
    for i in (0..manual.len()).rev() {
        let mut a = manual[i];
        a.update(&snap, i, bounds, &w);
        manual[i] = a;
    }
    p.tick(bounds);
    assert_eq!(p.agents, manual);
}

#[test]
fn tick_visits_every_agent_once() {
    // Two agents out of each other's range: both still integrate motion.
    let bounds = arena();
    let a = boid(0, 0, 1000, 0);
    let b = boid(50_000, 0, 0, 1000);
    let mut p = Population { agents: vec![a, b], weights: Weights::uniform() };
    p.tick(bounds);
    assert_eq!(p.agents[0].position, Vec2 { x: 1000, y: 0 });
    assert_eq!(p.agents[1].position, Vec2 { x: 50_000, y: 1000 });
}

#[test]
fn zero_weights_disable_steering() {
    let bounds = arena();
    let a = boid(0, 0, 1000, 0);
    let b = boid(1000, 0, 0, 1000);
    let weights = Weights { alignment: 0, cohesion: 0, separation: 0 };
    let mut p = Population { agents: vec![a, b], weights };
    p.tick(bounds);
    // No steering: velocities only pass through the clamp (already under
    // the cap here), positions move by them.
    assert_eq!(p.agents[0].velocity, Vec2 { x: 1000, y: 0 });
    assert_eq!(p.agents[1].velocity, Vec2 { x: 0, y: 1000 });
    assert_eq!(p.agents[0].position, Vec2 { x: 1000, y: 0 });
    assert_eq!(p.agents[1].position, Vec2 { x: 1000, y: 1000 });
}

#[test]
fn initialize_seeds_agents_inside_bounds() {
    let bounds = arena();
    let p = initialize(64, bounds, RADIUS, MAX_SPEED, MAX_STEERING, 12345);
    assert_eq!(p.agents.len(), 64);
    for a in &p.agents {
        assert!(bounds.left <= a.position.x && a.position.x < bounds.right);
        assert!(bounds.bottom <= a.position.y && a.position.y < bounds.top);
        assert!(-1000 <= a.velocity.x && a.velocity.x <= 1000);
        assert!(-1000 <= a.velocity.y && a.velocity.y <= 1000);
        assert_eq!(a.radius, RADIUS);
        assert_eq!(a.max_speed, MAX_SPEED);
        assert_eq!(a.max_steering, MAX_STEERING);
        assert_eq!(a.acceleration, Vec2 { x: 0, y: 0 });
    }
}

#[test]
fn initialize_is_deterministic_per_seed() {
    let bounds = arena();
    let p = initialize(16, bounds, RADIUS, MAX_SPEED, MAX_STEERING, 42);
    let q = initialize(16, bounds, RADIUS, MAX_SPEED, MAX_STEERING, 42);
    assert_eq!(p.agents, q.agents);
}

#[test]
fn render_snapshot_reports_position_and_radius() {
    let bounds = arena();
    let p = initialize(8, bounds, RADIUS, MAX_SPEED, MAX_STEERING, 3);
    let view = p.snapshot_for_render();
    assert_eq!(view.len(), 8);
    for (i, (pos, r)) in view.iter().enumerate() {
        assert_eq!(*pos, p.agents[i].position);
        assert_eq!(*r, RADIUS);
    }
}
