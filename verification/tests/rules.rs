//! Scenario tests for the three steering rules, with exact expected values
//! worked out in fixed point (SCALE = 1000 sub-units per unit).
//!
//! The shared configuration: radius 3.0 (perception 3.0 * 6.666 = 19.998),
//! max speed 1.5, max steering 0.07.

use flocking::agent::{Agent, Weights};
use flocking::vec2::Vec2;

const RADIUS: i64 = 3000;
const MAX_SPEED: i64 = 1500;
const MAX_STEERING: i64 = 70;

fn boid(px: i64, py: i64, vx: i64, vy: i64) -> Agent {
    Agent::new(
        Vec2 { x: px, y: py },
        Vec2 { x: vx, y: vy },
        RADIUS,
        MAX_SPEED,
        MAX_STEERING,
    )
}

#[test]
fn perception_radius_derived_from_agent_radius() {
    let a = boid(0, 0, 0, 0);
    assert_eq!(a.perception, 19998); // 3000 * 6666 / 1000
}

#[test]
fn isolated_agent_all_rules_zero() {
    // A lone agent: the snapshot holds only itself, which is excluded by
    // identity, so every rule returns the zero vector.
    let a = boid(42, -17, 900, -300);
    let snap = vec![a];
    assert_eq!(a.align_velocities(&snap, 0), Vec2 { x: 0, y: 0 });
    assert_eq!(a.cohesion(&snap, 0), Vec2 { x: 0, y: 0 });
    assert_eq!(a.separation(&snap, 0), Vec2 { x: 0, y: 0 });
}

#[test]
fn out_of_range_agent_is_no_neighbor() {
    // 20.000 units apart, perception 19.998: strictly-less inclusion fails.
    let a = boid(0, 0, 900, 0);
    let b = boid(20000, 0, 0, 900);
    let snap = vec![a, b];
    assert_eq!(a.align_velocities(&snap, 0), Vec2 { x: 0, y: 0 });
    assert_eq!(a.cohesion(&snap, 0), Vec2 { x: 0, y: 0 });
    assert_eq!(a.separation(&snap, 0), Vec2 { x: 0, y: 0 });
}

#[test]
fn neighbor_query_excludes_self_and_far_agents() {
    // Distances from agent 0: itself (excluded), 1.0, 20.0, 0 (a value
    // twin at the same point, still a distinct identity).
    let a = boid(0, 0, 0, 0);
    let near = boid(1000, 0, 0, 0);
    let far = boid(20_000, 0, 0, 0);
    let twin = boid(0, 0, 0, 0);
    let snap = vec![a, near, far, twin];
    assert_eq!(a.neighbors_within(&snap, 0, a.perception), vec![1, 3]);
    // A radius of 1.0 excludes the agent exactly one unit away: the
    // inclusion test is strict.
    assert_eq!(a.neighbors_within(&snap, 0, 1000), vec![3]);
    assert_eq!(a.neighbors_within(&snap, 0, 1001), vec![1, 3]);
    // The twin queries symmetrically, excluding itself.
    assert_eq!(twin.neighbors_within(&snap, 3, 1001), vec![0, 1]);
}

#[test]
fn two_agent_alignment_steers_toward_average() {
    // Two agents one unit apart, velocities (1, 0) and (0, 1).  Each one's
    // alignment output is the other's velocity rescaled to max speed, minus
    // its own velocity, clamped to max steering:
    //   agent 0: desired (0, 1500), steering (-1000, 1500), clamped by
    //   ceil(sqrt(3250000)) = 1803 to (-1000*70/1803, 1500*70/1803).
    let a = boid(0, 0, 1000, 0);
    let b = boid(1000, 0, 0, 1000);
    let snap = vec![a, b];
    let out_a = a.align_velocities(&snap, 0);
    let out_b = b.align_velocities(&snap, 1);
    assert_eq!(out_a, Vec2 { x: -38, y: 58 });
    assert_eq!(out_b, Vec2 { x: 58, y: -38 });
    // The direction matches the sign pattern of (average - own velocity):
    // (0.5, 0.5) - (1, 0) points (-, +); (0.5, 0.5) - (0, 1) points (+, -).
    assert!(out_a.x < 0 && out_a.y > 0);
    assert!(out_b.x > 0 && out_b.y < 0);
}

#[test]
fn alignment_output_capped_at_max_steering() {
    let a = boid(0, 0, 1000, 0);
    let b = boid(1000, 0, 0, 1000);
    let snap = vec![a, b];
    let r = a.align_velocities(&snap, 0);
    assert!(r.x * r.x + r.y * r.y <= MAX_STEERING * MAX_STEERING);
}

#[test]
fn cohesion_steers_toward_centroid() {
    // One resting agent, one neighbor a unit to the right: the centroid
    // direction (1000, 0) is rescaled to max speed (1500, 0) and clamped to
    // max steering, giving exactly (70, 0).
    let a = boid(0, 0, 0, 0);
    let b = boid(1000, 0, 0, 0);
    let snap = vec![a, b];
    assert_eq!(a.cohesion(&snap, 0), Vec2 { x: 70, y: 0 });
    assert_eq!(b.cohesion(&snap, 1), Vec2 { x: -70, y: 0 });
}

#[test]
fn separation_repels_directly_away() {
    // Agent B half a unit to the right of resting agent A: A's repulsion
    // direction (-1000, 0) is rescaled to (-1500, 0) and clamped to
    // (-70, 0); its dot product with (A - B) = (-500, 0) is positive.
    let a = boid(0, 0, 0, 0);
    let b = boid(500, 0, 0, 0);
    let snap = vec![a, b];
    let out = a.separation(&snap, 0);
    assert_eq!(out, Vec2 { x: -70, y: 0 });
    let dx = a.position.x - b.position.x;
    let dy = a.position.y - b.position.y;
    assert!(out.x * dx + out.y * dy > 0);
}

#[test]
fn separation_diagonal_repulsion_points_away() {
    let a = boid(0, 0, 0, 0);
    let b = boid(300, -400, 0, 0);
    let snap = vec![a, b];
    let out = a.separation(&snap, 0);
    let dx = a.position.x - b.position.x;
    let dy = a.position.y - b.position.y;
    assert!(out.x * dx + out.y * dy > 0);
    assert!(out.x < 0 && out.y > 0);
}

#[test]
fn separation_coincident_agents_contribute_zero() {
    // Two distinct agents at the very same point: the distance guard drops
    // the contribution instead of dividing by zero, and the zero average
    // yields the zero vector.
    let a = boid(7, 7, 0, 0);
    let b = boid(7, 7, 0, 0);
    let snap = vec![a, b];
    assert_eq!(a.separation(&snap, 0), Vec2 { x: 0, y: 0 });
    assert_eq!(b.separation(&snap, 1), Vec2 { x: 0, y: 0 });
}

#[test]
fn zero_sum_average_yields_zero_not_blowup() {
    // Two neighbors with opposite velocities: the alignment average is the
    // zero vector, which must yield zero output rather than a rescale of
    // the zero vector.
    let a = boid(0, 0, 500, 0);
    let b = boid(1000, 0, 900, 0);
    let c = boid(-1000, 0, -900, 0);
    let snap = vec![a, b, c];
    assert_eq!(a.align_velocities(&snap, 0), Vec2 { x: 0, y: 0 });
}

#[test]
fn flock_accumulates_weighted_rules() {
    let a = boid(0, 0, 1000, 0);
    let b = boid(1000, 0, 0, 1000);
    let snap = vec![a, b];
    let align = a.align_velocities(&snap, 0);
    // Alignment only, at weight 1.0: the accumulator holds exactly the
    // alignment output.
    let mut only_align = a;
    only_align.flock(&snap, 0, &Weights { alignment: 1000, cohesion: 0, separation: 0 });
    assert_eq!(only_align.acceleration, align);
    // Doubling the weight doubles the (truncation-exact) contribution.
    let mut doubled = a;
    doubled.flock(&snap, 0, &Weights { alignment: 2000, cohesion: 0, separation: 0 });
    assert_eq!(doubled.acceleration, Vec2 { x: 2 * align.x, y: 2 * align.y });
}
