//! One boid and its per-tick behaviour: the three steering rules
//! (alignment, cohesion, separation) evaluated against a frozen population
//! snapshot, the kinematic update, and the wrap-around boundary rule.
//!
//! Every rule follows the same shape: accumulate over the neighbors within
//! the perception radius (excluding the querying agent itself, by index),
//! average by neighbor count, rescale the average to `max_speed`, subtract
//! the current velocity, and clamp the result to `max_steering`.  Zero
//! neighbors — or an average that cancels to the zero vector, which would
//! otherwise feed a zero vector into `set_magnitude` — yield the zero
//! vector.

use vstd::prelude::*;

use crate::vec2::COORD_LIMIT;
use crate::vec2::MAX_EXTENT;
use crate::vec2::MAX_RADIUS;
use crate::vec2::MAX_WEIGHT;
use crate::vec2::POS_LIMIT;
use crate::vec2::SCALE;
use crate::vec2::VEL_LIMIT;
use crate::vec2::Vec2;
use crate::vec2::div_trunc;
use crate::vec2::div_trunc_i64;
use crate::vec2::isqrt_u64;
use crate::vec2::lemma_coord_bound;
use crate::vec2::lemma_div_trunc_cap;
use crate::vec2::lemma_sqrt_floor_bounds;
use crate::vec2::lemma_square_bound;
use crate::vec2::limit_magnitude;
use crate::vec2::limited_pair;
use crate::vec2::norm_sq;
use crate::vec2::scaled_pair;
use crate::vec2::set_magnitude;
use crate::vec2::sqrt_floor;

verus! {

/// Largest admitted population size.
pub const MAX_AGENTS: u64 = 0x1_0000_0000;

/// Perception radius per unit of agent radius, in `SCALE` fixed-point
/// (6.666 arena units of perception per unit of radius).
pub const PERCEPTION_FACTOR: i64 = 6666;

/// The arena rectangle, supplied externally each tick.
#[derive(Clone, Copy, Debug, PartialEq, Eq, Structural)]
pub struct Bounds {
    pub left: i64,
    pub right: i64,
    pub bottom: i64,
    pub top: i64,
}

impl Bounds {
    /// Coordinates in range and edges ordered.
    pub open spec fn wf(self) -> bool {
        &&& -MAX_EXTENT <= self.left <= MAX_EXTENT
        &&& -MAX_EXTENT <= self.right <= MAX_EXTENT
        &&& -MAX_EXTENT <= self.bottom <= MAX_EXTENT
        &&& -MAX_EXTENT <= self.top <= MAX_EXTENT
        &&& self.left <= self.right
        &&& self.bottom <= self.top
    }
}

/// Per-rule weights in `SCALE` fixed-point (1000 is weight 1.0).
#[derive(Clone, Copy, Debug, PartialEq, Eq, Structural)]
pub struct Weights {
    pub alignment: i64,
    pub cohesion: i64,
    pub separation: i64,
}

impl Weights {
    /// All weights admitted for simulation.
    pub open spec fn wf(self) -> bool {
        &&& 0 <= self.alignment <= MAX_WEIGHT
        &&& 0 <= self.cohesion <= MAX_WEIGHT
        &&& 0 <= self.separation <= MAX_WEIGHT
    }

    /// Every rule at weight 1.0.
    pub fn uniform() -> (w: Weights)
        ensures
            w.alignment == SCALE && w.cohesion == SCALE && w.separation == SCALE,
            w.wf(),
    {
        Weights { alignment: SCALE, cohesion: SCALE, separation: SCALE }
    }
}

/// One boid: kinematic state plus its sensing and steering configuration.
#[derive(Clone, Copy, Debug, PartialEq, Eq, Structural)]
pub struct Agent {
    pub position: Vec2,
    pub velocity: Vec2,
    pub acceleration: Vec2,
    pub perception: i64,
    pub max_speed: i64,
    pub max_steering: i64,
    pub radius: i64,
}

/// Squared Euclidean distance between two points.
pub open spec fn dist_sq(p: Vec2, q: Vec2) -> int {
    norm_sq(p.x - q.x, p.y - q.y)
}

impl Agent {
    /// All coordinates and configuration values within the ranges that the
    /// simulation keeps invariant across ticks.
    pub open spec fn wf(self) -> bool {
        &&& self.position.in_box(POS_LIMIT as int)
        &&& self.velocity.in_box(VEL_LIMIT as int)
        &&& self.acceleration.in_box(VEL_LIMIT as int)
        &&& 0 <= self.perception <= MAX_EXTENT
        &&& 0 <= self.max_speed <= MAX_EXTENT
        &&& 0 <= self.max_steering <= MAX_EXTENT
        &&& 0 <= self.radius <= MAX_RADIUS
    }

    /// The per-tick force accumulator is empty.
    pub open spec fn accel_clear(self) -> bool {
        self.acceleration.x == 0 && self.acceleration.y == 0
    }

    /// Builds an agent at `position` with `velocity`, deriving the
    /// perception radius from the agent radius.
    pub fn new(
        position: Vec2,
        velocity: Vec2,
        radius: i64,
        max_speed: i64,
        max_steering: i64,
    ) -> (a: Agent)
        requires
            position.in_box(POS_LIMIT as int),
            velocity.in_box(VEL_LIMIT as int),
            0 <= radius <= MAX_RADIUS,
            0 <= max_speed <= MAX_EXTENT,
            0 <= max_steering <= MAX_EXTENT,
        ensures
            a.wf(),
            a.accel_clear(),
            a.position == position,
            a.velocity == velocity,
            a.radius == radius,
            a.max_speed == max_speed,
            a.max_steering == max_steering,
            a.perception == div_trunc(radius * PERCEPTION_FACTOR, SCALE as int),
    {
        proof {
            crate::vec2::lemma_div_trunc_facts(radius * PERCEPTION_FACTOR, SCALE as int);
        }
        let perception = div_trunc_i64(radius * PERCEPTION_FACTOR, SCALE);
        Agent {
            position,
            velocity,
            acceleration: Vec2::zero(),
            perception,
            max_speed,
            max_steering,
            radius,
        }
    }
}

/// Every agent of a snapshot is well-formed.
pub open spec fn snap_wf(snap: Seq<Agent>) -> bool {
    forall|j: int| 0 <= j < snap.len() ==> (#[trigger] snap[j]).wf()
}

/// Index `j` holds an agent other than the querying one (standing at index
/// `me`) whose distance to `a` is strictly below `radius`.  Identity is the
/// index, not the value: two agents with identical state stay distinct.
pub open spec fn within_radius(snap: Seq<Agent>, a: Agent, me: int, j: int, radius: int) -> bool {
    j != me && dist_sq(a.position, snap[j].position) < radius * radius
}

/// Index `j` holds a neighbor of the querying agent `a`, which stands at
/// index `me`: another agent strictly within `a`'s perception radius.
pub open spec fn is_neighbor(snap: Seq<Agent>, a: Agent, me: int, j: int) -> bool {
    within_radius(snap, a, me, j, a.perception as int)
}

/// Number of neighbors among the first `n` snapshot entries.
pub open spec fn neighbor_count(snap: Seq<Agent>, a: Agent, me: int, n: int) -> int
    decreases n,
{
    if n <= 0 {
        0
    } else {
        neighbor_count(snap, a, me, n - 1) + if is_neighbor(snap, a, me, n - 1) {
            1int
        } else {
            0int
        }
    }
}

/// Sum of the neighbors' velocities among the first `n` snapshot entries.
pub open spec fn velocity_sum(snap: Seq<Agent>, a: Agent, me: int, n: int) -> (int, int)
    decreases n,
{
    if n <= 0 {
        (0int, 0int)
    } else {
        let s = velocity_sum(snap, a, me, n - 1);
        if is_neighbor(snap, a, me, n - 1) {
            (s.0 + snap[n - 1].velocity.x, s.1 + snap[n - 1].velocity.y)
        } else {
            s
        }
    }
}

/// Sum of the neighbors' positions among the first `n` snapshot entries.
pub open spec fn position_sum(snap: Seq<Agent>, a: Agent, me: int, n: int) -> (int, int)
    decreases n,
{
    if n <= 0 {
        (0int, 0int)
    } else {
        let s = position_sum(snap, a, me, n - 1);
        if is_neighbor(snap, a, me, n - 1) {
            (s.0 + snap[n - 1].position.x, s.1 + snap[n - 1].position.y)
        } else {
            s
        }
    }
}

/// One neighbor's repulsion contribution: the offset away from the
/// neighbor, rescaled by `SCALE / distance` into a unit-length direction
/// (in fixed point) weighted inversely by distance.  Two agents at the very
/// same point would divide by zero; their contribution is zero instead.
pub open spec fn separation_term(a: Agent, other: Agent) -> (int, int) {
    let dx = a.position.x - other.position.x;
    let dy = a.position.y - other.position.y;
    let dsq = norm_sq(dx, dy);
    if dsq == 0 {
        (0int, 0int)
    } else {
        let d = sqrt_floor(dsq as nat) as int;
        (div_trunc(dx * SCALE, d), div_trunc(dy * SCALE, d))
    }
}

/// Sum of the repulsion contributions among the first `n` snapshot entries.
pub open spec fn separation_sum(snap: Seq<Agent>, a: Agent, me: int, n: int) -> (int, int)
    decreases n,
{
    if n <= 0 {
        (0int, 0int)
    } else {
        let s = separation_sum(snap, a, me, n - 1);
        if is_neighbor(snap, a, me, n - 1) {
            let t = separation_term(a, snap[n - 1]);
            (s.0 + t.0, s.1 + t.1)
        } else {
            s
        }
    }
}

/// The shared tail of every rule: rescale the accumulated direction to
/// `max_speed` (the desired velocity), subtract the current velocity (the
/// steering error), and clamp to `max_steering`.  A zero direction yields
/// the zero vector: rescaling a zero vector is undefined.
pub open spec fn steer_toward(dx: int, dy: int, a: Agent) -> (int, int) {
    if dx == 0 && dy == 0 {
        (0int, 0int)
    } else {
        let s = scaled_pair(dx, dy, a.max_speed as int);
        limited_pair(s.0 - a.velocity.x, s.1 - a.velocity.y, a.max_steering as int)
    }
}

/// The alignment rule's output for agent `a` at index `me`.
pub open spec fn align_spec(snap: Seq<Agent>, a: Agent, me: int) -> (int, int) {
    let n = snap.len() as int;
    let cnt = neighbor_count(snap, a, me, n);
    if cnt <= 0 {
        (0int, 0int)
    } else {
        let s = velocity_sum(snap, a, me, n);
        steer_toward(div_trunc(s.0, cnt), div_trunc(s.1, cnt), a)
    }
}

/// The cohesion rule's output for agent `a` at index `me`: steer toward the
/// neighbors' centroid.
pub open spec fn cohesion_spec(snap: Seq<Agent>, a: Agent, me: int) -> (int, int) {
    let n = snap.len() as int;
    let cnt = neighbor_count(snap, a, me, n);
    if cnt <= 0 {
        (0int, 0int)
    } else {
        let s = position_sum(snap, a, me, n);
        steer_toward(
            div_trunc(s.0, cnt) - a.position.x,
            div_trunc(s.1, cnt) - a.position.y,
            a,
        )
    }
}

/// The separation rule's output for agent `a` at index `me`: steer along
/// the average repulsion direction.
pub open spec fn separation_spec(snap: Seq<Agent>, a: Agent, me: int) -> (int, int) {
    let n = snap.len() as int;
    let cnt = neighbor_count(snap, a, me, n);
    if cnt <= 0 {
        (0int, 0int)
    } else {
        let s = separation_sum(snap, a, me, n);
        steer_toward(div_trunc(s.0, cnt), div_trunc(s.1, cnt), a)
    }
}

/// A rule output scaled by a `SCALE` fixed-point weight.
pub open spec fn weighted_pair(p: (int, int), w: int) -> (int, int) {
    (div_trunc(p.0 * w, SCALE as int), div_trunc(p.1 * w, SCALE as int))
}

/// What one rule phase adds to the acceleration accumulator: the three
/// weighted rule outputs, summed.
pub open spec fn flock_accel(snap: Seq<Agent>, a: Agent, me: int, w: Weights) -> (int, int) {
    let al = weighted_pair(align_spec(snap, a, me), w.alignment as int);
    let co = weighted_pair(cohesion_spec(snap, a, me), w.cohesion as int);
    let se = weighted_pair(separation_spec(snap, a, me), w.separation as int);
    (al.0 + co.0 + se.0, al.1 + co.1 + se.1)
}

/// A coordinate wrapped around one axis of the arena.  The margin is the
/// agent's own velocity component plus twice its radius, so faster agents
/// wrap earlier; a coordinate beyond the low edge's margin reappears at the
/// high edge's margin, and symmetrically.
pub open spec fn wrap_coord(p: int, v: int, r: int, lo: int, hi: int) -> int {
    let m = v + 2 * r;
    let p1 = if p < lo - m {
        hi + m
    } else {
        p
    };
    if p1 > hi + m {
        lo - m
    } else {
        p1
    }
}

/// The whole per-tick step for one agent `a` standing at index `me` of the
/// snapshot `snap`: accumulate the weighted rules, clamp the velocity to
/// `max_speed` *before* adding the new acceleration — the cap applies to
/// the pre-tick velocity, and this tick's acceleration rides on top of it
/// unclamped, a deliberate ordering that the dynamics depend on — then
/// move by the clamped velocity, wrap, and clear the accumulator.
pub open spec fn update_agent_spec(a: Agent, snap: Seq<Agent>, me: int, b: Bounds, w: Weights) -> Agent {
    let acc = flock_accel(snap, a, me, w);
    let v1 = limited_pair(a.velocity.x as int, a.velocity.y as int, a.max_speed as int);
    let px = a.position.x + v1.0;
    let py = a.position.y + v1.1;
    let v2x = v1.0 + acc.0;
    let v2y = v1.1 + acc.1;
    Agent {
        position: Vec2 {
            x: wrap_coord(px, v2x, a.radius as int, b.left as int, b.right as int) as i64,
            y: wrap_coord(py, v2y, a.radius as int, b.bottom as int, b.top as int) as i64,
        },
        velocity: Vec2 { x: v2x as i64, y: v2y as i64 },
        acceleration: Vec2 { x: 0, y: 0 },
        ..a
    }
}

/// A non-zero coordinate pair has a positive squared norm.
pub proof fn lemma_norm_sq_pos(x: int, y: int)
    by (nonlinear_arith)
    requires
        x != 0 || y != 0,
    ensures
        norm_sq(x, y) > 0,
{
}

/// A coordinate's square never exceeds the squared norm.
pub proof fn lemma_abs_le_dist(dx: int, dy: int, d: int)
    by (nonlinear_arith)
    requires
        norm_sq(dx, dy) < (d + 1) * (d + 1),
        0 <= d,
    ensures
        -d <= dx <= d,
        -d <= dy <= d,
{
}

impl Agent {
    /// The neighbor query: the indices of the agents strictly within
    /// `radius` of this agent, excluding the querying agent itself, in
    /// increasing index order — exactly the indices satisfying
    /// `within_radius`.  Recomputed fresh on every call; nothing is cached
    /// across ticks.
    pub fn neighbors_within(&self, agents: &Vec<Agent>, me: usize, radius: i64) -> (v: Vec<
        usize,
    >)
        requires
            self.wf(),
            snap_wf(agents@),
            0 <= radius <= MAX_EXTENT,
        ensures
            forall|k: int|
                0 <= k < v@.len() ==> 0 <= #[trigger] v@[k] < agents@.len() && within_radius(
                    agents@,
                    *self,
                    me as int,
                    v@[k] as int,
                    radius as int,
                ),
            forall|k1: int, k2: int| 0 <= k1 < k2 < v@.len() ==> v@[k1] < v@[k2],
            forall|j: int|
                0 <= j < agents@.len() && within_radius(agents@, *self, me as int, j, radius as int)
                    ==> v@.contains(j as usize),
    {
        let n = agents.len();
        let mut v: Vec<usize> = Vec::new();
        let mut j: usize = 0;
        while j < n
            invariant
                n == agents@.len(),
                j <= n,
                self.wf(),
                snap_wf(agents@),
                0 <= radius <= MAX_EXTENT,
                forall|k: int|
                    0 <= k < v@.len() ==> 0 <= #[trigger] v@[k] < j && within_radius(
                        agents@,
                        *self,
                        me as int,
                        v@[k] as int,
                        radius as int,
                    ),
                forall|k1: int, k2: int| 0 <= k1 < k2 < v@.len() ==> v@[k1] < v@[k2],
                forall|i: int|
                    0 <= i < j && within_radius(agents@, *self, me as int, i, radius as int)
                        ==> v@.contains(i as usize),
            decreases n - j,
        {
            let other = agents[j];
            proof {
                lemma_square_bound(self.position.x - other.position.x, COORD_LIMIT as int);
                lemma_square_bound(self.position.y - other.position.y, COORD_LIMIT as int);
                lemma_square_bound(radius as int, MAX_EXTENT as int);
            }
            let dx = self.position.x - other.position.x;
            let dy = self.position.y - other.position.y;
            let dsq = dx * dx + dy * dy;
            if j != me && dsq < radius * radius {
                let ghost v_old = v@;
                v.push(j);
                proof {
                    assert forall|i: int|
                        0 <= i < j + 1 && within_radius(
                            agents@,
                            *self,
                            me as int,
                            i,
                            radius as int,
                        ) implies v@.contains(i as usize) by {
                        if i < j {
                            let k = choose|k: int| 0 <= k < v_old.len() && v_old[k] == i as usize;
                            assert(v@[k] == i as usize);
                        } else {
                            assert(v@[v@.len() - 1] == j);
                        }
                    }
                }
            }
            j = j + 1;
        }
        v
    }

    /// Rescale `dir` to the desired speed, subtract the current velocity
    /// and clamp: the executable form of `steer_toward`.
    fn steer_toward_dir(&self, dir: Vec2) -> (r: Vec2)
        requires
            self.wf(),
            dir.in_box(COORD_LIMIT as int),
        ensures
            (r.x as int, r.y as int) == steer_toward(dir.x as int, dir.y as int, *self),
            norm_sq(r.x as int, r.y as int) <= self.max_steering * self.max_steering,
            r.in_box(self.max_steering as int),
    {
        if dir.x == 0 && dir.y == 0 {
            proof {
                lemma_square_bound(self.max_steering as int, MAX_EXTENT as int);
            }
            Vec2::zero()
        } else {
            proof {
                lemma_norm_sq_pos(dir.x as int, dir.y as int);
            }
            let desired = set_magnitude(dir, self.max_speed);
            let steer = Vec2 { x: desired.x - self.velocity.x, y: desired.y - self.velocity.y };
            let r = limit_magnitude(steer, self.max_steering);
            proof {
                lemma_coord_bound(r.x as int, r.y as int, self.max_steering as int);
            }
            r
        }
    }

    /// The alignment rule: steer toward the neighbors' average velocity.
    /// With no neighbors the output is the zero vector; the output's
    /// magnitude never exceeds `max_steering`.
    pub fn align_velocities(&self, agents: &Vec<Agent>, me: usize) -> (r: Vec2)
        requires
            self.wf(),
            snap_wf(agents@),
            agents@.len() <= MAX_AGENTS,
        ensures
            (r.x as int, r.y as int) == align_spec(agents@, *self, me as int),
            norm_sq(r.x as int, r.y as int) <= self.max_steering * self.max_steering,
            r.in_box(self.max_steering as int),
    {
        let n = agents.len();
        let mut steering = Vec2::zero();
        let mut total: u64 = 0;
        let mut j: usize = 0;
        while j < n
            invariant
                n == agents@.len(),
                n <= MAX_AGENTS,
                j <= n,
                self.wf(),
                snap_wf(agents@),
                total == neighbor_count(agents@, *self, me as int, j as int),
                total <= j,
                (steering.x as int, steering.y as int) == velocity_sum(
                    agents@,
                    *self,
                    me as int,
                    j as int,
                ),
                steering.in_box(total as int * VEL_LIMIT as int),
            decreases n - j,
        {
            let other = agents[j];
            proof {
                lemma_square_bound(self.position.x - other.position.x, COORD_LIMIT as int);
                lemma_square_bound(self.position.y - other.position.y, COORD_LIMIT as int);
                lemma_square_bound(self.perception as int, MAX_EXTENT as int);
            }
            let dx = self.position.x - other.position.x;
            let dy = self.position.y - other.position.y;
            let dsq = dx * dx + dy * dy;
            if j != me && dsq < self.perception * self.perception {
                steering = Vec2 { x: steering.x + other.velocity.x, y: steering.y + other.velocity.y };
                total = total + 1;
            }
            j = j + 1;
        }
        if total > 0 {
            proof {
                lemma_div_trunc_cap(steering.x as int, total as int, VEL_LIMIT as int);
                lemma_div_trunc_cap(steering.y as int, total as int, VEL_LIMIT as int);
            }
            let avg = Vec2 {
                x: div_trunc_i64(steering.x, total as i64),
                y: div_trunc_i64(steering.y, total as i64),
            };
            self.steer_toward_dir(avg)
        } else {
            proof {
                lemma_square_bound(self.max_steering as int, MAX_EXTENT as int);
            }
            Vec2::zero()
        }
    }

    /// The cohesion rule: steer toward the neighbors' centroid.  With no
    /// neighbors the output is the zero vector; the output's magnitude
    /// never exceeds `max_steering`.
    pub fn cohesion(&self, agents: &Vec<Agent>, me: usize) -> (r: Vec2)
        requires
            self.wf(),
            snap_wf(agents@),
            agents@.len() <= MAX_AGENTS,
        ensures
            (r.x as int, r.y as int) == cohesion_spec(agents@, *self, me as int),
            norm_sq(r.x as int, r.y as int) <= self.max_steering * self.max_steering,
            r.in_box(self.max_steering as int),
    {
        let n = agents.len();
        let mut steering = Vec2::zero();
        let mut total: u64 = 0;
        let mut j: usize = 0;
        while j < n
            invariant
                n == agents@.len(),
                n <= MAX_AGENTS,
                j <= n,
                self.wf(),
                snap_wf(agents@),
                total == neighbor_count(agents@, *self, me as int, j as int),
                total <= j,
                (steering.x as int, steering.y as int) == position_sum(
                    agents@,
                    *self,
                    me as int,
                    j as int,
                ),
                steering.in_box(total as int * POS_LIMIT as int),
            decreases n - j,
        {
            let other = agents[j];
            proof {
                lemma_square_bound(self.position.x - other.position.x, COORD_LIMIT as int);
                lemma_square_bound(self.position.y - other.position.y, COORD_LIMIT as int);
                lemma_square_bound(self.perception as int, MAX_EXTENT as int);
            }
            let dx = self.position.x - other.position.x;
            let dy = self.position.y - other.position.y;
            let dsq = dx * dx + dy * dy;
            if j != me && dsq < self.perception * self.perception {
                steering = Vec2 { x: steering.x + other.position.x, y: steering.y + other.position.y };
                total = total + 1;
            }
            j = j + 1;
        }
        if total > 0 {
            proof {
                lemma_div_trunc_cap(steering.x as int, total as int, POS_LIMIT as int);
                lemma_div_trunc_cap(steering.y as int, total as int, POS_LIMIT as int);
            }
            let avg = Vec2 {
                x: div_trunc_i64(steering.x, total as i64),
                y: div_trunc_i64(steering.y, total as i64),
            };
            let dir = Vec2 { x: avg.x - self.position.x, y: avg.y - self.position.y };
            self.steer_toward_dir(dir)
        } else {
            proof {
                lemma_square_bound(self.max_steering as int, MAX_EXTENT as int);
            }
            Vec2::zero()
        }
    }

    /// The separation rule: steer along the average of the per-neighbor
    /// repulsion directions.  With no neighbors the output is the zero
    /// vector; the output's magnitude never exceeds `max_steering`.
    pub fn separation(&self, agents: &Vec<Agent>, me: usize) -> (r: Vec2)
        requires
            self.wf(),
            snap_wf(agents@),
            agents@.len() <= MAX_AGENTS,
        ensures
            (r.x as int, r.y as int) == separation_spec(agents@, *self, me as int),
            norm_sq(r.x as int, r.y as int) <= self.max_steering * self.max_steering,
            r.in_box(self.max_steering as int),
    {
        let n = agents.len();
        let mut steering = Vec2::zero();
        let mut total: u64 = 0;
        let mut j: usize = 0;
        while j < n
            invariant
                n == agents@.len(),
                n <= MAX_AGENTS,
                j <= n,
                self.wf(),
                snap_wf(agents@),
                total == neighbor_count(agents@, *self, me as int, j as int),
                total <= j,
                (steering.x as int, steering.y as int) == separation_sum(
                    agents@,
                    *self,
                    me as int,
                    j as int,
                ),
                steering.in_box(total as int * SCALE as int),
            decreases n - j,
        {
            let other = agents[j];
            proof {
                lemma_square_bound(self.position.x - other.position.x, COORD_LIMIT as int);
                lemma_square_bound(self.position.y - other.position.y, COORD_LIMIT as int);
                lemma_square_bound(self.perception as int, MAX_EXTENT as int);
            }
            let dx = self.position.x - other.position.x;
            let dy = self.position.y - other.position.y;
            let dsq = dx * dx + dy * dy;
            if j != me && dsq < self.perception * self.perception {
                if dsq > 0 {
                    let d = isqrt_u64(dsq as u64) as i64;
                    proof {
                        lemma_sqrt_floor_bounds(dsq as nat);
                        lemma_abs_le_dist(dx as int, dy as int, d as int);
                        lemma_div_trunc_cap(dx * SCALE, d as int, SCALE as int);
                        lemma_div_trunc_cap(dy * SCALE, d as int, SCALE as int);
                    }
                    let tx = div_trunc_i64(dx * SCALE, d);
                    let ty = div_trunc_i64(dy * SCALE, d);
                    steering = Vec2 { x: steering.x + tx, y: steering.y + ty };
                }
                total = total + 1;
            }
            j = j + 1;
        }
        if total > 0 {
            proof {
                lemma_div_trunc_cap(steering.x as int, total as int, SCALE as int);
                lemma_div_trunc_cap(steering.y as int, total as int, SCALE as int);
            }
            let avg = Vec2 {
                x: div_trunc_i64(steering.x, total as i64),
                y: div_trunc_i64(steering.y, total as i64),
            };
            self.steer_toward_dir(avg)
        } else {
            proof {
                lemma_square_bound(self.max_steering as int, MAX_EXTENT as int);
            }
            Vec2::zero()
        }
    }

    /// Runs the three rules against the snapshot and adds their weighted
    /// sum into the acceleration accumulator.  Each weighted term stays
    /// within `4 * max_steering` per coordinate (the weight cap is 4.0).
    pub fn flock(&mut self, agents: &Vec<Agent>, me: usize, weights: &Weights)
        requires
            old(self).wf(),
            snap_wf(agents@),
            agents@.len() <= MAX_AGENTS,
            weights.wf(),
        ensures
            final(self).position == old(self).position,
            final(self).velocity == old(self).velocity,
            final(self).perception == old(self).perception,
            final(self).max_speed == old(self).max_speed,
            final(self).max_steering == old(self).max_steering,
            final(self).radius == old(self).radius,
            final(self).acceleration.x as int == old(self).acceleration.x + flock_accel(
                agents@,
                *old(self),
                me as int,
                *weights,
            ).0,
            final(self).acceleration.y as int == old(self).acceleration.y + flock_accel(
                agents@,
                *old(self),
                me as int,
                *weights,
            ).1,
            final(self).acceleration.x - old(self).acceleration.x <= 12 * old(self).max_steering,
            final(self).acceleration.x - old(self).acceleration.x >= -12 * old(
                self,
            ).max_steering,
            final(self).acceleration.y - old(self).acceleration.y <= 12 * old(self).max_steering,
            final(self).acceleration.y - old(self).acceleration.y >= -12 * old(
                self,
            ).max_steering,
    {
        let me_agent = *self;
        let al = me_agent.align_velocities(agents, me);
        let co = me_agent.cohesion(agents, me);
        let se = me_agent.separation(agents, me);
        let wal = weighted_dir(al, weights.alignment, self.max_steering);
        let wco = weighted_dir(co, weights.cohesion, self.max_steering);
        let wse = weighted_dir(se, weights.separation, self.max_steering);
        self.acceleration = Vec2 {
            x: self.acceleration.x + wal.x + wco.x + wse.x,
            y: self.acceleration.y + wal.y + wco.y + wse.y,
        };
    }

    /// Toroidal boundary wrap with a per-axis margin of the agent's own
    /// velocity component plus twice its radius.
    pub fn wrap_around_edges(&mut self, bounds: Bounds)
        requires
            bounds.wf(),
            old(self).position.in_box(COORD_LIMIT as int),
            old(self).velocity.in_box(VEL_LIMIT as int),
            0 <= old(self).radius <= MAX_RADIUS,
        ensures
            final(self).position.x as int == wrap_coord(
                old(self).position.x as int,
                old(self).velocity.x as int,
                old(self).radius as int,
                bounds.left as int,
                bounds.right as int,
            ),
            final(self).position.y as int == wrap_coord(
                old(self).position.y as int,
                old(self).velocity.y as int,
                old(self).radius as int,
                bounds.bottom as int,
                bounds.top as int,
            ),
            final(self).position.in_box(MAX_EXTENT as int + VEL_LIMIT as int + 2 * MAX_RADIUS as int),
            final(self).velocity == old(self).velocity,
            final(self).acceleration == old(self).acceleration,
            final(self).perception == old(self).perception,
            final(self).max_speed == old(self).max_speed,
            final(self).max_steering == old(self).max_steering,
            final(self).radius == old(self).radius,
    {
        let mx = self.velocity.x + 2 * self.radius;
        let my = self.velocity.y + 2 * self.radius;
        if self.position.x < bounds.left - mx {
            self.position = Vec2 { x: bounds.right + mx, ..self.position };
        }
        if self.position.x > bounds.right + mx {
            self.position = Vec2 { x: bounds.left - mx, ..self.position };
        }
        if self.position.y < bounds.bottom - my {
            self.position = Vec2 { y: bounds.top + my, ..self.position };
        }
        if self.position.y > bounds.top + my {
            self.position = Vec2 { y: bounds.bottom - my, ..self.position };
        }
    }

    /// One whole tick step for this agent, reading neighbors from the
    /// frozen snapshot: run the rules, clamp the velocity to `max_speed`
    /// using its pre-tick magnitude, integrate the position, add this
    /// tick's acceleration unclamped — a deliberate ordering; clamping
    /// after the addition would change the observable dynamics — wrap
    /// around the arena edges, and clear the accumulator.
    pub fn update(&mut self, agents: &Vec<Agent>, me: usize, bounds: Bounds, weights: &Weights)
        requires
            old(self).wf(),
            old(self).accel_clear(),
            snap_wf(agents@),
            agents@.len() <= MAX_AGENTS,
            bounds.wf(),
            weights.wf(),
        ensures
            *final(self) == update_agent_spec(*old(self), agents@, me as int, bounds, *weights),
            final(self).wf(),
            final(self).accel_clear(),
    {
        self.flock(agents, me, weights);
        let v1 = limit_magnitude(self.velocity, self.max_speed);
        proof {
            lemma_coord_bound(v1.x as int, v1.y as int, self.max_speed as int);
        }
        self.velocity = v1;
        self.position = Vec2 {
            x: self.position.x + self.velocity.x,
            y: self.position.y + self.velocity.y,
        };
        self.velocity = Vec2 {
            x: self.velocity.x + self.acceleration.x,
            y: self.velocity.y + self.acceleration.y,
        };
        self.wrap_around_edges(bounds);
        self.acceleration = Vec2::zero();
    }
}

/// One rule output scaled by its fixed-point weight; the result stays
/// within four times the output's own bound.
fn weighted_dir(v: Vec2, w: i64, cap: i64) -> (r: Vec2)
    requires
        v.in_box(cap as int),
        0 <= cap <= MAX_EXTENT,
        0 <= w <= MAX_WEIGHT,
    ensures
        (r.x as int, r.y as int) == weighted_pair((v.x as int, v.y as int), w as int),
        r.in_box(4 * cap as int),
{
    proof {
        assert(-(1000 * (4 * cap)) <= v.x * w <= 1000 * (4 * cap)) by (nonlinear_arith)
            requires
                -cap <= v.x <= cap,
                0 <= w <= 4000,
                0 <= cap,
        ;
        assert(-(1000 * (4 * cap)) <= v.y * w <= 1000 * (4 * cap)) by (nonlinear_arith)
            requires
                -cap <= v.y <= cap,
                0 <= w <= 4000,
                0 <= cap,
        ;
        lemma_div_trunc_cap(v.x as int * w as int, SCALE as int, 4 * cap as int);
        lemma_div_trunc_cap(v.y as int * w as int, SCALE as int, 4 * cap as int);
    }
    Vec2 { x: div_trunc_i64(v.x * w, SCALE), y: div_trunc_i64(v.y * w, SCALE) }
}

} // verus!
