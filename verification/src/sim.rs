//! The population manager and the simulation driver.
//!
//! A tick first takes a structural copy of the whole population — the
//! frozen snapshot — and then updates every live agent against that
//! snapshot alone.  No agent's update is ever visible to another agent's
//! rule evaluation within the same tick, which is what makes the tick
//! order-independent: the resulting population is a pure function of the
//! snapshot, the bounds and the weights (see `tick_spec`), whatever order
//! the agents are visited in.

use vstd::prelude::*;

use crate::agent::Agent;
use crate::agent::Bounds;
use crate::agent::MAX_AGENTS;
use crate::agent::PERCEPTION_FACTOR;
use crate::agent::Weights;
use crate::agent::snap_wf;
use crate::agent::update_agent_spec;
use crate::rng::SeedRng;
use crate::vec2::MAX_EXTENT;
use crate::vec2::MAX_RADIUS;
use crate::vec2::SCALE;
use crate::vec2::Vec2;
use crate::vec2::div_trunc;

verus! {

/// The agent collection plus the rule-weight configuration.  The weights
/// are runtime-tunable between ticks; the collection's size is fixed at
/// initialization.
pub struct Population {
    pub agents: Vec<Agent>,
    pub weights: Weights,
}

/// The population after one tick: every agent updated against the frozen
/// snapshot `snap`, each the same pure function of the snapshot and its own
/// index.
pub open spec fn tick_spec(snap: Seq<Agent>, b: Bounds, w: Weights) -> Seq<Agent> {
    Seq::new(snap.len(), |i: int| update_agent_spec(snap[i], snap, i, b, w))
}

impl Population {
    /// Sized within range, every agent well-formed with an empty force
    /// accumulator, and admissible weights.
    pub open spec fn wf(self) -> bool {
        &&& self.agents@.len() <= MAX_AGENTS
        &&& snap_wf(self.agents@)
        &&& forall|i: int|
            0 <= i < self.agents@.len() ==> (#[trigger] self.agents@[i]).accel_clear()
        &&& self.weights.wf()
    }

    /// Number of agents.
    pub fn len(&self) -> (n: usize)
        ensures
            n == self.agents@.len(),
    {
        self.agents.len()
    }

    /// Advances the simulation by one frame: snapshots the population,
    /// updates every agent against the snapshot, integrating motion and
    /// wrapping at the arena edges.  Every agent is visited exactly once;
    /// an empty population is a no-op.
    pub fn tick(&mut self, bounds: Bounds)
        requires
            old(self).wf(),
            bounds.wf(),
        ensures
            final(self).wf(),
            final(self).weights == old(self).weights,
            final(self).agents@ == tick_spec(old(self).agents@, bounds, old(self).weights),
    {
        let n = self.agents.len();
        let mut snapshot: Vec<Agent> = Vec::new();
        let mut i: usize = 0;
        while i < n
            invariant
                *self == *old(self),
                old(self).wf(),
                n == self.agents@.len(),
                i <= n,
                snapshot@.len() == i,
                forall|j: int| 0 <= j < i ==> snapshot@[j] == self.agents@[j],
            decreases n - i,
        {
            snapshot.push(self.agents[i]);
            i = i + 1;
        }
        proof {
            assert(snapshot@ =~= old(self).agents@);
        }
        let ghost snap = snapshot@;
        let w = self.weights;
        let mut i: usize = 0;
        while i < n
            invariant
                snapshot@ == snap,
                snap == old(self).agents@,
                old(self).wf(),
                bounds.wf(),
                w == old(self).weights,
                n == snap.len(),
                self.agents@.len() == n,
                self.weights == old(self).weights,
                i <= n,
                forall|j: int|
                    0 <= j < i ==> #[trigger] self.agents@[j] == tick_spec(snap, bounds, w)[j],
                forall|j: int| 0 <= j < i ==> (#[trigger] self.agents@[j]).wf(),
                forall|j: int| 0 <= j < i ==> (#[trigger] self.agents@[j]).accel_clear(),
                forall|j: int| i <= j < n ==> #[trigger] self.agents@[j] == snap[j],
            decreases n - i,
        {
            let mut a = self.agents[i];
            proof {
                assert(a == snap[i as int]);
                assert(snap[i as int].wf());
                assert(old(self).agents@[i as int].accel_clear());
            }
            a.update(&snapshot, i, bounds, &w);
            self.agents[i] = a;
            i = i + 1;
        }
        proof {
            assert(self.agents@ =~= tick_spec(snap, bounds, w));
        }
    }

    /// The read-only view a renderer consumes: each agent's position and
    /// radius, in population order.
    pub fn snapshot_for_render(&self) -> (v: Vec<(Vec2, i64)>)
        ensures
            v@.len() == self.agents@.len(),
            forall|i: int|
                0 <= i < v@.len() ==> (#[trigger] v@[i]).0 == self.agents@[i].position
                    && v@[i].1 == self.agents@[i].radius,
    {
        let n = self.agents.len();
        let mut v: Vec<(Vec2, i64)> = Vec::new();
        let mut i: usize = 0;
        while i < n
            invariant
                n == self.agents@.len(),
                i <= n,
                v@.len() == i,
                forall|j: int|
                    0 <= j < i ==> (#[trigger] v@[j]).0 == self.agents@[j].position && v@[j].1
                        == self.agents@[j].radius,
            decreases n - i,
        {
            let a = self.agents[i];
            v.push((a.position, a.radius));
            i = i + 1;
        }
        v
    }
}

/// Seeds a population of `count` agents with positions drawn uniformly
/// inside `bounds` and velocity components drawn from `[-1.0, 1.0]` in
/// fixed point, all sharing the given radius and caps, with every rule at
/// weight 1.0.
pub fn initialize(
    count: usize,
    bounds: Bounds,
    agent_radius: i64,
    max_speed: i64,
    max_steering: i64,
    seed: u64,
) -> (p: Population)
    requires
        bounds.wf(),
        bounds.left < bounds.right,
        bounds.bottom < bounds.top,
        0 <= agent_radius <= MAX_RADIUS,
        0 <= max_speed <= MAX_EXTENT,
        0 <= max_steering <= MAX_EXTENT,
        count <= MAX_AGENTS,
    ensures
        p.wf(),
        p.agents@.len() == count,
        p.weights.alignment == SCALE && p.weights.cohesion == SCALE && p.weights.separation
            == SCALE,
        forall|i: int|
            0 <= i < count ==> {
                let a = #[trigger] p.agents@[i];
                &&& bounds.left <= a.position.x < bounds.right
                &&& bounds.bottom <= a.position.y < bounds.top
                &&& -SCALE <= a.velocity.x <= SCALE
                &&& -SCALE <= a.velocity.y <= SCALE
                &&& a.radius == agent_radius
                &&& a.max_speed == max_speed
                &&& a.max_steering == max_steering
                &&& a.accel_clear()
                &&& a.perception == div_trunc(agent_radius * PERCEPTION_FACTOR, SCALE as int)
            },
{
    let mut rng = SeedRng::new(seed);
    let mut agents: Vec<Agent> = Vec::new();
    let mut i: usize = 0;
    while i < count
        invariant
            bounds.wf(),
            bounds.left < bounds.right,
            bounds.bottom < bounds.top,
            0 <= agent_radius <= MAX_RADIUS,
            0 <= max_speed <= MAX_EXTENT,
            0 <= max_steering <= MAX_EXTENT,
            i <= count,
            agents@.len() == i,
            forall|j: int|
                0 <= j < i ==> {
                    let a = #[trigger] agents@[j];
                    &&& a.wf()
                    &&& bounds.left <= a.position.x < bounds.right
                    &&& bounds.bottom <= a.position.y < bounds.top
                    &&& -SCALE <= a.velocity.x <= SCALE
                    &&& -SCALE <= a.velocity.y <= SCALE
                    &&& a.radius == agent_radius
                    &&& a.max_speed == max_speed
                    &&& a.max_steering == max_steering
                    &&& a.accel_clear()
                    &&& a.perception == div_trunc(agent_radius * PERCEPTION_FACTOR, SCALE as int)
                },
        decreases count - i,
    {
        let px = rng.next_in_range(bounds.left, bounds.right);
        let py = rng.next_in_range(bounds.bottom, bounds.top);
        let vx = rng.next_in_range(-SCALE, SCALE + 1);
        let vy = rng.next_in_range(-SCALE, SCALE + 1);
        let a = Agent::new(
            Vec2 { x: px, y: py },
            Vec2 { x: vx, y: vy },
            agent_radius,
            max_speed,
            max_steering,
        );
        agents.push(a);
        i = i + 1;
    }
    Population { agents, weights: Weights::uniform() }
}

} // verus!
