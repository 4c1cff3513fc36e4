//! The library's laws: properties of the simulation proved once and for
//! all over the specification functions that the executable contracts are
//! stated in — the speed cap, the zero-neighbor invariance, the
//! order-independence of a tick, the boundary-wrap formula, and the
//! separation rule's repulsion direction.

use vstd::math::abs;
use vstd::prelude::*;

use crate::agent::Agent;
use crate::agent::Bounds;
use crate::agent::Weights;
use crate::agent::align_spec;
use crate::agent::cohesion_spec;
use crate::agent::dist_sq;
use crate::agent::is_neighbor;
use crate::agent::lemma_abs_le_dist;
use crate::agent::neighbor_count;
use crate::agent::separation_spec;
use crate::agent::separation_sum;
use crate::agent::separation_term;
use crate::agent::steer_toward;
use crate::agent::update_agent_spec;
use crate::agent::wrap_coord;
use crate::sim::tick_spec;
use crate::vec2::SCALE;
use crate::vec2::div_trunc;
use crate::vec2::lemma_div_trunc_cap;
use crate::vec2::lemma_div_trunc_facts;
use crate::vec2::lemma_div_trunc_lower;
use crate::vec2::lemma_coord_bound;
use crate::vec2::lemma_limited_cap;
use crate::vec2::lemma_rescale_cap;
use crate::vec2::lemma_sqrt_ceil_bounds;
use crate::vec2::lemma_sqrt_ceil_le;
use crate::vec2::lemma_sqrt_floor_bounds;
use crate::vec2::limited_pair;
use crate::vec2::norm_sq;
use crate::vec2::scaled_pair;
use crate::vec2::sqrt_ceil;
use crate::vec2::sqrt_floor;

verus! {

/// Law: immediately after the clamp step of an agent's update — before this
/// tick's acceleration is added — the velocity's magnitude is at most
/// `max_speed`.  `update_agent_spec` moves the position by exactly this
/// clamped velocity and only afterwards adds the tick's acceleration,
/// unclamped: the cap is a fact about the pre-acceleration velocity.
pub proof fn lemma_speed_cap(a: Agent)
    requires
        a.max_speed >= 0,
    ensures
        ({
            let v1 = limited_pair(a.velocity.x as int, a.velocity.y as int, a.max_speed as int);
            norm_sq(v1.0, v1.1) <= a.max_speed * a.max_speed
        }),
{
    lemma_limited_cap(a.velocity.x as int, a.velocity.y as int, a.max_speed as int);
}

/// No index below `n` is a neighbor, so the count over that prefix is zero.
proof fn lemma_no_neighbor_count_zero(snap: Seq<Agent>, a: Agent, me: int, n: int)
    requires
        n <= snap.len(),
        forall|j: int| 0 <= j < n ==> !is_neighbor(snap, a, me, j),
    ensures
        neighbor_count(snap, a, me, n) == 0,
    decreases n,
{
    if n > 0 {
        lemma_no_neighbor_count_zero(snap, a, me, n - 1);
    }
}

/// Law: an isolated agent — one with no other agent strictly within its
/// perception radius — gets the zero vector from all three steering rules.
pub proof fn lemma_isolated_agent_zero_rules(snap: Seq<Agent>, a: Agent, me: int)
    requires
        forall|j: int|
            0 <= j < snap.len() && j != me ==> dist_sq(a.position, (#[trigger] snap[j]).position)
                >= a.perception * a.perception,
    ensures
        align_spec(snap, a, me) == (0int, 0int),
        cohesion_spec(snap, a, me) == (0int, 0int),
        separation_spec(snap, a, me) == (0int, 0int),
{
    assert forall|j: int| 0 <= j < snap.len() implies !is_neighbor(snap, a, me, j) by {
        if j != me {
            assert(dist_sq(a.position, snap[j].position) >= a.perception * a.perception);
        }
    }
    lemma_no_neighbor_count_zero(snap, a, me, snap.len() as int);
}

/// The agents updated one at a time in the order given by `order`: each
/// step writes the update of the agent at index `order[0]` — computed from
/// the frozen snapshot `snap` alone — into the live sequence, then goes on
/// with the rest of the order.
pub open spec fn run_in_order(
    snap: Seq<Agent>,
    live: Seq<Agent>,
    b: Bounds,
    w: Weights,
    order: Seq<int>,
) -> Seq<Agent>
    decreases order.len(),
{
    if order.len() == 0 {
        live
    } else {
        let i = order[0];
        run_in_order(
            snap,
            live.update(i, update_agent_spec(snap[i], snap, i, b, w)),
            b,
            w,
            order.subrange(1, order.len() as int),
        )
    }
}

/// Each index ends up holding its snapshot-determined update if the order
/// visits it, and its prior value if not.
proof fn lemma_run_in_order_frame(
    snap: Seq<Agent>,
    live: Seq<Agent>,
    b: Bounds,
    w: Weights,
    order: Seq<int>,
    i: int,
)
    requires
        live.len() == snap.len(),
        forall|k: int| 0 <= k < order.len() ==> 0 <= #[trigger] order[k] < snap.len(),
        0 <= i < snap.len(),
    ensures
        run_in_order(snap, live, b, w, order).len() == snap.len(),
        run_in_order(snap, live, b, w, order)[i] == if order.contains(i) {
            update_agent_spec(snap[i], snap, i, b, w)
        } else {
            live[i]
        },
    decreases order.len(),
{
    if order.len() == 0 {
    } else {
        let i0 = order[0];
        let rest = order.subrange(1, order.len() as int);
        let live1 = live.update(i0, update_agent_spec(snap[i0], snap, i0, b, w));
        lemma_run_in_order_frame(snap, live1, b, w, rest, i);
        if rest.contains(i) {
            assert(order.contains(i)) by {
                let k = choose|k: int| 0 <= k < rest.len() && rest[k] == i;
                assert(order[k + 1] == i);
            }
        } else {
            if i == i0 {
                assert(order.contains(i)) by {
                    assert(order[0] == i);
                }
                assert(live1[i] == update_agent_spec(snap[i], snap, i, b, w));
            } else {
                assert(live1[i] == live[i]);
                if order.contains(i) {
                    let k = choose|k: int| 0 <= k < order.len() && order[k] == i;
                    assert(k != 0);
                    assert(rest[k - 1] == i);
                    assert(rest.contains(i));
                }
            }
        }
    }
}

/// Law: a tick is order-independent.  Visiting the agents in any order that
/// covers every index — forward, reverse, shuffled, even with repeats —
/// while reading only the frozen snapshot produces exactly the population
/// of `tick_spec`, because each agent's update is a pure function of the
/// snapshot and its own index.
pub proof fn lemma_tick_order_independent(snap: Seq<Agent>, b: Bounds, w: Weights, order: Seq<int>)
    requires
        forall|k: int| 0 <= k < order.len() ==> 0 <= #[trigger] order[k] < snap.len(),
        forall|i: int| 0 <= i < snap.len() ==> order.contains(i),
    ensures
        run_in_order(snap, snap, b, w, order) == tick_spec(snap, b, w),
{
    if snap.len() == 0 {
        if order.len() > 0 {
            assert(0 <= order[0] < snap.len());
        }
        assert(run_in_order(snap, snap, b, w, order) =~= tick_spec(snap, b, w));
    } else {
        assert forall|i: int| 0 <= i < snap.len() implies run_in_order(snap, snap, b, w, order)[i]
            == tick_spec(snap, b, w)[i] by {
            lemma_run_in_order_frame(snap, snap, b, w, order, i);
        }
        lemma_run_in_order_frame(snap, snap, b, w, order, 0int);
        assert(run_in_order(snap, snap, b, w, order) =~= tick_spec(snap, b, w));
    }
}

/// Law: an agent placed one step beyond the low wrap margin reappears at
/// the high wrap margin, and symmetrically — with the margin built from the
/// agent's own velocity component and twice its radius.
pub proof fn lemma_wrap_edges(p: int, v: int, r: int, lo: int, hi: int)
    requires
        lo <= hi,
        0 <= r,
    ensures
        p < lo - (v + 2 * r) ==> wrap_coord(p, v, r, lo, hi) == hi + (v + 2 * r),
        p > hi + (v + 2 * r) && p >= lo - (v + 2 * r) ==> wrap_coord(p, v, r, lo, hi) == lo - (v
            + 2 * r),
        lo - (v + 2 * r) <= p <= hi + (v + 2 * r) ==> wrap_coord(p, v, r, lo, hi) == p,
{
}

/// Law: a tick of an empty population is an empty population — a no-op.
pub proof fn lemma_empty_tick(b: Bounds, w: Weights)
    ensures
        tick_spec(Seq::<Agent>::empty(), b, w) == Seq::<Agent>::empty(),
{
    assert(tick_spec(Seq::<Agent>::empty(), b, w) =~= Seq::<Agent>::empty());
}

/// Truncating division commutes with negating the dividend.
proof fn lemma_div_trunc_neg(a: int, b: int)
    requires
        b > 0,
    ensures
        div_trunc(-a, b) == -div_trunc(a, b),
{
    if a == 0 {
        vstd::arithmetic::div_mod::lemma_div_of0(b);
    }
}

/// Multiplying by a nonnegative factor and dividing by a positive bound
/// keeps a coordinate's sign.
proof fn lemma_stage_sign(v: int, f: int, c: int)
    requires
        c > 0,
        f >= 0,
    ensures
        v >= 0 ==> div_trunc(v * f, c) >= 0,
        v <= 0 ==> div_trunc(v * f, c) <= 0,
{
    assert((v >= 0 ==> v * f >= 0) && (v <= 0 ==> v * f <= 0)) by (nonlinear_arith)
        requires
            f >= 0,
    ;
    lemma_div_trunc_facts(v * f, c);
}

/// Multiplying by a nonnegative factor and dividing by a positive bound
/// keeps magnitude `k` reachable once `|v| * f` reaches `k * c`.
proof fn lemma_stage_mag(v: int, f: int, c: int, k: int)
    requires
        c > 0,
        f >= 0,
        k >= 1,
        abs(v) * f >= k * c,
    ensures
        abs(div_trunc(v * f, c)) >= k,
{
    if v >= 0 {
        assert(abs(v) == v);
        lemma_div_trunc_lower(v * f, c, k);
    } else {
        let av: int = -v;
        assert(av == abs(v));
        assert(av * f == -(v * f)) by (nonlinear_arith)
            requires
                av == -v,
        ;
        lemma_div_trunc_lower(-(v * f), c, k);
        lemma_div_trunc_neg(v * f, c);
    }
}

/// The separation pipeline over one offset `(dx, dy)` whose x-magnitude
/// dominates, for a querying agent at rest: the repulsion direction,
/// rescaled to `max_speed` and clamped to `max_steering`, keeps a strictly
/// positive dot product with the offset.  Speed and steering caps of a few
/// sub-units are needed: coarser caps can truncate the direction to zero.
proof fn lemma_sep_pipeline(dx: int, dy: int, ms: int, mst: int)
    requires
        abs(dx) >= abs(dy),
        dx != 0,
        ms >= 4,
        mst >= 16,
    ensures
        ({
            let d = sqrt_floor(norm_sq(dx, dy) as nat) as int;
            let t0 = div_trunc(dx * (SCALE as int), d);
            let t1 = div_trunc(dy * (SCALE as int), d);
            let s = scaled_pair(t0, t1, ms);
            let o = limited_pair(s.0, s.1, mst);
            o.0 * dx + o.1 * dy > 0
        }),
{
    let adx: int = abs(dx) as int;
    let ady: int = abs(dy) as int;
    let dsq = norm_sq(dx, dy);
    assert(dx * dx == adx * adx && dy * dy == ady * ady) by (nonlinear_arith)
        requires
            dx == adx || dx == -adx,
            dy == ady || dy == -ady,
    ;
    assert(dx * dx > 0 && dy * dy >= 0) by (nonlinear_arith)
        requires
            dx != 0,
    ;
    assert(dsq > 0);
    lemma_sqrt_floor_bounds(dsq as nat);
    let d = sqrt_floor(dsq as nat) as int;
    assert(d >= 1) by {
        if d == 0 {
            assert(dsq < (d + 1) * (d + 1));
            assert((0 + 1) * (0 + 1) == 1) by (nonlinear_arith);
        }
    }
    lemma_abs_le_dist(dx, dy, d);
    assert(d <= 2 * adx) by (nonlinear_arith)
        requires
            d * d <= dsq,
            dsq == adx * adx + ady * ady,
            0 <= ady <= adx,
            d >= 0,
    ;
    // The dominant coordinate of the unit direction reaches SCALE / 2.
    let t0 = div_trunc(dx * (SCALE as int), d);
    let t1 = div_trunc(dy * (SCALE as int), d);
    assert(abs(dx) * (SCALE as int) >= 500 * d);
    lemma_stage_mag(dx, SCALE as int, d, 500);
    lemma_stage_sign(dx, SCALE as int, d);
    lemma_stage_sign(dy, SCALE as int, d);
    lemma_div_trunc_cap(dx * (SCALE as int), d, SCALE as int);
    lemma_div_trunc_cap(dy * (SCALE as int), d, SCALE as int);
    let at0: int = abs(t0) as int;
    let at1: int = abs(t1) as int;
    let nsq_t = norm_sq(t0, t1);
    assert(250000 <= nsq_t <= 2000000) by (nonlinear_arith)
        requires
            nsq_t == t0 * t0 + t1 * t1,
            at0 >= 500,
            t0 == at0 || t0 == -at0,
            -1000 <= t0 <= 1000,
            -1000 <= t1 <= 1000,
    ;
    lemma_sqrt_ceil_bounds(nsq_t as nat);
    let ct = sqrt_ceil(nsq_t as nat) as int;
    let k2000: nat = 2000;
    assert(k2000 * k2000 == 4000000) by (nonlinear_arith)
        requires
            k2000 == 2000,
    ;
    lemma_sqrt_ceil_le(nsq_t as nat, k2000);
    assert(1 <= ct <= 2000);
    // The desired velocity keeps at least a quarter of max_speed on the
    // dominant coordinate.
    let k1 = div_trunc(ms, 4);
    lemma_div_trunc_facts(ms, 4);
    assert(k1 >= 1 && 4 * k1 <= ms <= 4 * k1 + 3);
    let s = scaled_pair(t0, t1, ms);
    assert(abs(t0) * ms >= k1 * ct) by (nonlinear_arith)
        requires
            abs(t0) >= 500,
            ms >= 4,
            4 * k1 <= ms,
            0 <= k1,
            0 < ct <= 2000,
    ;
    lemma_stage_mag(t0, ms, ct, k1);
    lemma_stage_sign(t0, ms, ct);
    lemma_stage_sign(t1, ms, ct);
    lemma_rescale_cap(t0, t1, ms, ct);
    lemma_coord_bound(s.0, s.1, ms);
    let as0: int = abs(s.0) as int;
    let nsq_s = norm_sq(s.0, s.1);
    // Sign bookkeeping: s.0 points with dx, s.1 with dy.
    assert(dx >= 0 ==> s.0 >= 0);
    assert(dx <= 0 ==> s.0 <= 0);
    assert(dy >= 0 ==> s.1 >= 0);
    assert(dy <= 0 ==> s.1 <= 0);
    if nsq_s <= mst * mst {
        let o = limited_pair(s.0, s.1, mst);
        assert(o == (s.0, s.1));
        assert(o.0 * dx >= k1 * adx) by (nonlinear_arith)
            requires
                o.0 == s.0,
                abs(s.0) >= k1,
                s.0 == as0 || s.0 == -as0,
                as0 == abs(s.0),
                dx == adx || dx == -adx,
                dx >= 0 ==> s.0 >= 0,
                dx <= 0 ==> s.0 <= 0,
                k1 >= 1,
                adx >= 0,
        ;
        assert(o.1 * dy >= 0) by (nonlinear_arith)
            requires
                o.1 == s.1,
                dy >= 0 ==> s.1 >= 0,
                dy <= 0 ==> s.1 <= 0,
        ;
        assert(k1 * adx >= 1) by (nonlinear_arith)
            requires
                k1 >= 1,
                adx >= 1,
        ;
    } else {
        lemma_sqrt_ceil_bounds(nsq_s as nat);
        let cs = sqrt_ceil(nsq_s as nat) as int;
        assert(nsq_s > 0) by (nonlinear_arith)
            requires
                nsq_s > mst * mst,
                mst >= 0,
        ;
        let kms: nat = ms as nat;
        assert(kms * kms == ms * ms) by (nonlinear_arith)
            requires
                kms == ms,
        ;
        lemma_sqrt_ceil_le(nsq_s as nat, kms);
        assert(1 <= cs <= ms);
        let o = limited_pair(s.0, s.1, mst);
        assert(o == scaled_pair(s.0, s.1, mst));
        assert(abs(s.0) * mst >= 1 * cs) by (nonlinear_arith)
            requires
                abs(s.0) >= k1,
                mst >= 16,
                4 * k1 <= ms <= 4 * k1 + 3,
                ms >= 4,
                k1 >= 1,
                0 < cs <= ms,
        ;
        lemma_stage_mag(s.0, mst, cs, 1);
        lemma_stage_sign(s.0, mst, cs);
        lemma_stage_sign(s.1, mst, cs);
        let ao0: int = abs(o.0) as int;
        assert(o.0 * dx >= 1 * adx) by (nonlinear_arith)
            requires
                abs(o.0) >= 1,
                o.0 == ao0 || o.0 == -ao0,
                ao0 == abs(o.0),
                dx == adx || dx == -adx,
                dx >= 0 ==> o.0 >= 0,
                dx <= 0 ==> o.0 <= 0,
                adx >= 0,
        ;
        assert(o.1 * dy >= 0) by (nonlinear_arith)
            requires
                dy >= 0 ==> o.1 >= 0,
                dy <= 0 ==> o.1 <= 0,
        ;
        assert(adx >= 1);
    }
}

/// `div_trunc` by one is the identity.
proof fn lemma_div_trunc_one(a: int)
    ensures
        div_trunc(a, 1) == a,
{
    lemma_div_trunc_facts(a, 1);
    let q = div_trunc(a, 1);
    assert(q * 1 == q) by (nonlinear_arith);
    assert((q + 1) * 1 == q + 1) by (nonlinear_arith);
    assert((q - 1) * 1 == q - 1) by (nonlinear_arith);
}

/// Law: with two agents within perception range at a positive distance,
/// the separation rule steers the resting agent directly away from the
/// other: its output has a strictly positive dot product with the offset
/// from the other agent to itself.  The querying agent must be at rest —
/// the steering error of a moving agent can point anywhere — and the speed
/// and steering caps must be at least a few sub-units, else truncation can
/// zero the direction (for instance `max_speed == 1` truncates the rescaled
/// unit direction to the zero vector).
pub proof fn lemma_separation_repulsion(snap: Seq<Agent>, me: int)
    requires
        snap.len() == 2,
        0 <= me < 2,
        ({
            let a = snap[me];
            let o = snap[1 - me];
            &&& a.velocity.x == 0 && a.velocity.y == 0
            &&& 0 < dist_sq(a.position, o.position) < a.perception * a.perception
            &&& a.max_speed >= 4
            &&& a.max_steering >= 16
        }),
    ensures
        ({
            let a = snap[me];
            let o = snap[1 - me];
            let s = separation_spec(snap, a, me);
            s.0 * (a.position.x - o.position.x) + s.1 * (a.position.y - o.position.y) > 0
        }),
{
    let a = snap[me];
    let o = snap[1 - me];
    let dx = a.position.x - o.position.x;
    let dy = a.position.y - o.position.y;
    assert(is_neighbor(snap, a, me, 1 - me));
    assert(!is_neighbor(snap, a, me, me));
    assert(neighbor_count(snap, a, me, 0) == 0);
    assert(separation_sum(snap, a, me, 0) == (0int, 0int));
    if me == 0 {
        assert(neighbor_count(snap, a, me, 1) == 0);
        assert(neighbor_count(snap, a, me, 2) == 1);
        assert(separation_sum(snap, a, me, 1) == (0int, 0int));
        assert(separation_sum(snap, a, me, 2) == separation_term(a, o));
    } else {
        assert(neighbor_count(snap, a, me, 1) == 1);
        assert(neighbor_count(snap, a, me, 2) == 1);
        assert(separation_sum(snap, a, me, 1) == separation_term(a, o));
        assert(separation_sum(snap, a, me, 2) == separation_term(a, o));
    }
    let t = separation_term(a, o);
    lemma_div_trunc_one(t.0);
    lemma_div_trunc_one(t.1);
    assert(separation_spec(snap, a, me) == steer_toward(t.0, t.1, a));
    let dsq = norm_sq(dx, dy);
    assert(dsq == dist_sq(a.position, o.position));
    lemma_sqrt_floor_bounds(dsq as nat);
    let d = sqrt_floor(dsq as nat) as int;
    assert(d >= 1) by {
        if d == 0 {
            assert(dsq < (d + 1) * (d + 1));
            assert((0 + 1) * (0 + 1) == 1) by (nonlinear_arith);
        }
    }
    assert(t.0 == div_trunc(dx * (SCALE as int), d));
    assert(t.1 == div_trunc(dy * (SCALE as int), d));
    let ms = a.max_speed as int;
    let mst = a.max_steering as int;
    if abs(dx) >= abs(dy) {
        assert(dx != 0) by {
            if dx == 0 {
                assert(abs(dy) <= 0);
                assert(dy == 0);
                assert(dsq == 0) by (nonlinear_arith)
                    requires
                        dx == 0,
                        dy == 0,
                        dsq == norm_sq(dx, dy),
                ;
            }
        }
        lemma_sep_pipeline(dx, dy, ms, mst);
        let s = scaled_pair(t.0, t.1, ms);
        assert(t.0 != 0 || t.1 != 0) by {
            lemma_unit_direction_nonzero(dx, dy, d);
        }
        assert(steer_toward(t.0, t.1, a) == limited_pair(s.0 - 0, s.1 - 0, mst));
        assert(limited_pair(s.0 - 0, s.1 - 0, mst) == limited_pair(s.0, s.1, mst));
    } else {
        assert(dy != 0) by {
            if dy == 0 {
                assert(abs(dx) < 0);
            }
        }
        lemma_sep_pipeline(dy, dx, ms, mst);
        // Everything in the pipeline is symmetric in the two coordinates.
        assert(norm_sq(dy, dx) == norm_sq(dx, dy));
        let t0s = div_trunc(dy * (SCALE as int), d);
        let t1s = div_trunc(dx * (SCALE as int), d);
        assert(t0s == t.1 && t1s == t.0);
        assert(norm_sq(t.1, t.0) == norm_sq(t.0, t.1));
        let ss = scaled_pair(t.1, t.0, ms);
        let s = scaled_pair(t.0, t.1, ms);
        assert(ss.0 == s.1 && ss.1 == s.0);
        assert(norm_sq(s.1, s.0) == norm_sq(s.0, s.1));
        let os = limited_pair(s.1, s.0, mst);
        let oo = limited_pair(s.0, s.1, mst);
        assert(os.0 == oo.1 && os.1 == oo.0) by {
            if norm_sq(s.0, s.1) <= mst * mst {
            } else {
                assert(scaled_pair(s.1, s.0, mst).0 == scaled_pair(s.0, s.1, mst).1);
                assert(scaled_pair(s.1, s.0, mst).1 == scaled_pair(s.0, s.1, mst).0);
            }
        }
        assert(t.0 != 0 || t.1 != 0) by {
            lemma_unit_direction_nonzero(dy, dx, d);
        }
        assert(steer_toward(t.0, t.1, a) == limited_pair(s.0 - 0, s.1 - 0, mst));
        assert(limited_pair(s.0 - 0, s.1 - 0, mst) == limited_pair(s.0, s.1, mst));
        assert(oo.0 * dx + oo.1 * dy == os.0 * dy + os.1 * dx);
    }
}

/// The dominant coordinate of the unit direction is non-zero: its
/// magnitude reaches half of `SCALE`.
proof fn lemma_unit_direction_nonzero(dxm: int, dyo: int, d: int)
    requires
        abs(dxm) >= abs(dyo),
        dxm != 0,
        d >= 1,
        d * d <= norm_sq(dxm, dyo),
        norm_sq(dxm, dyo) < (d + 1) * (d + 1),
    ensures
        div_trunc(dxm * (SCALE as int), d) != 0,
{
    let adx: int = abs(dxm) as int;
    let ady: int = abs(dyo) as int;
    assert(dxm * dxm == adx * adx && dyo * dyo == ady * ady) by (nonlinear_arith)
        requires
            dxm == adx || dxm == -adx,
            dyo == ady || dyo == -ady,
    ;
    assert(d <= 2 * adx) by (nonlinear_arith)
        requires
            d * d <= norm_sq(dxm, dyo),
            norm_sq(dxm, dyo) == adx * adx + ady * ady,
            0 <= ady <= adx,
            d >= 0,
    ;
    assert(abs(dxm) * (SCALE as int) >= 500 * d);
    lemma_stage_mag(dxm, SCALE as int, d, 500);
}

} // verus!
