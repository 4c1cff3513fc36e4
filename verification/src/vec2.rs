//! Fixed-point 2D vector arithmetic: squared magnitudes, integer square
//! roots, and the two magnitude-shaping operations every steering rule is
//! built from — `set_magnitude` (rescale a non-zero vector to a target
//! magnitude) and `limit_magnitude` (clamp a vector that is too long).
//!
//! Coordinates are integers counting `SCALE` sub-units per arena unit.
//! Rescaling divides by the *ceiling* integer square root of the squared
//! magnitude, which makes the magnitude caps exact: a clamped vector never
//! exceeds the requested bound, with no floating-point tolerance.

use vstd::prelude::*;

verus! {

/// Sub-units per arena unit of the fixed-point coordinate system.
pub const SCALE: i64 = 1000;

/// Largest admitted magnitude for configuration values: arena bound
/// coordinates, perception radii, speed and steering caps.
pub const MAX_EXTENT: i64 = 0x100_0000;

/// Largest admitted agent radius (kept well under `MAX_EXTENT` so that the
/// derived perception radius and the wrap margins stay in range).
pub const MAX_RADIUS: i64 = 0x20_0000;

/// Largest admitted rule weight, in `SCALE` fixed-point (4.0).
pub const MAX_WEIGHT: i64 = 4000;

/// Every velocity coordinate stays within this bound across ticks.
pub const VEL_LIMIT: i64 = 0x1000_0000;

/// Every position coordinate stays within this bound across ticks.
pub const POS_LIMIT: i64 = 0x2000_0000;

/// Coordinate bound under which all vector operations are overflow-free.
pub const COORD_LIMIT: i64 = 0x4000_0000;

/// A 2D vector in fixed-point arena coordinates.
#[derive(Clone, Copy, Debug, PartialEq, Eq, Structural)]
pub struct Vec2 {
    pub x: i64,
    pub y: i64,
}

impl Vec2 {
    /// Both coordinates lie in `[-limit, limit]`.
    pub open spec fn in_box(self, limit: int) -> bool {
        -limit <= self.x <= limit && -limit <= self.y <= limit
    }

    /// The zero vector.
    pub fn zero() -> (v: Vec2)
        ensures
            v.x == 0 && v.y == 0,
    {
        Vec2 { x: 0, y: 0 }
    }

    /// Squared magnitude.
    pub fn mag_sq(&self) -> (m: i64)
        requires
            self.in_box(COORD_LIMIT as int),
        ensures
            m == norm_sq(self.x as int, self.y as int),
    {
        proof {
            lemma_square_bound(self.x as int, COORD_LIMIT as int);
            lemma_square_bound(self.y as int, COORD_LIMIT as int);
        }
        self.x * self.x + self.y * self.y
    }

    /// Ceiling integer square root of the squared magnitude: the smallest
    /// `c >= 0` with `c * c >= |self|^2`.
    pub fn mag_ceil(&self) -> (c: i64)
        requires
            self.in_box(COORD_LIMIT as int),
        ensures
            c == sqrt_ceil(norm_sq(self.x as int, self.y as int) as nat),
            0 <= c <= 0x1_0000_0000,
    {
        proof {
            lemma_square_bound(self.x as int, COORD_LIMIT as int);
            lemma_square_bound(self.y as int, COORD_LIMIT as int);
        }
        let msq: i64 = self.mag_sq();
        let s: u64 = isqrt_u64(msq as u64);
        if s * s == msq as u64 {
            s as i64
        } else {
            (s + 1) as i64
        }
    }
}

/// Squared Euclidean norm of the coordinate pair `(x, y)`.
pub open spec fn norm_sq(x: int, y: int) -> int {
    x * x + y * y
}

/// Quotient of `a` by `b` rounded toward zero, as Rust's integer division
/// rounds. Meaningful for `b > 0`.
pub open spec fn div_trunc(a: int, b: int) -> int
    recommends
        b > 0,
{
    if a >= 0 {
        a / b
    } else {
        -((-a) / b)
    }
}

/// Largest `r` with `r * r <= n`.
pub open spec fn sqrt_floor(n: nat) -> nat
    decreases n,
{
    if n == 0 {
        0
    } else {
        let r = sqrt_floor((n - 1) as nat);
        if (r + 1) * (r + 1) <= n {
            r + 1
        } else {
            r
        }
    }
}

/// Smallest `c` with `c * c >= n`.
pub open spec fn sqrt_ceil(n: nat) -> nat {
    let r = sqrt_floor(n);
    if r * r == n {
        r
    } else {
        r + 1
    }
}

/// `(x, y)` rescaled toward magnitude `m`: each coordinate is multiplied by
/// `m` and divided (truncating) by the ceiling square root of the squared
/// magnitude. For a non-zero input the result's magnitude never exceeds `m`.
pub open spec fn scaled_pair(x: int, y: int, m: int) -> (int, int) {
    let c = sqrt_ceil(norm_sq(x, y) as nat) as int;
    (div_trunc(x * m, c), div_trunc(y * m, c))
}

/// `(x, y)` unchanged if its magnitude is at most `m`, else rescaled to
/// magnitude at most `m`.
pub open spec fn limited_pair(x: int, y: int, m: int) -> (int, int) {
    if norm_sq(x, y) <= m * m {
        (x, y)
    } else {
        scaled_pair(x, y, m)
    }
}

/// A number bounded in absolute value has a bounded square.
pub proof fn lemma_square_bound(x: int, l: int)
    by (nonlinear_arith)
    requires
        -l <= x <= l,
        0 <= l,
    ensures
        0 <= x * x <= l * l,
{
}

/// If a sum of squares is below `m * m`, each coordinate is within `m`.
pub proof fn lemma_coord_bound(x: int, y: int, m: int)
    by (nonlinear_arith)
    requires
        norm_sq(x, y) <= m * m,
        0 <= m,
    ensures
        -m <= x <= m,
        -m <= y <= m,
{
}

/// `sqrt_floor` really is the floor square root.
pub proof fn lemma_sqrt_floor_bounds(n: nat)
    ensures
        sqrt_floor(n) * sqrt_floor(n) <= n,
        n < (sqrt_floor(n) + 1) * (sqrt_floor(n) + 1),
    decreases n,
{
    if n == 0 {
        assert(sqrt_floor(n) == 0);
        assert((sqrt_floor(n) + 1) * (sqrt_floor(n) + 1) == 1) by (nonlinear_arith)
            requires
                sqrt_floor(n) == 0,
        ;
    } else {
        lemma_sqrt_floor_bounds((n - 1) as nat);
        let r = sqrt_floor((n - 1) as nat);
        if (r + 1) * (r + 1) <= n {
            assert(sqrt_floor(n) == r + 1);
            assert(n <= (r + 1) * (r + 1)) by {
                assert((n - 1) < (r + 1) * (r + 1));
            }
            assert(n == (r + 1) * (r + 1));
            assert((r + 1) * (r + 1) < (r + 2) * (r + 2)) by (nonlinear_arith)
                requires
                    0 <= r,
            ;
            assert(n < (sqrt_floor(n) + 1) * (sqrt_floor(n) + 1));
        } else {
            assert(sqrt_floor(n) == r);
        }
    }
}

/// The floor square root is unique: any `r` bracketing `n` equals it.
pub proof fn lemma_sqrt_floor_unique(n: nat, r: nat)
    requires
        r * r <= n,
        n < (r + 1) * (r + 1),
    ensures
        r == sqrt_floor(n),
{
    lemma_sqrt_floor_bounds(n);
    let s = sqrt_floor(n);
    if r < s {
        assert((r + 1) * (r + 1) <= s * s) by (nonlinear_arith)
            requires
                r + 1 <= s,
                0 <= r,
        ;
    }
    if s < r {
        assert((s + 1) * (s + 1) <= r * r) by (nonlinear_arith)
            requires
                s + 1 <= r,
                0 <= s,
        ;
    }
}

/// Basic facts about the ceiling square root.
pub proof fn lemma_sqrt_ceil_bounds(n: nat)
    ensures
        n <= sqrt_ceil(n) * sqrt_ceil(n),
        n == 0 ==> sqrt_ceil(n) == 0,
        n > 0 ==> sqrt_ceil(n) > 0 && (sqrt_ceil(n) - 1) * (sqrt_ceil(n) - 1) < n,
{
    lemma_sqrt_floor_bounds(n);
    let r = sqrt_floor(n);
    if r * r == n {
        if n > 0 {
            assert((r - 1) * (r - 1) < r * r) by (nonlinear_arith)
                requires
                    r >= 1,
            ;
        }
    }
}

/// The ceiling square root is minimal among upper square-root bounds.
pub proof fn lemma_sqrt_ceil_le(n: nat, k: nat)
    requires
        n <= k * k,
    ensures
        sqrt_ceil(n) <= k,
{
    lemma_sqrt_ceil_bounds(n);
    let c = sqrt_ceil(n);
    if k < c {
        assert(k * k <= (c - 1) * (c - 1)) by (nonlinear_arith)
            requires
                k <= c - 1,
                0 <= k,
        ;
    }
}

/// Truncating division: sign, bracketing and magnitude facts.
pub proof fn lemma_div_trunc_facts(a: int, b: int)
    requires
        b > 0,
    ensures
        a >= 0 ==> 0 <= div_trunc(a, b) && 0 <= div_trunc(a, b) * b <= a && a < (div_trunc(a, b)
            + 1) * b,
        a < 0 ==> div_trunc(a, b) <= 0 && a <= div_trunc(a, b) * b <= 0 && (div_trunc(a, b) - 1)
            * b < a,
{
    if a >= 0 {
        let q = a / b;
        vstd::arithmetic::div_mod::lemma_fundamental_div_mod(a, b);
        vstd::arithmetic::div_mod::lemma_mod_division_less_than_divisor(a, b);
        vstd::arithmetic::div_mod::lemma_div_pos_is_pos(a, b);
        assert(q * b == b * q && (q + 1) * b == b * q + b) by (nonlinear_arith);
        assert(0 <= q * b) by (nonlinear_arith)
            requires
                0 <= q,
                0 < b,
        ;
    } else {
        let m = -a;
        let d = m / b;
        let q = div_trunc(a, b);
        vstd::arithmetic::div_mod::lemma_fundamental_div_mod(m, b);
        vstd::arithmetic::div_mod::lemma_mod_division_less_than_divisor(m, b);
        vstd::arithmetic::div_mod::lemma_div_pos_is_pos(m, b);
        assert(q == -d);
        assert(q * b == -(b * d) && (q - 1) * b == -(b * d) - b) by (nonlinear_arith)
            requires
                q == -d,
        ;
        assert(q * b <= 0) by (nonlinear_arith)
            requires
                q <= 0,
                0 < b,
        ;
    }
}

/// Squaring a truncated quotient: `(a / b)^2 * b^2 <= a^2`.
pub proof fn lemma_div_trunc_sq(a: int, b: int)
    requires
        b > 0,
    ensures
        div_trunc(a, b) * div_trunc(a, b) * (b * b) <= a * a,
{
    lemma_div_trunc_facts(a, b);
    let q = div_trunc(a, b);
    if a >= 0 {
        assert(q * q * (b * b) <= a * a) by (nonlinear_arith)
            requires
                0 <= q * b <= a,
        ;
    } else {
        assert(q * q * (b * b) <= a * a) by (nonlinear_arith)
            requires
                a <= q * b <= 0,
        ;
    }
}

/// Dividing a value bounded by `b * cap` yields a quotient bounded by `cap`.
pub proof fn lemma_div_trunc_cap(a: int, b: int, cap: int)
    requires
        b > 0,
        cap >= 0,
        -(b * cap) <= a <= b * cap,
    ensures
        -cap <= div_trunc(a, b) <= cap,
{
    lemma_div_trunc_facts(a, b);
    let q = div_trunc(a, b);
    if a >= 0 {
        assert(q <= cap) by (nonlinear_arith)
            requires
                q * b <= a <= b * cap,
                b > 0,
        ;
    } else {
        assert(-cap <= q) by (nonlinear_arith)
            requires
                -(b * cap) <= a <= q * b,
                b > 0,
        ;
    }
}

/// A quotient is at least `k` whenever the dividend is at least `k * b`.
pub proof fn lemma_div_trunc_lower(a: int, b: int, k: int)
    requires
        b > 0,
        k >= 0,
        a >= k * b,
    ensures
        div_trunc(a, b) >= k,
{
    lemma_div_trunc_facts(a, b);
    let q = div_trunc(a, b);
    assert(q >= k) by (nonlinear_arith)
        requires
            k * b <= a < (q + 1) * b,
            b > 0,
            k >= 0,
    ;
}

/// Rescaling by `m / c` with `c` at least the magnitude caps the result's
/// magnitude at `m`.
pub proof fn lemma_rescale_cap(x: int, y: int, m: int, c: int)
    requires
        c > 0,
        m >= 0,
        norm_sq(x, y) <= c * c,
    ensures
        norm_sq(div_trunc(x * m, c), div_trunc(y * m, c)) <= m * m,
{
    let rx = div_trunc(x * m, c);
    let ry = div_trunc(y * m, c);
    lemma_div_trunc_sq(x * m, c);
    lemma_div_trunc_sq(y * m, c);
    assert((x * m) * (x * m) == x * x * (m * m)) by (nonlinear_arith);
    assert((y * m) * (y * m) == y * y * (m * m)) by (nonlinear_arith);
    assert((rx * rx + ry * ry) * (c * c) <= (x * x + y * y) * (m * m)) by (nonlinear_arith)
        requires
            rx * rx * (c * c) <= x * x * (m * m),
            ry * ry * (c * c) <= y * y * (m * m),
    ;
    assert((x * x + y * y) * (m * m) <= (c * c) * (m * m)) by (nonlinear_arith)
        requires
            x * x + y * y <= c * c,
            m * m >= 0,
    ;
    assert(c * c > 0) by (nonlinear_arith)
        requires
            c > 0,
    ;
    assert(rx * rx + ry * ry <= m * m) by (nonlinear_arith)
        requires
            (rx * rx + ry * ry) * (c * c) <= (c * c) * (m * m),
            c * c > 0,
    ;
}

/// `scaled_pair` caps the magnitude at `m` for any non-zero input.
pub proof fn lemma_scaled_pair_cap(x: int, y: int, m: int)
    requires
        m >= 0,
        norm_sq(x, y) > 0,
    ensures
        ({
            let (rx, ry) = scaled_pair(x, y, m);
            norm_sq(rx, ry) <= m * m
        }),
{
    let n = norm_sq(x, y) as nat;
    lemma_sqrt_ceil_bounds(n);
    let c = sqrt_ceil(n) as int;
    lemma_rescale_cap(x, y, m, c);
}

/// `limited_pair` always caps the magnitude at `m`.
pub proof fn lemma_limited_cap(x: int, y: int, m: int)
    requires
        m >= 0,
    ensures
        ({
            let (rx, ry) = limited_pair(x, y, m);
            norm_sq(rx, ry) <= m * m
        }),
{
    if norm_sq(x, y) <= m * m {
    } else {
        assert(norm_sq(x, y) > 0) by (nonlinear_arith)
            requires
                norm_sq(x, y) > m * m,
                m >= 0,
        ;
        lemma_scaled_pair_cap(x, y, m);
    }
}

/// Floor integer square root of `n`, by bisection.
pub fn isqrt_u64(n: u64) -> (r: u64)
    requires
        n < 0x4000_0000_0000_0000,
    ensures
        r == sqrt_floor(n as nat),
        r * r <= n < (r + 1) * (r + 1),
        r < 0x8000_0000,
{
    let mut lo: u64 = 0;
    let mut hi: u64 = 0x8000_0000;
    while lo + 1 < hi
        invariant
            lo < hi <= 0x8000_0000,
            lo * lo <= n,
            n < hi * hi,
        decreases hi - lo,
    {
        let mid: u64 = lo + (hi - lo) / 2;
        proof {
            lemma_square_bound(mid as int, 0x8000_0000);
        }
        if mid * mid <= n {
            lo = mid;
        } else {
            hi = mid;
        }
    }
    proof {
        lemma_sqrt_floor_unique(n as nat, lo as nat);
    }
    lo
}

/// Quotient of `a` by `b > 0`, rounded toward zero as Rust division rounds.
pub fn div_trunc_i64(a: i64, b: i64) -> (q: i64)
    requires
        b > 0,
        -0x4000_0000_0000_0000 < a < 0x4000_0000_0000_0000,
    ensures
        q == div_trunc(a as int, b as int),
{
    proof {
        lemma_div_trunc_facts(a as int, b as int);
    }
    if a >= 0 {
        ((a as u64) / (b as u64)) as i64
    } else {
        let m: u64 = (-a) as u64;
        -((m / (b as u64)) as i64)
    }
}

/// Returns `v` rescaled to magnitude at most `magnitude` (and, up to
/// truncation, exactly `magnitude`). Defined only for non-zero `v`; callers
/// guard with a neighbor-count or zero check first.
pub fn set_magnitude(v: Vec2, magnitude: i64) -> (r: Vec2)
    requires
        v.in_box(COORD_LIMIT as int),
        0 <= magnitude <= COORD_LIMIT,
        norm_sq(v.x as int, v.y as int) > 0,
    ensures
        (r.x as int, r.y as int) == scaled_pair(v.x as int, v.y as int, magnitude as int),
        norm_sq(r.x as int, r.y as int) <= magnitude * magnitude,
        r.in_box(magnitude as int),
{
    let ghost n = norm_sq(v.x as int, v.y as int) as nat;
    let c: i64 = v.mag_ceil();
    proof {
        lemma_sqrt_ceil_bounds(n);
        lemma_square_bound(v.x as int, COORD_LIMIT as int);
        lemma_square_bound(v.y as int, COORD_LIMIT as int);
        lemma_square_bound(magnitude as int, COORD_LIMIT as int);
        assert(v.x * magnitude <= COORD_LIMIT * COORD_LIMIT && -(COORD_LIMIT * COORD_LIMIT)
            <= v.x * magnitude) by (nonlinear_arith)
            requires
                -COORD_LIMIT <= v.x <= COORD_LIMIT,
                0 <= magnitude <= COORD_LIMIT,
        ;
        assert(v.y * magnitude <= COORD_LIMIT * COORD_LIMIT && -(COORD_LIMIT * COORD_LIMIT)
            <= v.y * magnitude) by (nonlinear_arith)
            requires
                -COORD_LIMIT <= v.y <= COORD_LIMIT,
                0 <= magnitude <= COORD_LIMIT,
        ;
        lemma_scaled_pair_cap(v.x as int, v.y as int, magnitude as int);
    }
    let r = Vec2 { x: div_trunc_i64(v.x * magnitude, c), y: div_trunc_i64(v.y * magnitude, c) };
    proof {
        lemma_coord_bound(r.x as int, r.y as int, magnitude as int);
    }
    r
}

/// Returns `v` unchanged if its magnitude is at most `max_magnitude`, else
/// `v` rescaled to magnitude at most `max_magnitude`.
pub fn limit_magnitude(v: Vec2, max_magnitude: i64) -> (r: Vec2)
    requires
        v.in_box(COORD_LIMIT as int),
        0 <= max_magnitude <= COORD_LIMIT,
    ensures
        (r.x as int, r.y as int) == limited_pair(v.x as int, v.y as int, max_magnitude as int),
        norm_sq(r.x as int, r.y as int) <= max_magnitude * max_magnitude,
{
    proof {
        lemma_square_bound(max_magnitude as int, COORD_LIMIT as int);
    }
    let msq: i64 = v.mag_sq();
    if msq > max_magnitude * max_magnitude {
        proof {
            assert(norm_sq(v.x as int, v.y as int) > 0) by (nonlinear_arith)
                requires
                    norm_sq(v.x as int, v.y as int) > max_magnitude * max_magnitude,
                    max_magnitude >= 0,
            ;
        }
        set_magnitude(v, max_magnitude)
    } else {
        v
    }
}

} // verus!
