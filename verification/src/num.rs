//! Fixed-point scalar arithmetic: the global magnitude limits, truncating
//! division, saturation, integer square roots, and the lemmas the physics
//! proofs rest on.

use vstd::prelude::*;

verus! {

/// Largest coordinate magnitude a chamber may occupy: every point of a
/// well-formed chamber lies within this box.
pub const MAX_COORD: i64 = 100_000_000;

/// Positions of live particles are saturated to this magnitude between the
/// passes of a tick; the boundary-correction pass then brings them back
/// inside their chamber.
pub const POS_LIMIT: i64 = 1_000_000_000_000_000;

/// Velocity components are saturated to this magnitude (units per second).
pub const SPEED_LIMIT: i64 = 1_000_000_000;

/// Largest particle radius.
pub const MAX_RADIUS: i64 = 1_000_000;

/// Largest particle mass.
pub const MAX_MASS: i64 = 1_000_000_000;

/// Largest time step a tick accepts, in milliseconds.
pub const MAX_DT_MS: u64 = 3_600_000;

/// Milliseconds per second: the divisor when integrating velocity over a step.
pub const MS_PER_SECOND: i64 = 1000;

/// Full scale of temperature and pressure values (permille).
pub const PERMILLE: u32 = 1000;

/// Magnitude of an integer.
pub open spec fn iabs(a: int) -> int {
    if a >= 0 {
        a
    } else {
        -a
    }
}

/// Truncating (round-toward-zero) division, the behaviour of `/` on the
/// machine's signed integers; `b` is expected positive.
pub open spec fn tdiv(a: int, b: int) -> int {
    if a >= 0 {
        a / b
    } else {
        -((-a) / b)
    }
}

/// Clamp `x` into `[lo, hi]`.
pub open spec fn spec_clamp(x: int, lo: int, hi: int) -> int {
    if x < lo {
        lo
    } else if x > hi {
        hi
    } else {
        x
    }
}

/// Saturate a wide intermediate value into `[-limit, limit]`.
pub fn clamp_wide(x: i128, limit: i64) -> (r: i64)
    requires
        limit >= 0,
    ensures
        r == spec_clamp(x as int, -(limit as int), limit as int),
{
    if x < -(limit as i128) {
        -limit
    } else if x > limit as i128 {
        limit
    } else {
        x as i64
    }
}

/// Truncating division on wide integers; `b` must be positive.
pub fn tdiv_i128(a: i128, b: i128) -> (r: i128)
    requires
        b > 0,
    ensures
        r == tdiv(a as int, b as int),
{
    a / b
}

/// Division rounding away from zero, used where a truncated result of zero
/// must not swallow a displacement; `b` is expected positive.
pub open spec fn tdiv_away(a: int, b: int) -> int {
    if a >= 0 {
        (a + b - 1) / b
    } else {
        -(((-a) + b - 1) / b)
    }
}

/// Away-from-zero division on wide integers; `b` must be positive.
pub fn div_away_i128(a: i128, b: i128) -> (r: i128)
    requires
        0 < b,
        -0x1000_0000_0000_0000_0000_0000_0000 <= a <= 0x1000_0000_0000_0000_0000_0000_0000,
        b <= 0x1000_0000_0000_0000_0000_0000_0000,
    ensures
        r == tdiv_away(a as int, b as int),
{
    if a >= 0 {
        (a + b - 1) / b
    } else {
        -((-a + b - 1) / b)
    }
}

/// The away-rounded quotient covers the dividend: its magnitude, scaled
/// back by the divisor, reaches the dividend's magnitude and overshoots it
/// by less than one divisor; it carries the dividend's sign.
pub proof fn lemma_tdiv_away_mag(a: int, b: int)
    requires
        b > 0,
    ensures
        iabs(tdiv_away(a, b)) * b >= iabs(a),
        iabs(tdiv_away(a, b)) * b <= iabs(a) + b - 1,
        a >= 0 ==> tdiv_away(a, b) >= 0,
        a <= 0 ==> tdiv_away(a, b) <= 0,
{
    let m = iabs(a);
    vstd::arithmetic::div_mod::lemma_fundamental_div_mod(m + b - 1, b);
    vstd::arithmetic::div_mod::lemma_mod_division_less_than_divisor(m + b - 1, b);
    vstd::arithmetic::div_mod::lemma_div_pos_is_pos(m + b - 1, b);
    let q = (m + b - 1) / b;
    assert(m + b - 1 == b * q + (m + b - 1) % b);
    assert(q * b == b * q) by (nonlinear_arith);
    if a == 0 {
        vstd::arithmetic::div_mod::lemma_basic_div(b - 1, b);
    }
    assert(iabs(tdiv_away(a, b)) == q);
}

/// The magnitude of a truncating quotient is no more than the magnitude of a
/// floor quotient of the absolute values, scaled back by the divisor.
pub proof fn lemma_tdiv_mag(a: int, b: int)
    requires
        b > 0,
    ensures
        iabs(tdiv(a, b)) * b <= iabs(a),
        iabs(tdiv(a, b)) <= iabs(a),
{
    let m = if a >= 0 { a } else { -a };
    vstd::arithmetic::div_mod::lemma_fundamental_div_mod(m, b);
    vstd::arithmetic::div_mod::lemma_mod_division_less_than_divisor(m, b);
    vstd::arithmetic::div_mod::lemma_div_pos_is_pos(m, b);
    let q = m / b;
    assert(m == b * q + m % b);
    assert(q * b == b * q) by (nonlinear_arith);
    assert(q * b <= m);
    assert(q <= q * b) by (nonlinear_arith)
        requires b >= 1, q >= 0;
    assert(iabs(tdiv(a, b)) == q);
}

/// Cauchy–Schwarz for two-component integer vectors.
pub proof fn lemma_cauchy_schwarz(ax: int, ay: int, bx: int, by: int)
    ensures
        (ax * bx + ay * by) * (ax * bx + ay * by) <= (ax * ax + ay * ay) * (bx * bx + by * by),
{
    let p = ax * bx;
    let q = ay * by;
    let r = ax * by;
    let s = ay * bx;
    assert((p + q) * (p + q) == p * p + 2 * (p * q) + q * q) by (nonlinear_arith);
    assert((r - s) * (r - s) == r * r - 2 * (r * s) + s * s) by (nonlinear_arith);
    assert(p * q == r * s) by (nonlinear_arith)
        requires p == ax * bx, q == ay * by, r == ax * by, s == ay * bx;
    assert((ax * ax + ay * ay) * (bx * bx + by * by) == (ax * ax) * (bx * bx) + (ax * ax) * (by
        * by) + (ay * ay) * (bx * bx) + (ay * ay) * (by * by)) by (nonlinear_arith);
    assert(p * p == (ax * ax) * (bx * bx)) by (nonlinear_arith)
        requires p == ax * bx;
    assert(q * q == (ay * ay) * (by * by)) by (nonlinear_arith)
        requires q == ay * by;
    assert(r * r == (ax * ax) * (by * by)) by (nonlinear_arith)
        requires r == ax * by;
    assert(s * s == (ay * ay) * (bx * bx)) by (nonlinear_arith)
        requires s == ay * bx;
    assert((r - s) * (r - s) >= 0) by (nonlinear_arith);
}

/// If a square is bounded by the square of a nonnegative bound, the value is
/// bounded in magnitude.
pub proof fn lemma_sq_bound(x: int, y: int)
    requires
        x * x <= y * y,
        y >= 0,
    ensures
        -y <= x <= y,
{
    if x > y {
        assert(x * x > y * y) by (nonlinear_arith)
            requires x > y, y >= 0;
    }
    if x < -y {
        assert(x * x > y * y) by (nonlinear_arith)
            requires x < -y, y >= 0;
    }
}

/// Squaring is monotone on nonnegative values.
pub proof fn lemma_sq_monotone(x: int, y: int)
    requires
        0 <= x <= y,
    ensures
        x * x <= y * y,
{
    assert(x * x <= y * y) by (nonlinear_arith)
        requires 0 <= x <= y;
}

/// `r` is the greatest nonnegative integer whose square stays within `n`.
pub open spec fn is_sqrt_floor(n: int, r: int) -> bool {
    r >= 0 && r * r <= n && n < (r + 1) * (r + 1)
}

/// The rounded-down integer square root, as a mathematical function.
pub open spec fn sqrt_floor(n: int) -> int {
    choose|r: int| is_sqrt_floor(n, r)
}

pub proof fn lemma_sqrt_floor_unique(n: int, a: int, b: int)
    requires
        is_sqrt_floor(n, a),
        is_sqrt_floor(n, b),
    ensures
        a == b,
{
    if a < b {
        assert((a + 1) * (a + 1) <= b * b) by (nonlinear_arith)
            requires 0 <= a + 1 <= b;
    }
    if b < a {
        assert((b + 1) * (b + 1) <= a * a) by (nonlinear_arith)
            requires 0 <= b + 1 <= a;
    }
}

/// A witness pins the value of `sqrt_floor`.
pub proof fn lemma_sqrt_floor_is(n: int, l: int)
    requires
        is_sqrt_floor(n, l),
    ensures
        sqrt_floor(n) == l,
{
    assert(exists|r: int| is_sqrt_floor(n, r));
    lemma_sqrt_floor_unique(n, l, sqrt_floor(n));
}

/// `r` is the least nonnegative integer whose square reaches `n`.
pub open spec fn is_sqrt_ceil(n: int, r: int) -> bool {
    r >= 0 && n <= r * r && (r == 0 || (r - 1) * (r - 1) < n)
}

/// The rounded-up integer square root, as a mathematical function.
pub open spec fn sqrt_ceil(n: int) -> int {
    choose|r: int| is_sqrt_ceil(n, r)
}

pub proof fn lemma_sqrt_ceil_unique(n: int, a: int, b: int)
    requires
        is_sqrt_ceil(n, a),
        is_sqrt_ceil(n, b),
    ensures
        a == b,
{
    if a < b {
        assert(a * a <= (b - 1) * (b - 1)) by (nonlinear_arith)
            requires 0 <= a <= b - 1;
        assert(b >= 1);
    }
    if b < a {
        assert(b * b <= (a - 1) * (a - 1)) by (nonlinear_arith)
            requires 0 <= b <= a - 1;
        assert(a >= 1);
    }
}

/// A witness pins the value of `sqrt_ceil`.
pub proof fn lemma_sqrt_ceil_is(n: int, l: int)
    requires
        is_sqrt_ceil(n, l),
    ensures
        sqrt_ceil(n) == l,
{
    assert(exists|r: int| is_sqrt_ceil(n, r));
    lemma_sqrt_ceil_unique(n, l, sqrt_ceil(n));
}

/// Truncating division leaves a remainder below the divisor, with the sign
/// of the dividend.
pub proof fn lemma_tdiv_rem(n: int, b: int)
    requires
        b > 0,
    ensures
        iabs(n - tdiv(n, b) * b) <= b - 1,
        n * (n - tdiv(n, b) * b) >= 0,
{
    let m = if n >= 0 { n } else { -n };
    vstd::arithmetic::div_mod::lemma_fundamental_div_mod(m, b);
    vstd::arithmetic::div_mod::lemma_mod_division_less_than_divisor(m, b);
    vstd::arithmetic::div_mod::lemma_div_pos_is_pos(m, b);
    let q = m / b;
    assert(m == b * q + m % b);
    if n >= 0 {
        assert(tdiv(n, b) * b == b * q) by (nonlinear_arith)
            requires tdiv(n, b) == q;
        assert(n - tdiv(n, b) * b == m % b);
        assert(n * (m % b) >= 0) by (nonlinear_arith)
            requires n >= 0, m % b >= 0;
    } else {
        assert(tdiv(n, b) * b == -(b * q)) by (nonlinear_arith)
            requires tdiv(n, b) == -q;
        assert(n - tdiv(n, b) * b == -(m % b));
        assert(n * (-(m % b)) >= 0) by (nonlinear_arith)
            requires n <= 0, m % b >= 0;
    }
}

/// A rounded-up square root exists for every nonnegative integer.
pub proof fn lemma_sqrt_ceil_exists(n: int)
    requires
        n >= 0,
    ensures
        is_sqrt_ceil(n, sqrt_ceil(n)),
    decreases n,
{
    if n == 0 {
        assert(is_sqrt_ceil(0, 0));
    } else {
        lemma_sqrt_ceil_exists(n - 1);
        let r0 = sqrt_ceil(n - 1);
        if r0 * r0 >= n {
            assert(is_sqrt_ceil(n, r0));
        } else {
            assert((r0 + 1 - 1) * (r0 + 1 - 1) < n);
            assert(n <= (r0 + 1) * (r0 + 1)) by (nonlinear_arith)
                requires r0 >= 0, n <= r0 * r0 + 1;
            assert(is_sqrt_ceil(n, r0 + 1));
        }
    }
    assert(exists|r: int| is_sqrt_ceil(n, r));
    lemma_sqrt_ceil_unique(
        n,
        choose|r: int| is_sqrt_ceil(n, r),
        sqrt_ceil(n),
    );
}

/// A vector rescaled to target length `t` by its rounded-up length `l`
/// loses at most the rounding of the root and one unit per component: its
/// squared length, scaled by `l * l`, stays within `4 * t * l * l` of
/// `t * t * (l - 1) * (l - 1)`.
pub proof fn lemma_scaled_len_lower(dx: int, dy: int, t: int, l: int, rx: int, ry: int)
    requires
        t >= 0,
        l >= 1,
        dx * dx + dy * dy <= l * l,
        (l - 1) * (l - 1) < dx * dx + dy * dy,
        rx == tdiv(dx * t, l),
        ry == tdiv(dy * t, l),
    ensures
        (rx * rx + ry * ry) * (l * l) >= t * t * ((l - 1) * (l - 1)) - 4 * t * (l * l),
{
    let nx = dx * t;
    let ny = dy * t;
    assert(dx * dx >= 0) by (nonlinear_arith);
    assert(dy * dy >= 0) by (nonlinear_arith);
    lemma_tdiv_rem(nx, l);
    lemma_tdiv_rem(ny, l);
    let ex = nx - rx * l;
    let ey = ny - ry * l;
    assert(rx * rx * (l * l) >= nx * nx - 2 * (nx * ex)) by (nonlinear_arith)
        requires rx * l == nx - ex;
    assert(ry * ry * (l * l) >= ny * ny - 2 * (ny * ey)) by (nonlinear_arith)
        requires ry * l == ny - ey;
    assert(nx * ex <= iabs(nx) * (l - 1)) by (nonlinear_arith)
        requires
            nx * ex >= 0,
            iabs(ex) <= l - 1,
            iabs(nx) == if nx >= 0 { nx } else { -nx },
            iabs(ex) == if ex >= 0 { ex } else { -ex },
    ;
    assert(ny * ey <= iabs(ny) * (l - 1)) by (nonlinear_arith)
        requires
            ny * ey >= 0,
            iabs(ey) <= l - 1,
            iabs(ny) == if ny >= 0 { ny } else { -ny },
            iabs(ey) == if ey >= 0 { ey } else { -ey },
    ;
    assert(iabs(nx) <= l * t) by (nonlinear_arith)
        requires
            nx == dx * t,
            t >= 0,
            dx * dx <= l * l,
            l >= 1,
            iabs(nx) == if nx >= 0 { nx } else { -nx },
    ;
    assert(iabs(ny) <= l * t) by (nonlinear_arith)
        requires
            ny == dy * t,
            t >= 0,
            dy * dy <= l * l,
            l >= 1,
            iabs(ny) == if ny >= 0 { ny } else { -ny },
    ;
    assert((rx * rx + ry * ry) * (l * l) == rx * rx * (l * l) + ry * ry * (l * l))
        by (nonlinear_arith);
    assert(nx * nx + ny * ny == (dx * dx + dy * dy) * (t * t)) by (nonlinear_arith)
        requires nx == dx * t, ny == dy * t;
    assert((dx * dx + dy * dy) * (t * t) >= ((l - 1) * (l - 1)) * (t * t)) by (nonlinear_arith)
        requires dx * dx + dy * dy > (l - 1) * (l - 1);
    assert(2 * (iabs(nx) * (l - 1)) + 2 * (iabs(ny) * (l - 1)) <= 4 * t * (l * l))
        by (nonlinear_arith)
        requires
            iabs(nx) <= l * t,
            iabs(ny) <= l * t,
            l >= 1,
            t >= 0,
            iabs(nx) >= 0,
            iabs(ny) >= 0,
    ;
    assert(t * t * ((l - 1) * (l - 1)) == ((l - 1) * (l - 1)) * (t * t)) by (nonlinear_arith);
}

/// One component of a vector scaled by `k` over a bound `lu` of its length
/// stays within `k` in magnitude.
pub proof fn lemma_scaled_component(off: int, k: int, lu: int, l2: int)
    requires
        k >= 0,
        lu >= 1,
        off * off <= l2,
        l2 <= lu * lu,
    ensures
        iabs(tdiv(off * k, lu)) <= k,
{
    let t = tdiv(off * k, lu);
    lemma_tdiv_mag(off * k, lu);
    assert(iabs(off * k) == iabs(off) * k) by (nonlinear_arith)
        requires k >= 0;
    lemma_sq_bound(off, lu);
    assert(iabs(off) * k <= lu * k) by (nonlinear_arith)
        requires iabs(off) <= lu, k >= 0;
    assert(iabs(t) * lu <= lu * k);
    if iabs(t) > k {
        assert(iabs(t) * lu > k * lu) by (nonlinear_arith)
            requires iabs(t) > k, lu >= 1;
        assert(k * lu == lu * k) by (nonlinear_arith);
    }
}

/// A vector scaled to target length `k` by the rounded-up length bound `lu`
/// of its own length lands within the disc of radius `k`.
pub proof fn lemma_scaled_len(offx: int, offy: int, k: int, lu: int, tx: int, ty: int)
    requires
        k >= 0,
        lu >= 1,
        offx * offx + offy * offy <= lu * lu,
        tx == tdiv(offx * k, lu),
        ty == tdiv(offy * k, lu),
    ensures
        tx * tx + ty * ty <= k * k,
{
    lemma_tdiv_mag(offx * k, lu);
    lemma_tdiv_mag(offy * k, lu);
    assert(iabs(offx * k) == iabs(offx) * k) by (nonlinear_arith)
        requires k >= 0;
    assert(iabs(offy * k) == iabs(offy) * k) by (nonlinear_arith)
        requires k >= 0;
    // Square the per-component magnitude bounds.
    assert(tx * tx * (lu * lu) <= (offx * offx) * (k * k)) by (nonlinear_arith)
        requires
            iabs(tx) * lu <= iabs(offx) * k,
            lu >= 1,
            k >= 0,
            iabs(tx) == if tx >= 0 { tx } else { -tx },
            iabs(offx) == if offx >= 0 { offx } else { -offx },
    ;
    assert(ty * ty * (lu * lu) <= (offy * offy) * (k * k)) by (nonlinear_arith)
        requires
            iabs(ty) * lu <= iabs(offy) * k,
            lu >= 1,
            k >= 0,
            iabs(ty) == if ty >= 0 { ty } else { -ty },
            iabs(offy) == if offy >= 0 { offy } else { -offy },
    ;
    assert((tx * tx + ty * ty) * (lu * lu) <= (offx * offx + offy * offy) * (k * k))
        by (nonlinear_arith)
        requires
            tx * tx * (lu * lu) <= (offx * offx) * (k * k),
            ty * ty * (lu * lu) <= (offy * offy) * (k * k),
    ;
    assert((offx * offx + offy * offy) * (k * k) <= (lu * lu) * (k * k)) by (nonlinear_arith)
        requires
            offx * offx + offy * offy <= lu * lu,
            k * k >= 0,
    ;
    assert(k * k >= 0) by (nonlinear_arith);
    if tx * tx + ty * ty > k * k {
        assert((tx * tx + ty * ty) * (lu * lu) > (k * k) * (lu * lu)) by (nonlinear_arith)
            requires
                tx * tx + ty * ty > k * k,
                lu >= 1,
        ;
        assert((k * k) * (lu * lu) == (lu * lu) * (k * k)) by (nonlinear_arith);
    }
}

/// Floor integer square root: the greatest `r` with `r * r <= n`.
pub fn isqrt_floor(n: u128) -> (r: u128)
    ensures
        r * r <= n,
        n < (r + 1) * (r + 1),
        r < 0x1_0000_0000_0000_0000,
{
    let mut lo: u128 = 0;
    let mut hi: u128 = if n < 0xffff_ffff_ffff_ffff { n + 1 } else { 0x1_0000_0000_0000_0000 };
    proof {
        if n < 0xffff_ffff_ffff_ffff {
            assert((n + 1) * (n + 1) > n) by (nonlinear_arith);
        } else {
            assert((0x1_0000_0000_0000_0000 as int) * (0x1_0000_0000_0000_0000 as int) > n);
        }
    }
    // Invariant: lo * lo <= n < hi * hi.
    while lo + 1 < hi
        invariant
            lo < hi,
            lo * lo <= n,
            n < hi * hi,
            hi <= 0x1_0000_0000_0000_0000,
        decreases hi - lo,
    {
        let mid: u128 = lo + (hi - lo) / 2;
        assert(mid * mid < 0x1_0000_0000_0000_0000_0000_0000_0000_0000) by (nonlinear_arith)
            requires mid < 0x1_0000_0000_0000_0000;
        if mid * mid <= n {
            lo = mid;
        } else {
            hi = mid;
        }
    }
    lo
}

/// Ceiling integer square root: the least `r` with `n <= r * r`.
pub fn isqrt_ceil(n: u128) -> (r: u128)
    ensures
        n <= r * r,
        r > 0 ==> (r - 1) * (r - 1) < n,
        r <= 0x1_0000_0000_0000_0000,
{
    let f = isqrt_floor(n);
    if f * f == n {
        proof {
            if f > 0 {
                assert((f - 1) * (f - 1) < f * f) by (nonlinear_arith)
                    requires f > 0;
            }
        }
        f
    } else {
        f + 1
    }
}

} // verus!
