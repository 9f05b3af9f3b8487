//! Pairwise collision and reaction resolution.
//!
//! Non-reacting overlapping pairs exchange an impulse along their line of
//! centres and are pushed apart; reacting pairs are consumed and replaced by
//! their products, subject to the chamber conditions and the capacity
//! governor.

use vstd::prelude::*;
use crate::num::{iabs, tdiv, spec_clamp, clamp_wide, tdiv_i128, lemma_tdiv_mag,
    lemma_cauchy_schwarz, lemma_sq_bound, sqrt_floor, lemma_sqrt_floor_is, MAX_MASS, MAX_RADIUS,
    POS_LIMIT, SPEED_LIMIT};
use crate::vec2::{Vec2i, len2, bounded, scale_to_length};
use crate::chamber::Chamber;
use crate::config::{ReactionInfo, ReactionSpec, SimConfig, config_rule, config_wf, kind_wf,
    within_windows};
use crate::particle::{Particle, ReactionEvent, SoundEffectEvent, live_count,
    lemma_live_count_bounds, lemma_live_count_push, lemma_live_count_update, particle_wf,
    store_wf};
use crate::rng::{SimRng, dir_from_bits};

verus! {

/// The larger of two integers.
pub open spec fn int_max(a: int, b: int) -> int {
    if a >= b {
        a
    } else {
        b
    }
}

/// A reaction rule fires under the given chamber conditions.
pub open spec fn reaction_fires(r: ReactionSpec, t: int, p: int) -> bool {
    r.reacts && within_windows(r, t, p)
}

/// No particle slot takes part in more than one reacting interaction.
pub open spec fn reactions_disjoint(evs: Seq<ReactionEvent>) -> bool {
    forall|i: int, j: int|
        #![trigger evs[i], evs[j]]
        0 <= i < j < evs.len() ==> evs[i].slot_a != evs[j].slot_a && evs[i].slot_a
            != evs[j].slot_b && evs[i].slot_b != evs[j].slot_a && evs[i].slot_b != evs[j].slot_b
}

/// A recorded reaction names two distinct slots that were live at the start
/// of the pass, shared a chamber, and whose pair rule fired under that
/// chamber's conditions.
pub open spec fn reaction_admissible(
    c: SimConfig,
    chambers: Seq<Chamber>,
    parts0: Seq<Particle>,
    ev: ReactionEvent,
) -> bool {
    &&& ev.slot_a < parts0.len()
    &&& ev.slot_b < parts0.len()
    &&& ev.slot_a != ev.slot_b
    &&& {
        let a = parts0[ev.slot_a as int];
        let b = parts0[ev.slot_b as int];
        &&& a.alive
        &&& b.alive
        &&& a.chamber_id == b.chamber_id
        &&& a.chamber_id < chambers.len()
        &&& reaction_fires(
            config_rule(c, a.type_index as int, b.type_index as int),
            chambers[a.chamber_id as int].temperature as int,
            chambers[a.chamber_id as int].pressure as int,
        )
    }
}

/// How a collision pass may transform the store: it only appends new
/// particles, and in the pre-existing slots it only changes velocity,
/// position, the reacted flag, and liveness (never reviving a dead slot).
pub open spec fn pass_evolved(
    parts0: Seq<Particle>,
    parts: Seq<Particle>,
    n_kinds: int,
    chambers: Seq<Chamber>,
) -> bool {
    &&& parts.len() >= parts0.len()
    &&& store_wf(parts, n_kinds, chambers)
    &&& forall|k: int|
        0 <= k < parts0.len() ==> {
            let p0 = parts0[k];
            let p = #[trigger] parts[k];
            &&& p.type_index == p0.type_index
            &&& p.chamber_id == p0.chamber_id
            &&& p.radius == p0.radius
            &&& p.mass == p0.mass
            &&& p.selected == p0.selected
            &&& p.decay_elapsed_ms == p0.decay_elapsed_ms
            &&& (p.alive ==> p0.alive)
        }
}

/// Every recorded reaction is admissible and its slots carry the reacted
/// mark in the current store.
pub open spec fn events_marked(
    evs: Seq<ReactionEvent>,
    c: SimConfig,
    chambers: Seq<Chamber>,
    parts0: Seq<Particle>,
    parts: Seq<Particle>,
) -> bool {
    forall|e: int|
        0 <= e < evs.len() ==> {
            let ev = #[trigger] evs[e];
            &&& reaction_admissible(c, chambers, parts0, ev)
            &&& ev.slot_a < parts.len()
            &&& ev.slot_b < parts.len()
            &&& parts[ev.slot_a as int].reacted
            &&& parts[ev.slot_b as int].reacted
        }
}

/// A particle is destroyed by the pairwise pass only by taking part in a
/// recorded reaction: colliding pairs whose rule does not fire are never
/// consumed.
pub open spec fn killed_are_reacted(
    parts0: Seq<Particle>,
    parts: Seq<Particle>,
    evs: Seq<ReactionEvent>,
) -> bool {
    forall|k: int|
        0 <= k < parts0.len() && parts0[k].alive && !(#[trigger] parts[k]).alive ==> exists|e: int|
            0 <= e < evs.len() && ((#[trigger] evs[e]).slot_a == k || evs[e].slot_b == k)
}

/// Copy a list of type indices.
fn copy_indices(v: &Vec<usize>) -> (r: Vec<usize>)
    ensures
        r@ == v@,
{
    let mut r: Vec<usize> = Vec::new();
    let mut i: usize = 0;
    while i < v.len()
        invariant
            i <= v@.len(),
            r@ =~= v@.subrange(0, i as int),
        decreases v@.len() - i,
    {
        r.push(v[i]);
        i = i + 1;
    }
    proof {
        assert(r@ =~= v@);
    }
    r
}

/// The speed a velocity vector represents, rounded down and held to the
/// velocity range.
pub open spec fn spec_speed(v: Vec2i) -> int {
    if sqrt_floor(len2(v)) <= SPEED_LIMIT as int {
        sqrt_floor(len2(v))
    } else {
        SPEED_LIMIT as int
    }
}

/// Compute the speed a velocity vector represents.
pub fn speed_of(v: Vec2i) -> (s: i64)
    requires
        bounded(v, SPEED_LIMIT as int),
    ensures
        s == spec_speed(v),
        0 <= s <= SPEED_LIMIT,
        s * s <= len2(v),
{
    proof {
        assert(0 <= (v.x as int) * (v.x as int) <= 1_000_000_000_000_000_000)
            by (nonlinear_arith)
            requires -1_000_000_000 <= v.x as int <= 1_000_000_000;
        assert(0 <= (v.y as int) * (v.y as int) <= 1_000_000_000_000_000_000)
            by (nonlinear_arith)
            requires -1_000_000_000 <= v.y as int <= 1_000_000_000;
    }
    let l2: i128 = (v.x as i128) * (v.x as i128) + (v.y as i128) * (v.y as i128);
    let s_u: u128 = crate::num::isqrt_floor(l2 as u128);
    proof {
        lemma_sqrt_floor_is(l2 as int, s_u as int);
    }
    if s_u > SPEED_LIMIT as u128 {
        proof {
            crate::num::lemma_sq_monotone(SPEED_LIMIT as int, s_u as int);
        }
        SPEED_LIMIT
    } else {
        s_u as i64
    }
}

/// Whether a list of type indices holds the given index.
fn contains_idx(v: &Vec<usize>, x: usize) -> (r: bool)
    ensures
        r == v@.contains(x),
{
    let mut i: usize = 0;
    while i < v.len()
        invariant
            i <= v@.len(),
            forall|k: int| 0 <= k < i ==> v@[k] != x,
        decreases v@.len() - i,
    {
        if v[i] == x {
            return true;
        }
        i = i + 1;
    }
    false
}

/// Displace a point, saturating each coordinate to the position range.
pub fn shift_clamped(p: Vec2i, dx: i64, dy: i64) -> (r: Vec2i)
    requires
        bounded(p, POS_LIMIT as int),
        -10_000_000_000_000 <= dx <= 10_000_000_000_000,
        -10_000_000_000_000 <= dy <= 10_000_000_000_000,
    ensures
        r.x == spec_clamp(p.x + dx, -(POS_LIMIT as int), POS_LIMIT as int),
        r.y == spec_clamp(p.y + dy, -(POS_LIMIT as int), POS_LIMIT as int),
        bounded(r, POS_LIMIT as int),
{
    Vec2i {
        x: clamp_wide(p.x as i128 + dx as i128, POS_LIMIT),
        y: clamp_wide(p.y as i128 + dy as i128, POS_LIMIT),
    }
}

/// The offset used for collision geometry: two exactly coincident bodies
/// fall back to the positive-y unit offset rather than dividing by zero.
pub open spec fn eff_off(off: Vec2i) -> Vec2i {
    if off.x == 0 && off.y == 0 {
        Vec2i { x: 0, y: 1 }
    } else {
        off
    }
}

/// Relative velocity of `a` with respect to `b`, projected on the offset.
pub open spec fn rel_dot(va: Vec2i, vb: Vec2i, o: Vec2i) -> int {
    (va.x - vb.x) * o.x + (va.y - vb.y) * o.y
}

/// The shared impulse of an elastic bounce along the line of centres,
/// x component.
pub open spec fn impulse_x(ma: int, mb: int, va: Vec2i, vb: Vec2i, off: Vec2i) -> int {
    let o = eff_off(off);
    tdiv(o.x * rel_dot(va, vb, o), len2(o) * (ma + mb))
}

/// The shared impulse of an elastic bounce along the line of centres,
/// y component.
pub open spec fn impulse_y(ma: int, mb: int, va: Vec2i, vb: Vec2i, off: Vec2i) -> int {
    let o = eff_off(off);
    tdiv(o.y * rel_dot(va, vb, o), len2(o) * (ma + mb))
}

/// Post-bounce velocity of particle `a`, per component, saturated to the
/// velocity range.
pub open spec fn bounce_va_x(ma: int, mb: int, va: Vec2i, vb: Vec2i, off: Vec2i) -> int {
    spec_clamp(
        va.x - 2 * mb * impulse_x(ma, mb, va, vb, off),
        -(SPEED_LIMIT as int),
        SPEED_LIMIT as int,
    )
}

pub open spec fn bounce_va_y(ma: int, mb: int, va: Vec2i, vb: Vec2i, off: Vec2i) -> int {
    spec_clamp(
        va.y - 2 * mb * impulse_y(ma, mb, va, vb, off),
        -(SPEED_LIMIT as int),
        SPEED_LIMIT as int,
    )
}

pub open spec fn bounce_vb_x(ma: int, mb: int, va: Vec2i, vb: Vec2i, off: Vec2i) -> int {
    spec_clamp(
        vb.x + 2 * ma * impulse_x(ma, mb, va, vb, off),
        -(SPEED_LIMIT as int),
        SPEED_LIMIT as int,
    )
}

pub open spec fn bounce_vb_y(ma: int, mb: int, va: Vec2i, vb: Vec2i, off: Vec2i) -> int {
    spec_clamp(
        vb.y + 2 * ma * impulse_y(ma, mb, va, vb, off),
        -(SPEED_LIMIT as int),
        SPEED_LIMIT as int,
    )
}

/// Moderate speeds under which a bounce is exact: no component of the
/// updated velocities can reach the saturation limit.
pub const BOUNCE_EXACT_SPEED: i64 = 125_000_000;

/// The impulse component, squared and scaled by the squared mass sum, is
/// bounded by the squared relative speed.
proof fn lemma_impulse_sq_bound(
    rx: int,
    ry: int,
    ox: int,
    oy: int,
    m: int,
    oc: int,
    d: int,
    l2: int,
    dp: int,
)
    requires
        1 <= m,
        1 <= l2,
        l2 == ox * ox + oy * oy,
        oc * oc <= l2,
        d == rx * ox + ry * oy,
        dp == tdiv(oc * d, l2 * m),
    ensures
        dp * dp * (m * m) <= rx * rx + ry * ry,
{
    let rel2 = rx * rx + ry * ry;
    assert(l2 * m >= 1) by (nonlinear_arith)
        requires l2 >= 1, m >= 1;
    assert(d * d >= 0) by (nonlinear_arith);
    assert(dp * dp * (m * m) >= 0) by (nonlinear_arith);
    lemma_tdiv_mag(oc * d, l2 * m);
    // Square the magnitude bound on the quotient.
    assert(dp * dp * ((l2 * m) * (l2 * m)) <= (oc * d) * (oc * d)) by (nonlinear_arith)
        requires
            iabs(dp) * (l2 * m) <= iabs(oc * d),
            l2 * m >= 1,
            iabs(dp) == if dp >= 0 { dp } else { -dp },
            iabs(oc * d) == if oc * d >= 0 { oc * d } else { -(oc * d) },
    ;
    lemma_cauchy_schwarz(rx, ry, ox, oy);
    assert((oc * d) * (oc * d) == (oc * oc) * (d * d)) by (nonlinear_arith);
    assert((oc * oc) * (d * d) <= l2 * (d * d)) by (nonlinear_arith)
        requires oc * oc <= l2, d * d >= 0;
    assert(d * d <= rel2 * l2) by (nonlinear_arith)
        requires d * d <= (rx * rx + ry * ry) * (ox * ox + oy * oy), l2 == ox * ox + oy * oy, rel2 == rx * rx + ry * ry;
    assert(l2 * (d * d) <= l2 * (rel2 * l2)) by (nonlinear_arith)
        requires d * d <= rel2 * l2, l2 >= 1;
    assert(dp * dp * ((l2 * m) * (l2 * m)) == (dp * dp * (m * m)) * (l2 * l2)) by (nonlinear_arith);
    assert(l2 * (rel2 * l2) == rel2 * (l2 * l2)) by (nonlinear_arith);
    assert((dp * dp * (m * m)) * (l2 * l2) <= rel2 * (l2 * l2));
    assert(dp * dp * (m * m) <= rel2) by (nonlinear_arith)
        requires
            (dp * dp * (m * m)) * (l2 * l2) <= rel2 * (l2 * l2),
            l2 >= 1,
            dp * dp * (m * m) >= 0,
    ;
    assert(dp * dp * (m * m) >= 0) by (nonlinear_arith);
}

/// Resolve a non-reacting collision as an elastic bounce: both velocities
/// receive opposite impulses along the line of centres, saturated to the
/// velocity range. At moderate speeds no saturation occurs and momentum is
/// conserved exactly, in each axis.
pub fn resolve_bounce(ma: i64, mb: i64, va: Vec2i, vb: Vec2i, off: Vec2i) -> (r: (Vec2i, Vec2i))
    requires
        1 <= ma <= MAX_MASS,
        1 <= mb <= MAX_MASS,
        bounded(va, SPEED_LIMIT as int),
        bounded(vb, SPEED_LIMIT as int),
        bounded(off, 2 * MAX_RADIUS as int),
    ensures
        r.0.x == bounce_va_x(ma as int, mb as int, va, vb, off),
        r.0.y == bounce_va_y(ma as int, mb as int, va, vb, off),
        r.1.x == bounce_vb_x(ma as int, mb as int, va, vb, off),
        r.1.y == bounce_vb_y(ma as int, mb as int, va, vb, off),
        bounded(r.0, SPEED_LIMIT as int),
        bounded(r.1, SPEED_LIMIT as int),
        bounded(va, BOUNCE_EXACT_SPEED as int) && bounded(vb, BOUNCE_EXACT_SPEED as int) ==> {
            &&& ma * r.0.x + mb * r.1.x == ma * va.x + mb * vb.x
            &&& ma * r.0.y + mb * r.1.y == ma * va.y + mb * vb.y
        },
{
    let (ox, oy): (i64, i64) = if off.x == 0 && off.y == 0 {
        (0, 1)
    } else {
        (off.x, off.y)
    };
    let relx: i128 = va.x as i128 - vb.x as i128;
    let rely: i128 = va.y as i128 - vb.y as i128;
    proof {
        lemma_bounce_ranges(ox as int, oy as int, relx as int, rely as int, ma as int, mb as int);
    }
    let d: i128 = relx * (ox as i128) + rely * (oy as i128);
    let l2: i128 = (ox as i128) * (ox as i128) + (oy as i128) * (oy as i128);
    let msum: i128 = ma as i128 + mb as i128;
    let denom: i128 = l2 * msum;
    let dpx: i128 = tdiv_i128((ox as i128) * d, denom);
    let dpy: i128 = tdiv_i128((oy as i128) * d, denom);
    proof {
        lemma_tdiv_mag((ox as int) * (d as int), denom as int);
        lemma_tdiv_mag((oy as int) * (d as int), denom as int);
        assert(iabs(dpx as int) <= 16_000_000_000_000_000_000_000);
        assert(iabs(dpy as int) <= 16_000_000_000_000_000_000_000);
        assert(iabs(2 * (mb as int) * (dpx as int)) <= 64_000_000_000_000_000_000_000_000_000_000)
            by (nonlinear_arith)
            requires
                1 <= mb <= 1_000_000_000,
                iabs(dpx as int) <= 16_000_000_000_000_000_000_000,
                iabs(dpx as int) == if dpx as int >= 0 { dpx as int } else { -(dpx as int) },
        ;
        assert(iabs(2 * (mb as int) * (dpy as int)) <= 64_000_000_000_000_000_000_000_000_000_000)
            by (nonlinear_arith)
            requires
                1 <= mb <= 1_000_000_000,
                iabs(dpy as int) <= 16_000_000_000_000_000_000_000,
                iabs(dpy as int) == if dpy as int >= 0 { dpy as int } else { -(dpy as int) },
        ;
        assert(iabs(2 * (ma as int) * (dpx as int)) <= 64_000_000_000_000_000_000_000_000_000_000)
            by (nonlinear_arith)
            requires
                1 <= ma <= 1_000_000_000,
                iabs(dpx as int) <= 16_000_000_000_000_000_000_000,
                iabs(dpx as int) == if dpx as int >= 0 { dpx as int } else { -(dpx as int) },
        ;
        assert(iabs(2 * (ma as int) * (dpy as int)) <= 64_000_000_000_000_000_000_000_000_000_000)
            by (nonlinear_arith)
            requires
                1 <= ma <= 1_000_000_000,
                iabs(dpy as int) <= 16_000_000_000_000_000_000_000,
                iabs(dpy as int) == if dpy as int >= 0 { dpy as int } else { -(dpy as int) },
        ;
    }
    let nax: i64 = clamp_wide(va.x as i128 - 2 * (mb as i128) * dpx, SPEED_LIMIT);
    let nay: i64 = clamp_wide(va.y as i128 - 2 * (mb as i128) * dpy, SPEED_LIMIT);
    let nbx: i64 = clamp_wide(vb.x as i128 + 2 * (ma as i128) * dpx, SPEED_LIMIT);
    let nby: i64 = clamp_wide(vb.y as i128 + 2 * (ma as i128) * dpy, SPEED_LIMIT);
    proof {
        if bounded(va, BOUNCE_EXACT_SPEED as int) && bounded(vb, BOUNCE_EXACT_SPEED as int) {
            lemma_bounce_exact(
                relx as int,
                rely as int,
                ox as int,
                oy as int,
                ma as int,
                mb as int,
                d as int,
                l2 as int,
                dpx as int,
            );
            lemma_bounce_exact(
                relx as int,
                rely as int,
                ox as int,
                oy as int,
                ma as int,
                mb as int,
                d as int,
                l2 as int,
                dpy as int,
            );
            assert(nax as int == va.x - 2 * (mb as int) * (dpx as int));
            assert(nay as int == va.y - 2 * (mb as int) * (dpy as int));
            assert(nbx as int == vb.x + 2 * (ma as int) * (dpx as int));
            assert(nby as int == vb.y + 2 * (ma as int) * (dpy as int));
            assert((ma as int) * (va.x - 2 * (mb as int) * (dpx as int)) + (mb as int) * (vb.x + 2
                * (ma as int) * (dpx as int)) == (ma as int) * va.x + (mb as int) * vb.x)
                by (nonlinear_arith);
            assert((ma as int) * (va.y - 2 * (mb as int) * (dpy as int)) + (mb as int) * (vb.y + 2
                * (ma as int) * (dpy as int)) == (ma as int) * va.y + (mb as int) * vb.y)
                by (nonlinear_arith);
        }
    }
    (Vec2i { x: nax, y: nay }, Vec2i { x: nbx, y: nby })
}

/// Target centre distance after separating an overlapping pair: one percent
/// beyond the sum of the radii.
pub open spec fn separation_target(ra: int, rb: int) -> int {
    tdiv(101 * (ra + rb) + 99, 100)
}

/// The displacement added to `a` (and subtracted from `b`) to separate an
/// overlapping pair, per component: the offset rescaled to the target
/// distance — rounding the target up and the components away from zero, so
/// the displacement never rounds away entirely — minus the offset itself.
pub open spec fn push_x(off: Vec2i, ra: int, rb: int) -> int {
    let o = eff_off(off);
    crate::num::tdiv_away(o.x * separation_target(ra, rb), crate::num::sqrt_ceil(len2(o))) - off.x
}

pub open spec fn push_y(off: Vec2i, ra: int, rb: int) -> int {
    let o = eff_off(off);
    crate::num::tdiv_away(o.y * separation_target(ra, rb), crate::num::sqrt_ceil(len2(o))) - off.y
}

/// The pushed pair no longer overlaps: the centre offset after both bodies
/// take their displacement exceeds the radius sum.
pub open spec fn separated_after(off: Vec2i, p: Vec2i, ra: int, rb: int) -> bool {
    let nx = off.x + 2 * p.x;
    let ny = off.y + 2 * p.y;
    nx * nx + ny * ny > (ra + rb) * (ra + rb)
}

/// The rescaled offset of an overlapping pair strictly clears the radius
/// sum: the target length exceeds the radius sum and neither the root bound
/// nor the away-rounding can lose that whole margin.
proof fn lemma_push_separates(ox: int, oy: int, s: int, t: int, l: int, sx: int, sy: int)
    requires
        2 <= s,
        s + 1 <= t,
        1 <= l <= s,
        1 <= ox * ox + oy * oy,
        ox * ox + oy * oy <= l * l,
        l >= 2 ==> (l - 1) * (l - 1) < ox * ox + oy * oy,
        sx == crate::num::tdiv_away(ox * t, l),
        sy == crate::num::tdiv_away(oy * t, l),
    ensures
        (2 * sx - ox) * (2 * sx - ox) + (2 * sy - oy) * (2 * sy - oy) > s * s,
{
    let d2 = ox * ox + oy * oy;
    let nx = 2 * sx - ox;
    let ny = 2 * sy - oy;
    crate::num::lemma_tdiv_away_mag(ox * t, l);
    crate::num::lemma_tdiv_away_mag(oy * t, l);
    assert(iabs(ox * t) == iabs(ox) * t) by (nonlinear_arith)
        requires
            t >= 0,
            iabs(ox) == if ox >= 0 { ox } else { -ox },
            iabs(ox * t) == if ox * t >= 0 { ox * t } else { -(ox * t) },
    ;
    assert(iabs(oy * t) == iabs(oy) * t) by (nonlinear_arith)
        requires
            t >= 0,
            iabs(oy) == if oy >= 0 { oy } else { -oy },
            iabs(oy * t) == if oy * t >= 0 { oy * t } else { -(oy * t) },
    ;
    if ox >= 0 {
        assert(ox * t >= 0) by (nonlinear_arith)
            requires ox >= 0, t >= 0;
    } else {
        assert(ox * t <= 0) by (nonlinear_arith)
            requires ox <= 0, t >= 0;
    }
    assert(iabs(nx) * l >= iabs(ox) * (2 * t - l)) by (nonlinear_arith)
        requires
            nx == 2 * sx - ox,
            iabs(sx) * l >= iabs(ox) * t,
            ox >= 0 ==> sx >= 0,
            ox < 0 ==> sx <= 0,
            1 <= l <= t,
            iabs(nx) == if nx >= 0 { nx } else { -nx },
            iabs(sx) == if sx >= 0 { sx } else { -sx },
            iabs(ox) == if ox >= 0 { ox } else { -ox },
    ;
    if oy >= 0 {
        assert(oy * t >= 0) by (nonlinear_arith)
            requires oy >= 0, t >= 0;
    } else {
        assert(oy * t <= 0) by (nonlinear_arith)
            requires oy <= 0, t >= 0;
    }
    assert(iabs(ny) * l >= iabs(oy) * (2 * t - l)) by (nonlinear_arith)
        requires
            ny == 2 * sy - oy,
            iabs(sy) * l >= iabs(oy) * t,
            oy >= 0 ==> sy >= 0,
            oy < 0 ==> sy <= 0,
            1 <= l <= t,
            iabs(ny) == if ny >= 0 { ny } else { -ny },
            iabs(sy) == if sy >= 0 { sy } else { -sy },
            iabs(oy) == if oy >= 0 { oy } else { -oy },
    ;
    assert(nx * nx * (l * l) >= (ox * ox) * ((2 * t - l) * (2 * t - l))) by (nonlinear_arith)
        requires
            iabs(nx) * l >= iabs(ox) * (2 * t - l),
            2 * t - l >= 0,
            l >= 1,
            iabs(nx) == if nx >= 0 { nx } else { -nx },
            iabs(ox) == if ox >= 0 { ox } else { -ox },
    ;
    assert(ny * ny * (l * l) >= (oy * oy) * ((2 * t - l) * (2 * t - l))) by (nonlinear_arith)
        requires
            iabs(ny) * l >= iabs(oy) * (2 * t - l),
            2 * t - l >= 0,
            l >= 1,
            iabs(ny) == if ny >= 0 { ny } else { -ny },
            iabs(oy) == if oy >= 0 { oy } else { -oy },
    ;
    assert((nx * nx + ny * ny) * (l * l) >= d2 * ((2 * t - l) * (2 * t - l))) by (nonlinear_arith)
        requires
            nx * nx * (l * l) >= (ox * ox) * ((2 * t - l) * (2 * t - l)),
            ny * ny * (l * l) >= (oy * oy) * ((2 * t - l) * (2 * t - l)),
            d2 == ox * ox + oy * oy,
    ;
    if l == 1 {
        assert(nx * nx + ny * ny >= (2 * t - 1) * (2 * t - 1)) by (nonlinear_arith)
            requires
                (nx * nx + ny * ny) * (l * l) >= d2 * ((2 * t - l) * (2 * t - l)),
                l == 1,
                d2 >= 1,
                (2 * t - 1) * (2 * t - 1) >= 0,
        ;
        assert((2 * t - 1) * (2 * t - 1) > s * s) by (nonlinear_arith)
            requires 2 * t - 1 >= s + 1, s >= 0;
    } else {
        assert((l - 1) * (2 * t - l) >= l * s) by (nonlinear_arith)
            requires 2 <= l <= s, t >= s + 1;
        assert(((l - 1) * (l - 1)) * ((2 * t - l) * (2 * t - l)) >= (l * l) * (s * s))
            by (nonlinear_arith)
            requires (l - 1) * (2 * t - l) >= l * s, l >= 2, s >= 0, t >= s + 1;
        assert((2 * t - l) * (2 * t - l) >= 1) by (nonlinear_arith)
            requires 2 * t - l >= 1;
        assert(d2 * ((2 * t - l) * (2 * t - l)) >= (l * l) * (s * s) + 1) by (nonlinear_arith)
            requires
                d2 >= (l - 1) * (l - 1) + 1,
                ((l - 1) * (l - 1)) * ((2 * t - l) * (2 * t - l)) >= (l * l) * (s * s),
                (2 * t - l) * (2 * t - l) >= 1,
                (l - 1) * (l - 1) >= 0,
        ;
        assert(nx * nx + ny * ny > s * s) by (nonlinear_arith)
            requires
                (nx * nx + ny * ny) * (l * l) >= (l * l) * (s * s) + 1,
                l >= 1,
        ;
    }
}

/// Compute the separating displacement of an overlapping pair. The pair,
/// once pushed, strictly clears the radius sum.
pub fn separation_push(off: Vec2i, ra: i64, rb: i64) -> (p: Vec2i)
    requires
        bounded(off, 2 * MAX_RADIUS as int),
        len2(off) <= (ra + rb) * (ra + rb),
        1 <= ra <= MAX_RADIUS,
        1 <= rb <= MAX_RADIUS,
    ensures
        p.x == push_x(off, ra as int, rb as int),
        p.y == push_y(off, ra as int, rb as int),
        bounded(p, 5_000_000),
        separated_after(off, p, ra as int, rb as int),
{
    let (ox, oy): (i64, i64) = if off.x == 0 && off.y == 0 {
        (0, 1)
    } else {
        (off.x, off.y)
    };
    let target: i64 = (101 * (ra + rb) + 99) / 100;
    proof {
        vstd::arithmetic::div_mod::lemma_div_is_ordered(
            100 * ((ra + rb) as int + 1),
            101 * ((ra + rb) as int) + 99,
            100,
        );
        vstd::arithmetic::div_mod::lemma_div_multiples_vanish((ra + rb) as int + 1, 100);
        assert(target as int >= (ra + rb) as int + 1);
    }
    proof {
        assert(0 <= (ox as int) * (ox as int) <= 4_000_000_000_000) by (nonlinear_arith)
            requires -2_000_000 <= ox as int <= 2_000_000;
        assert(0 <= (oy as int) * (oy as int) <= 4_000_000_000_000) by (nonlinear_arith)
            requires -2_000_000 <= oy as int <= 2_000_000;
    }
    let l2: i128 = (ox as i128) * (ox as i128) + (oy as i128) * (oy as i128);
    proof {
        assert(l2 as int >= 1) by (nonlinear_arith)
            requires
                !(ox == 0 && oy == 0),
                l2 as int == (ox as int) * (ox as int) + (oy as int) * (oy as int),
                (ox as int) * (ox as int) >= 0,
                (oy as int) * (oy as int) >= 0,
        ;
    }
    let lu_u: u128 = crate::num::isqrt_ceil(l2 as u128);
    proof {
        if lu_u == 0 {
            assert(l2 <= 0);
        }
        crate::num::lemma_sqrt_ceil_is(l2 as int, lu_u as int);
    }
    let lu: i128 = lu_u as i128;
    proof {
        assert(-5_000_000_000_000 <= (ox as int) * (target as int) <= 5_000_000_000_000)
            by (nonlinear_arith)
            requires -2_000_000 <= ox as int <= 2_000_000, 0 <= target as int <= 2_100_000;
        assert(-5_000_000_000_000 <= (oy as int) * (target as int) <= 5_000_000_000_000)
            by (nonlinear_arith)
            requires -2_000_000 <= oy as int <= 2_000_000, 0 <= target as int <= 2_100_000;
    }
    let tx: i128 = crate::num::div_away_i128((ox as i128) * (target as i128), lu);
    let ty: i128 = crate::num::div_away_i128((oy as i128) * (target as i128), lu);
    proof {
        crate::num::lemma_tdiv_away_mag((ox as int) * (target as int), lu as int);
        crate::num::lemma_tdiv_away_mag((oy as int) * (target as int), lu as int);
        lemma_sq_bound(ox as int, lu as int);
        lemma_sq_bound(oy as int, lu as int);
        assert(iabs((ox as int) * (target as int)) == iabs(ox as int) * (target as int))
            by (nonlinear_arith)
            requires
                target >= 0,
                iabs(ox as int) == if ox >= 0 { ox as int } else { -(ox as int) },
                iabs((ox as int) * (target as int)) == if (ox as int) * (target as int) >= 0 {
                    (ox as int) * (target as int)
                } else {
                    -((ox as int) * (target as int))
                },
        ;
        assert(iabs((oy as int) * (target as int)) == iabs(oy as int) * (target as int))
            by (nonlinear_arith)
            requires
                target >= 0,
                iabs(oy as int) == if oy >= 0 { oy as int } else { -(oy as int) },
                iabs((oy as int) * (target as int)) == if (oy as int) * (target as int) >= 0 {
                    (oy as int) * (target as int)
                } else {
                    -((oy as int) * (target as int))
                },
        ;
        assert(iabs(tx as int) <= target as int) by (nonlinear_arith)
            requires
                iabs(tx as int) * (lu as int) <= iabs(ox as int) * (target as int) + lu as int
                    - 1,
                iabs(ox as int) <= lu as int,
                lu as int >= 1,
                target as int >= 0,
                iabs(tx as int) >= 0,
        ;
        assert(iabs(ty as int) <= target as int) by (nonlinear_arith)
            requires
                iabs(ty as int) * (lu as int) <= iabs(oy as int) * (target as int) + lu as int
                    - 1,
                iabs(oy as int) <= lu as int,
                lu as int >= 1,
                target as int >= 0,
                iabs(ty as int) >= 0,
        ;
        // Strict separation after the push.
        let s = (ra + rb) as int;
        if off.x == 0 && off.y == 0 {
            assert((ox as int) * (target as int) == 0 && (oy as int) * (target as int)
                == target as int) by (nonlinear_arith)
                requires ox as int == 0, oy as int == 1;
            assert(lu as int == 1) by (nonlinear_arith)
                requires
                    (lu as int) * (lu as int) >= 1,
                    lu as int == 0 || ((lu as int) - 1) * ((lu as int) - 1) < 1,
                    lu as int >= 0,
            ;
            vstd::arithmetic::div_mod::lemma_div_basics(target as int);
            vstd::arithmetic::div_mod::lemma_div_basics(0);
            assert(tx as int == 0 && ty as int == target as int);
            assert((2 * (target as int)) * (2 * (target as int)) > s * s) by (nonlinear_arith)
                requires target as int >= s + 1, s >= 2;
        } else {
            assert(lu as int <= s) by {
                if lu as int > s {
                    assert((lu as int - 1) * (lu as int - 1) >= s * s) by (nonlinear_arith)
                        requires lu as int - 1 >= s, s >= 0;
                }
            }
            lemma_push_separates(
                ox as int,
                oy as int,
                s,
                target as int,
                lu as int,
                tx as int,
                ty as int,
            );
        }
    }
    Vec2i { x: (tx as i64) - off.x, y: (ty as i64) - off.y }
}

/// The perfectly-inelastic merge velocity of a reacting pair: total momentum
/// over total mass, truncated toward zero, per component.
pub open spec fn merge_vx(ma: int, va: Vec2i, mb: int, vb: Vec2i) -> int {
    tdiv(ma * va.x + mb * vb.x, ma + mb)
}

pub open spec fn merge_vy(ma: int, va: Vec2i, mb: int, vb: Vec2i) -> int {
    tdiv(ma * va.y + mb * vb.y, ma + mb)
}

/// Compute the merge velocity of a reacting pair. The result never exceeds
/// the speed range of the inputs.
pub fn merge_velocity(ma: i64, va: Vec2i, mb: i64, vb: Vec2i) -> (r: Vec2i)
    requires
        1 <= ma <= MAX_MASS,
        1 <= mb <= MAX_MASS,
        bounded(va, SPEED_LIMIT as int),
        bounded(vb, SPEED_LIMIT as int),
    ensures
        r.x == merge_vx(ma as int, va, mb as int, vb),
        r.y == merge_vy(ma as int, va, mb as int, vb),
        bounded(r, SPEED_LIMIT as int),
{
    proof {
        lemma_mass_scale(ma as int, va.x as int);
        lemma_mass_scale(ma as int, va.y as int);
        lemma_mass_scale(mb as int, vb.x as int);
        lemma_mass_scale(mb as int, vb.y as int);
    }
    let numx: i128 = (ma as i128) * (va.x as i128) + (mb as i128) * (vb.x as i128);
    let numy: i128 = (ma as i128) * (va.y as i128) + (mb as i128) * (vb.y as i128);
    let msum: i128 = ma as i128 + mb as i128;
    let rx: i128 = tdiv_i128(numx, msum);
    let ry: i128 = tdiv_i128(numy, msum);
    proof {
        lemma_avg_in_range(ma as int, va.x as int, mb as int, vb.x as int, rx as int);
        lemma_avg_in_range(ma as int, va.y as int, mb as int, vb.y as int, ry as int);
    }
    Vec2i { x: rx as i64, y: ry as i64 }
}

/// A mass-scaled velocity component stays within the mass-scaled speed
/// range.
proof fn lemma_mass_scale(m: int, v: int)
    requires
        1 <= m <= MAX_MASS,
        -(SPEED_LIMIT as int) <= v <= SPEED_LIMIT as int,
    ensures
        -(m * SPEED_LIMIT) <= m * v <= m * SPEED_LIMIT,
        -1_000_000_000_000_000_000 <= m * v <= 1_000_000_000_000_000_000,
{
    assert(-(m * 1_000_000_000) <= m * v <= m * 1_000_000_000 && -1_000_000_000_000_000_000 <= m
        * v <= 1_000_000_000_000_000_000) by (nonlinear_arith)
        requires 1 <= m <= 1_000_000_000, -1_000_000_000 <= v <= 1_000_000_000;
}

/// A mass-weighted average of bounded components is bounded the same way.
proof fn lemma_avg_in_range(ma: int, a: int, mb: int, b: int, t: int)
    requires
        1 <= ma <= MAX_MASS,
        1 <= mb <= MAX_MASS,
        -(SPEED_LIMIT as int) <= a <= SPEED_LIMIT as int,
        -(SPEED_LIMIT as int) <= b <= SPEED_LIMIT as int,
        t == tdiv(ma * a + mb * b, ma + mb),
    ensures
        -(SPEED_LIMIT as int) <= t <= SPEED_LIMIT as int,
{
    let num = ma * a + mb * b;
    let m = ma + mb;
    lemma_mass_scale(ma, a);
    lemma_mass_scale(mb, b);
    lemma_tdiv_mag(num, m);
    assert(iabs(num) <= m * (SPEED_LIMIT as int)) by (nonlinear_arith)
        requires
            num == ma * a + mb * b,
            -(ma * 1_000_000_000) <= ma * a <= ma * 1_000_000_000,
            -(mb * 1_000_000_000) <= mb * b <= mb * 1_000_000_000,
            m == ma + mb,
            iabs(num) == if num >= 0 { num } else { -num },
    ;
    if iabs(t) > SPEED_LIMIT as int {
        assert(iabs(t) * m > 1_000_000_000 * m) by (nonlinear_arith)
            requires iabs(t) > 1_000_000_000, m >= 2;
        assert(m * 1_000_000_000 == 1_000_000_000 * m) by (nonlinear_arith);
    }
}

/// Whether two circular bodies overlap: centre distance within the sum of
/// the radii.
pub open spec fn overlapping(pa: Vec2i, pb: Vec2i, ra: int, rb: int) -> bool {
    crate::vec2::dist2(pa, pb) <= (ra + rb) * (ra + rb)
}

/// Test circular overlap of two bodies. When they overlap, their offset fits
/// well inside the component range of a collision offset.
pub fn test_overlap(pa: Vec2i, pb: Vec2i, ra: i64, rb: i64) -> (r: bool)
    requires
        bounded(pa, crate::num::POS_LIMIT as int),
        bounded(pb, crate::num::POS_LIMIT as int),
        1 <= ra <= MAX_RADIUS,
        1 <= rb <= MAX_RADIUS,
    ensures
        r == overlapping(pa, pb, ra as int, rb as int),
        r ==> bounded(Vec2i { x: (pa.x - pb.x) as i64, y: (pa.y - pb.y) as i64 }, 2 * MAX_RADIUS as int),
        r ==> -2 * MAX_RADIUS <= pa.x - pb.x <= 2 * MAX_RADIUS && -2 * MAX_RADIUS <= pa.y - pb.y
            <= 2 * MAX_RADIUS,
{
    let dx: i128 = pa.x as i128 - pb.x as i128;
    let dy: i128 = pa.y as i128 - pb.y as i128;
    proof {
        assert(0 <= dx * dx <= 4_000_000_000_000_000_000_000_000_000_000) by (nonlinear_arith)
            requires -2_000_000_000_000_000 <= dx <= 2_000_000_000_000_000;
        assert(0 <= dy * dy <= 4_000_000_000_000_000_000_000_000_000_000) by (nonlinear_arith)
            requires -2_000_000_000_000_000 <= dy <= 2_000_000_000_000_000;
        assert(0 <= ((ra + rb) as int) * (((ra + rb)) as int) <= 4_000_000_000_000)
            by (nonlinear_arith)
            requires 2 <= ra + rb <= 2_000_000;
    }
    let d2: i128 = dx * dx + dy * dy;
    let rsum: i128 = (ra + rb) as i128;
    let hit = d2 <= rsum * rsum;
    proof {
        if hit {
            lemma_sq_bound(dx as int, (ra + rb) as int);
            lemma_sq_bound(dy as int, (ra + rb) as int);
        }
    }
    hit
}

/// Ranges of the intermediate bounce quantities, wide enough for the
/// machine arithmetic.
proof fn lemma_bounce_ranges(ox: int, oy: int, relx: int, rely: int, ma: int, mb: int)
    requires
        -2_000_000 <= ox <= 2_000_000,
        -2_000_000 <= oy <= 2_000_000,
        -2_000_000_000 <= relx <= 2_000_000_000,
        -2_000_000_000 <= rely <= 2_000_000_000,
        1 <= ma <= MAX_MASS,
        1 <= mb <= MAX_MASS,
        !(ox == 0 && oy == 0),
    ensures
        -4_000_000_000_000_000 <= relx * ox <= 4_000_000_000_000_000,
        -4_000_000_000_000_000 <= rely * oy <= 4_000_000_000_000_000,
        0 <= ox * ox <= 4_000_000_000_000,
        0 <= oy * oy <= 4_000_000_000_000,
        -8_000_000_000_000_000 <= relx * ox + rely * oy <= 8_000_000_000_000_000,
        1 <= ox * ox + oy * oy <= 8_000_000_000_000,
        1 <= (ox * ox + oy * oy) * (ma + mb) <= 16_000_000_000_000_000_000_000,
        -16_000_000_000_000_000_000_000 <= ox * (relx * ox + rely * oy)
            <= 16_000_000_000_000_000_000_000,
        -16_000_000_000_000_000_000_000 <= oy * (relx * ox + rely * oy)
            <= 16_000_000_000_000_000_000_000,
{
    assert(-4_000_000_000_000_000 <= relx * ox <= 4_000_000_000_000_000) by (nonlinear_arith)
        requires -2_000_000 <= ox <= 2_000_000, -2_000_000_000 <= relx <= 2_000_000_000;
    assert(-4_000_000_000_000_000 <= rely * oy <= 4_000_000_000_000_000) by (nonlinear_arith)
        requires -2_000_000 <= oy <= 2_000_000, -2_000_000_000 <= rely <= 2_000_000_000;
    assert(0 <= ox * ox <= 4_000_000_000_000) by (nonlinear_arith)
        requires -2_000_000 <= ox <= 2_000_000;
    assert(0 <= oy * oy <= 4_000_000_000_000) by (nonlinear_arith)
        requires -2_000_000 <= oy <= 2_000_000;
    assert(ox * ox + oy * oy >= 1) by (nonlinear_arith)
        requires !(ox == 0 && oy == 0), ox * ox >= 0, oy * oy >= 0;
    assert(1 <= (ox * ox + oy * oy) * (ma + mb) <= 16_000_000_000_000_000_000_000)
        by (nonlinear_arith)
        requires 1 <= ox * ox + oy * oy <= 8_000_000_000_000, 2 <= ma + mb <= 2_000_000_000;
    let d = relx * ox + rely * oy;
    assert(-16_000_000_000_000_000_000_000 <= ox * d <= 16_000_000_000_000_000_000_000)
        by (nonlinear_arith)
        requires -2_000_000 <= ox <= 2_000_000, -8_000_000_000_000_000 <= d <= 8_000_000_000_000_000;
    assert(-16_000_000_000_000_000_000_000 <= oy * d <= 16_000_000_000_000_000_000_000)
        by (nonlinear_arith)
        requires -2_000_000 <= oy <= 2_000_000, -8_000_000_000_000_000 <= d <= 8_000_000_000_000_000;
}

/// At moderate speeds the impulse keeps both updated velocity components
/// strictly inside the saturation range.
proof fn lemma_bounce_exact(
    rx: int,
    ry: int,
    ox: int,
    oy: int,
    ma: int,
    mb: int,
    d: int,
    l2: int,
    dp: int,
)
    requires
        -250_000_000 <= rx <= 250_000_000,
        -250_000_000 <= ry <= 250_000_000,
        1 <= ma <= MAX_MASS,
        1 <= mb <= MAX_MASS,
        1 <= l2,
        l2 == ox * ox + oy * oy,
        d == rx * ox + ry * oy,
        dp == tdiv(ox * d, l2 * (ma + mb)) || dp == tdiv(oy * d, l2 * (ma + mb)),
    ensures
        -750_000_000 <= 2 * mb * dp <= 750_000_000,
        -750_000_000 <= 2 * ma * dp <= 750_000_000,
{
    let m = ma + mb;
    assert(ox * ox >= 0) by (nonlinear_arith);
    assert(oy * oy >= 0) by (nonlinear_arith);
    if dp == tdiv(ox * d, l2 * m) {
        lemma_impulse_sq_bound(rx, ry, ox, oy, m, ox, d, l2, dp);
    } else {
        lemma_impulse_sq_bound(rx, ry, ox, oy, m, oy, d, l2, dp);
    }
    let rel2 = rx * rx + ry * ry;
    assert(rel2 >= 0) by (nonlinear_arith)
        requires rel2 == rx * rx + ry * ry;
    assert(rel2 <= 125_000_000_000_000_000) by (nonlinear_arith)
        requires
            rel2 == rx * rx + ry * ry,
            -250_000_000 <= rx <= 250_000_000,
            -250_000_000 <= ry <= 250_000_000,
    ;
    // Scale the impulse by either mass: each is below the mass sum.
    assert((2 * mb * dp) * (2 * mb * dp) <= 4 * rel2) by (nonlinear_arith)
        requires
            dp * dp * (m * m) <= rel2,
            1 <= mb <= m,
            rel2 >= 0,
    ;
    assert((2 * ma * dp) * (2 * ma * dp) <= 4 * rel2) by (nonlinear_arith)
        requires
            dp * dp * (m * m) <= rel2,
            1 <= ma <= m,
            rel2 >= 0,
    ;
    assert(4 * rel2 <= 750_000_000 * 750_000_000);
    lemma_sq_bound(2 * mb * dp, 750_000_000);
    lemma_sq_bound(2 * ma * dp, 750_000_000);
}

/// Two slots of a store that the pairwise pass must resolve: both live,
/// neither already reacted, in the same chamber, and overlapping.
pub open spec fn interacting_pair(parts: Seq<Particle>, i: int, j: int) -> bool {
    &&& parts[i].alive
    &&& parts[j].alive
    &&& !parts[i].reacted
    &&& !parts[j].reacted
    &&& parts[i].chamber_id == parts[j].chamber_id
    &&& overlapping(
        parts[i].position,
        parts[j].position,
        parts[i].radius as int,
        parts[j].radius as int,
    )
}

/// No two slots of the store interact.
pub open spec fn quiescent(parts: Seq<Particle>) -> bool {
    forall|i: int, j: int|
        #![trigger parts[i], parts[j]]
        0 <= i < j < parts.len() ==> !interacting_pair(parts, i, j)
}

/// The store holds exactly one pair, and it interacts.
pub open spec fn lone_interacting_pair(parts: Seq<Particle>) -> bool {
    parts.len() == 2 && interacting_pair(parts, 0, 1)
}

/// The offset from `b`'s centre to `a`'s centre.
pub open spec fn pair_off(a: Particle, b: Particle) -> Vec2i {
    Vec2i { x: (a.position.x - b.position.x) as i64, y: (a.position.y - b.position.y) as i64 }
}

/// The two collision sounds an overlapping pair emits.
pub open spec fn pair_sounds(a: Particle, b: Particle, sounds: Seq<SoundEffectEvent>) -> bool {
    &&& sounds.len() == 2
    &&& sounds[0] == (SoundEffectEvent { note: a.type_index, location: a.position })
    &&& sounds[1] == (SoundEffectEvent { note: b.type_index, location: b.position })
}

/// What the pass does to a lone interacting pair whose rule does not fire:
/// an elastic bounce with the exact shared impulse, a separating push, two
/// collision sounds, and no reaction.
pub open spec fn lone_pair_bounced(
    parts0: Seq<Particle>,
    parts: Seq<Particle>,
    sounds: Seq<SoundEffectEvent>,
    evs: Seq<ReactionEvent>,
) -> bool {
    let a = parts0[0];
    let b = parts0[1];
    let off = pair_off(a, b);
    &&& parts.len() == 2
    &&& evs.len() == 0
    &&& pair_sounds(a, b, sounds)
    &&& parts[0].alive
    &&& parts[1].alive
    &&& !parts[0].reacted
    &&& !parts[1].reacted
    &&& parts[0].velocity.x == bounce_va_x(a.mass as int, b.mass as int, a.velocity, b.velocity, off)
    &&& parts[0].velocity.y == bounce_va_y(a.mass as int, b.mass as int, a.velocity, b.velocity, off)
    &&& parts[1].velocity.x == bounce_vb_x(a.mass as int, b.mass as int, a.velocity, b.velocity, off)
    &&& parts[1].velocity.y == bounce_vb_y(a.mass as int, b.mass as int, a.velocity, b.velocity, off)
    &&& parts[0].position.x == spec_clamp(
        a.position.x + push_x(off, a.radius as int, b.radius as int),
        -(POS_LIMIT as int),
        POS_LIMIT as int,
    )
    &&& parts[0].position.y == spec_clamp(
        a.position.y + push_y(off, a.radius as int, b.radius as int),
        -(POS_LIMIT as int),
        POS_LIMIT as int,
    )
    &&& parts[1].position.x == spec_clamp(
        b.position.x - push_x(off, a.radius as int, b.radius as int),
        -(POS_LIMIT as int),
        POS_LIMIT as int,
    )
    &&& parts[1].position.y == spec_clamp(
        b.position.y - push_y(off, a.radius as int, b.radius as int),
        -(POS_LIMIT as int),
        POS_LIMIT as int,
    )
    &&& (bounded(a.position, POS_LIMIT as int - 10_000_000) && bounded(
        b.position,
        POS_LIMIT as int - 10_000_000,
    ) ==> !overlapping(
        parts[0].position,
        parts[1].position,
        a.radius as int,
        b.radius as int,
    ))
}

/// What the pass does to a lone interacting pair whose rule fires: one
/// recorded reaction, each input surviving exactly when its type is among
/// the products, two collision sounds, and — when the sole product is the
/// first input's own type — that survivor continuing at the momentum-merge
/// velocity.
pub open spec fn lone_pair_reacted(
    c: SimConfig,
    parts0: Seq<Particle>,
    parts: Seq<Particle>,
    sounds: Seq<SoundEffectEvent>,
    evs: Seq<ReactionEvent>,
) -> bool {
    let a = parts0[0];
    let b = parts0[1];
    let rule = config_rule(c, a.type_index as int, b.type_index as int);
    &&& parts.len() >= 2
    &&& evs.len() == 1
    &&& evs[0].slot_a == 0
    &&& evs[0].slot_b == 1
    &&& pair_sounds(a, b, sounds)
    &&& parts[0].alive == rule.products.contains(a.type_index)
    &&& parts[1].alive == rule.products.contains(b.type_index)
    &&& parts[0].reacted
    &&& parts[1].reacted
    &&& (rule.products == seq![a.type_index] && a.type_index != b.type_index ==> {
        &&& parts.len() == 2
        &&& !parts[1].alive
        &&& parts[0].velocity.x == merge_vx(a.mass as int, a.velocity, b.mass as int, b.velocity)
        &&& parts[0].velocity.y == merge_vy(a.mass as int, a.velocity, b.mass as int, b.velocity)
        &&& parts[0].position == a.position
    })
    &&& (rule.products.contains(a.type_index) && rule.products.contains(b.type_index) ==> {
        let off = pair_off(a, b);
        &&& parts[0].position.x == spec_clamp(
            a.position.x + push_x(off, a.radius as int, b.radius as int),
            -(POS_LIMIT as int),
            POS_LIMIT as int,
        )
        &&& parts[0].position.y == spec_clamp(
            a.position.y + push_y(off, a.radius as int, b.radius as int),
            -(POS_LIMIT as int),
            POS_LIMIT as int,
        )
        &&& parts[1].position.x == spec_clamp(
            b.position.x - push_x(off, a.radius as int, b.radius as int),
            -(POS_LIMIT as int),
            POS_LIMIT as int,
        )
        &&& parts[1].position.y == spec_clamp(
            b.position.y - push_y(off, a.radius as int, b.radius as int),
            -(POS_LIMIT as int),
            POS_LIMIT as int,
        )
        &&& (bounded(a.position, POS_LIMIT as int - 10_000_000) && bounded(
            b.position,
            POS_LIMIT as int - 10_000_000,
        ) ==> !overlapping(
            parts[0].position,
            parts[1].position,
            a.radius as int,
            b.radius as int,
        ))
    })
}

/// The one interaction of a lone interacting pair, resolved per its rule
/// under its chamber's conditions.
pub open spec fn lone_pair_resolved(
    c: SimConfig,
    chambers: Seq<Chamber>,
    parts0: Seq<Particle>,
    parts: Seq<Particle>,
    sounds: Seq<SoundEffectEvent>,
    evs: Seq<ReactionEvent>,
) -> bool {
    let a = parts0[0];
    let b = parts0[1];
    let ch = chambers[a.chamber_id as int];
    if reaction_fires(
        config_rule(c, a.type_index as int, b.type_index as int),
        ch.temperature as int,
        ch.pressure as int,
    ) {
        lone_pair_reacted(c, parts0, parts, sounds, evs)
    } else {
        lone_pair_bounced(parts0, parts, sounds, evs)
    }
}

/// The pairwise pass of a tick: test every unordered pair of live particles
/// sharing a chamber, emit a collision sound for each overlap, and resolve
/// it — as a reaction when the pair's rule fires under the chamber's
/// conditions, as an elastic bounce with separation otherwise. A particle
/// takes part in at most one reacting interaction; reaction products are
/// appended, subject to the capacity governor, and never interact within the
/// same pass. A product whose table radius cannot fit the chamber is
/// skipped like a capacity refusal — a configuration no built-in table
/// produces.
#[verifier::rlimit(60)]
pub fn pairwise_pass(
    config: &SimConfig,
    chambers: &Vec<Chamber>,
    particles: &mut Vec<Particle>,
    live: &mut usize,
    rng: &mut SimRng,
) -> (r: (Vec<SoundEffectEvent>, Vec<ReactionEvent>))
    requires
        config_wf(*config),
        store_wf(old(particles)@, config.kinds@.len() as int, chambers@),
        *old(live) == live_count(old(particles)@),
    ensures
        pass_evolved(old(particles)@, final(particles)@, config.kinds@.len() as int, chambers@),
        *final(live) == live_count(final(particles)@),
        live_count(final(particles)@) <= int_max(
            live_count(old(particles)@),
            config.cap as int,
        ),
        reactions_disjoint(r.1@),
        events_marked(r.1@, *config, chambers@, old(particles)@, final(particles)@),
        killed_are_reacted(old(particles)@, final(particles)@, r.1@),
        r.0@.len() % 2 == 0,
        forall|e: int|
            0 <= e < r.0@.len() ==> exists|k: int|
                0 <= k < old(particles)@.len() && (#[trigger] r.0@[e]).note == old(
                    particles,
                )@[k].type_index,
        quiescent(old(particles)@) ==> final(particles)@ == old(particles)@ && r.0@.len() == 0
            && r.1@.len() == 0,
        lone_interacting_pair(old(particles)@) ==> lone_pair_resolved(
            *config,
            chambers@,
            old(particles)@,
            final(particles)@,
            r.0@,
            r.1@,
        ),
{
    let ghost parts0 = particles@;
    let ghost k_kinds = config.kinds@.len() as int;
    let n0 = particles.len();
    let mut sounds: Vec<SoundEffectEvent> = Vec::new();
    let mut reactions: Vec<ReactionEvent> = Vec::new();
    proof {
        lemma_live_count_bounds(particles@);
    }
    let mut i: usize = 0;
    while i < n0
        invariant
            config_wf(*config),
            k_kinds == config.kinds@.len(),
            n0 == parts0.len(),
            parts0 == old(particles)@,
            pass_evolved(parts0, particles@, k_kinds, chambers@),
            *live == live_count(particles@),
            live_count(particles@) <= int_max(live_count(parts0), config.cap as int),
            reactions_disjoint(reactions@),
            events_marked(reactions@, *config, chambers@, parts0, particles@),
            killed_are_reacted(parts0, particles@, reactions@),
            i <= n0,
            sounds@.len() % 2 == 0,
            forall|e: int|
                0 <= e < sounds@.len() ==> exists|k: int|
                    0 <= k < parts0.len() && (#[trigger] sounds@[e]).note
                        == parts0[k].type_index,
            quiescent(parts0) ==> particles@ == parts0 && sounds@.len() == 0 && reactions@.len()
                == 0,
            lone_interacting_pair(parts0) && i == 0 ==> particles@ == parts0 && sounds@.len()
                == 0 && reactions@.len() == 0,
            lone_interacting_pair(parts0) && i >= 1 ==> lone_pair_resolved(
                *config,
                chambers@,
                parts0,
                particles@,
                sounds@,
                reactions@,
            ),
        decreases n0 - i,
    {
        let mut j: usize = i + 1;
        while j < n0
            invariant
                config_wf(*config),
                k_kinds == config.kinds@.len(),
                n0 == parts0.len(),
                parts0 == old(particles)@,
                pass_evolved(parts0, particles@, k_kinds, chambers@),
                *live == live_count(particles@),
                live_count(particles@) <= int_max(live_count(parts0), config.cap as int),
                reactions_disjoint(reactions@),
                events_marked(reactions@, *config, chambers@, parts0, particles@),
                killed_are_reacted(parts0, particles@, reactions@),
                i < n0,
                i < j <= n0,
                sounds@.len() % 2 == 0,
                forall|e: int|
                    0 <= e < sounds@.len() ==> exists|k: int|
                        0 <= k < parts0.len() && (#[trigger] sounds@[e]).note
                            == parts0[k].type_index,
                quiescent(parts0) ==> particles@ == parts0 && sounds@.len() == 0
                    && reactions@.len() == 0,
                lone_interacting_pair(parts0) && i == 0 && j == 1 ==> particles@ == parts0
                    && sounds@.len() == 0 && reactions@.len() == 0,
                lone_interacting_pair(parts0) && (i >= 1 || j >= 2) ==> lone_pair_resolved(
                    *config,
                    chambers@,
                    parts0,
                    particles@,
                    sounds@,
                    reactions@,
                ),
            decreases n0 - j,
        {
            let pa = particles[i];
            let pb = particles[j];
            if pa.alive && pb.alive && pa.chamber_id == pb.chamber_id && !pa.reacted
                && !pb.reacted {
                if test_overlap(pa.position, pb.position, pa.radius, pb.radius) {
                    let ghost parts_entry = particles@;
                    let ghost sounds_entry = sounds@;
                    sounds.push(SoundEffectEvent { note: pa.type_index, location: pa.position });
                    sounds.push(SoundEffectEvent { note: pb.type_index, location: pb.position });
                    proof {
                        assert forall|e: int| 0 <= e < sounds@.len() implies exists|k: int|
                            0 <= k < parts0.len() && (#[trigger] sounds@[e]).note
                                == parts0[k].type_index by {
                            if e < sounds_entry.len() {
                                let k = choose|k: int|
                                    0 <= k < parts0.len() && (#[trigger] sounds_entry[e]).note
                                        == parts0[k].type_index;
                                assert(sounds@[e] == sounds_entry[e]);
                                assert(sounds@[e].note == parts0[k].type_index);
                            } else if e == sounds_entry.len() {
                                assert(sounds@[e].note == parts0[i as int].type_index);
                            } else {
                                assert(sounds@[e].note == parts0[j as int].type_index);
                            }
                        }
                    }
                    let off = Vec2i {
                        x: pa.position.x - pb.position.x,
                        y: pa.position.y - pb.position.y,
                    };
                    let ch = &chambers[pa.chamber_id];
                    let ghost rule_spec = config_rule(
                        *config,
                        pa.type_index as int,
                        pb.type_index as int,
                    );
                    let rule = config.find_rule(pa.type_index, pb.type_index);
                    let mut fires = false;
                    let mut products: Vec<usize> = Vec::new();
                    match rule {
                        Some(ridx) => {
                            let entry = &config.reactions[ridx];
                            match &entry.info {
                                ReactionInfo::Reaction { products: prods, temperature, pressure } => {
                                    if temperature.0 <= ch.temperature && ch.temperature
                                        <= temperature.1 && pressure.0 <= ch.pressure
                                        && ch.pressure <= pressure.1 {
                                        fires = true;
                                        products = copy_indices(prods);
                                    }
                                },
                                ReactionInfo::Inert => {},
                            }
                        },
                        None => {},
                    }
                    proof {
                        assert(fires == reaction_fires(
                            rule_spec,
                            ch.temperature as int,
                            ch.pressure as int,
                        ));
                        if fires {
                            assert(products@ == rule_spec.products);
                            assert(forall|t: int|
                                0 <= t < products@.len() ==> (#[trigger] products@[t])
                                    < k_kinds);
                        }
                    }
                    if fires {
                        let total = products.len();
                        let mv = merge_velocity(pa.mass, pa.velocity, pb.mass, pb.velocity);
                        let contains_a = contains_idx(&products, pa.type_index);
                        let contains_b = contains_idx(&products, pb.type_index);
                        // Mark the pair as reacted and destroy each input
                        // whose type is not among the products, freeing
                        // capacity before the products spawn.
                        let mut pa_mark = pa;
                        pa_mark.reacted = true;
                        pa_mark.alive = contains_a;
                        let mut pb_mark = pb;
                        pb_mark.reacted = true;
                        pb_mark.alive = contains_b;
                        proof {
                            lemma_live_count_update(particles@, i as int, pa_mark);
                        }
                        particles[i] = pa_mark;
                        if !contains_a {
                            proof {
                                lemma_live_count_bounds(particles@);
                            }
                            *live = *live - 1;
                        }
                        proof {
                            lemma_live_count_update(particles@, j as int, pb_mark);
                        }
                        particles[j] = pb_mark;
                        if !contains_b {
                            proof {
                                lemma_live_count_bounds(particles@);
                            }
                            *live = *live - 1;
                        }
                        let ghost parts_marked = particles@;
                        let mut va_new = pa.velocity;
                        let mut vb_new = pb.velocity;
                        let mut a_done = false;
                        let mut b_done = false;
                        let mut t: usize = 0;
                        while t < products.len()
                            invariant
                                config_wf(*config),
                                k_kinds == config.kinds@.len(),
                                n0 == parts0.len(),
                                parts0 == old(particles)@,
                                pass_evolved(parts0, particles@, k_kinds, chambers@),
                                *live == live_count(particles@),
                                live_count(particles@) <= int_max(
                                    live_count(parts0),
                                    config.cap as int,
                                ),
                                events_marked(reactions@, *config, chambers@, parts0, particles@),
                                forall|w: int|
                                    0 <= w < parts0.len() && w != i as int && w != j as int
                                        && parts0[w].alive && !(#[trigger] particles@[w]).alive
                                        ==> exists|e: int|
                                        0 <= e < reactions@.len() && ((
                                        #[trigger] reactions@[e]).slot_a == w
                                            || reactions@[e].slot_b == w),
                                particles@[i as int] == pa_mark,
                                particles@[j as int] == pb_mark,
                                pa.chamber_id < chambers@.len(),
                                bounded(pb.position, POS_LIMIT as int),
                                forall|w: int|
                                    0 <= w < n0 && w != i as int && w != j as int
                                        ==> #[trigger] particles@[w] == parts_entry[w],
                                i < j < n0,
                                t <= products@.len(),
                                total == products@.len(),
                                bounded(off, 2 * MAX_RADIUS as int),
                                bounded(mv, SPEED_LIMIT as int),
                                lone_interacting_pair(parts0) && i == 0 && j == 1
                                    ==> reactions@.len() == 0 && sounds@.len() == 2,
                                lone_interacting_pair(parts0) && i == 0 && j == 1 && products@
                                    == seq![pa.type_index] && pa.type_index != pb.type_index ==> {
                                    &&& particles@.len() == 2
                                    &&& (t == 0 ==> !a_done && !b_done && va_new == pa.velocity
                                        && vb_new == pb.velocity)
                                    &&& (t == 1 ==> a_done && va_new == mv && vb_new
                                        == pb.velocity)
                                },
                                bounded(va_new, SPEED_LIMIT as int),
                                bounded(vb_new, SPEED_LIMIT as int),
                                forall|w: int|
                                    0 <= w < products@.len() ==> (#[trigger] products@[w])
                                        < k_kinds,
                            decreases products@.len() - t,
                        {
                            let p = products[t];
                            if p == pa.type_index && !a_done {
                                if total == 1 {
                                    va_new = mv;
                                } else {
                                    let bits = rng.next_bits();
                                    let sp = speed_of(mv);
                                    va_new = dir_from_bits(bits, sp);
                                }
                                a_done = true;
                            } else if p == pb.type_index && !b_done {
                                if total == 1 {
                                    vb_new = mv;
                                } else {
                                    let bits = rng.next_bits();
                                    let sp = speed_of(mv);
                                    vb_new = dir_from_bits(bits, sp);
                                }
                                b_done = true;
                            } else {
                                if *live < config.cap {
                                    let kind = &config.kinds[p];
                                    if crate::chamber::radius_fits(
                                        &chambers[pa.chamber_id].shape,
                                        kind.radius,
                                    ) {
                                        let mid = shift_clamped(pb.position, off.x / 2, off.y / 2);
                                        let vel = if total == 1 {
                                            scale_to_length(mv, kind.launch_speed)
                                        } else {
                                            let bits = rng.next_bits();
                                            dir_from_bits(bits, kind.launch_speed)
                                        };
                                        let newp = Particle {
                                            alive: true,
                                            chamber_id: pa.chamber_id,
                                            type_index: p,
                                            radius: kind.radius,
                                            mass: kind.mass,
                                            position: mid,
                                            velocity: vel,
                                            reacted: false,
                                            decay_elapsed_ms: 0,
                                            selected: false,
                                        };
                                        proof {
                                            lemma_live_count_push(particles@, newp);
                                        }
                                        particles.push(newp);
                                        *live = *live + 1;
                                    }
                                }
                            }
                            t = t + 1;
                        }
                        let mut pa2 = pa_mark;
                        pa2.velocity = va_new;
                        let mut pb2 = pb_mark;
                        pb2.velocity = vb_new;
                        if contains_a && contains_b {
                            // Both inputs survive as their own product slots:
                            // repel them so they do not coincide.
                            let (bva, bvb) = resolve_bounce(pa.mass, pb.mass, va_new, vb_new, off);
                            pa2.velocity = bva;
                            pb2.velocity = bvb;
                            let push = separation_push(off, pa.radius, pb.radius);
                            pa2.position = shift_clamped(pa.position, push.x, push.y);
                            pb2.position = shift_clamped(pb.position, -push.x, -push.y);
                        }
                        let ghost parts_mid = particles@;
                        proof {
                            lemma_live_count_update(particles@, i as int, pa2);
                        }
                        particles[i] = pa2;
                        proof {
                            lemma_live_count_update(particles@, j as int, pb2);
                        }
                        particles[j] = pb2;
                        let ghost evs_before = reactions@;
                        reactions.push(ReactionEvent { slot_a: i, slot_b: j });
                        proof {
                            assert(reaction_admissible(
                                *config,
                                chambers@,
                                parts0,
                                ReactionEvent { slot_a: i, slot_b: j },
                            ));
                            assert forall|e: int| 0 <= e < evs_before.len() implies {
                                let ev = #[trigger] evs_before[e];
                                ev.slot_a != i as int && ev.slot_a != j as int && ev.slot_b
                                    != i as int && ev.slot_b != j as int
                            } by {
                                let ev = evs_before[e];
                                assert(parts_mid[ev.slot_a as int].reacted);
                                assert(parts_mid[ev.slot_b as int].reacted);
                            }
                            assert(reactions_disjoint(reactions@));
                            assert(events_marked(
                                reactions@,
                                *config,
                                chambers@,
                                parts0,
                                particles@,
                            ));
                            assert forall|k: int|
                                0 <= k < parts0.len() && parts0[k].alive && !(
                                #[trigger] particles@[k]).alive implies exists|e: int|
                                0 <= e < reactions@.len() && ((#[trigger] reactions@[e]).slot_a
                                    == k || reactions@[e].slot_b == k) by {
                                if k == i as int || k == j as int {
                                    let last = reactions@.len() - 1;
                                    assert(reactions@[last].slot_a == i as int
                                        && reactions@[last].slot_b == j as int);
                                } else {
                                    assert(particles@[k] == parts_entry[k]);
                                    let e = choose|e: int|
                                        0 <= e < evs_before.len() && ((
                                        #[trigger] evs_before[e]).slot_a == k
                                            || evs_before[e].slot_b == k);
                                    assert(reactions@[e].slot_a == k || reactions@[e].slot_b
                                        == k);
                                }
                            }
                            if lone_interacting_pair(parts0) && i == 0 && j == 1 {
                                assert(pa == parts0[0] && pb == parts0[1]);
                                assert(particles@[0] == pa2 && particles@[1] == pb2);
                                assert(reactions@.len() == 1 && reactions@[0].slot_a == 0
                                    && reactions@[0].slot_b == 1);
                                assert(products@ == rule_spec.products);
                                if rule_spec.products == seq![pa.type_index] && pa.type_index
                                    != pb.type_index {
                                    assert(products@[0] == pa.type_index);
                                    assert(products@.contains(pa.type_index));
                                    assert(!products@.contains(pb.type_index)) by {
                                        if products@.contains(pb.type_index) {
                                            let w = choose|w: int|
                                                0 <= w < products@.len() && products@[w]
                                                    == pb.type_index;
                                            assert(w == 0);
                                        }
                                    }
                                    assert(contains_a && !contains_b);
                                    assert(pa2.velocity == mv && pa2.position == pa.position);
                                }
                                assert(lone_pair_reacted(
                                    *config,
                                    parts0,
                                    particles@,
                                    sounds@,
                                    reactions@,
                                ));
                                assert(lone_pair_resolved(
                                    *config,
                                    chambers@,
                                    parts0,
                                    particles@,
                                    sounds@,
                                    reactions@,
                                ));
                            }
                        }
                    } else {
                        let (bva, bvb) = resolve_bounce(
                            pa.mass,
                            pb.mass,
                            pa.velocity,
                            pb.velocity,
                            off,
                        );
                        let push = separation_push(off, pa.radius, pb.radius);
                        let mut pa2 = pa;
                        pa2.velocity = bva;
                        pa2.position = shift_clamped(pa.position, push.x, push.y);
                        let mut pb2 = pb;
                        pb2.velocity = bvb;
                        pb2.position = shift_clamped(pb.position, -push.x, -push.y);
                        let ghost parts_mid = particles@;
                        proof {
                            lemma_live_count_update(particles@, i as int, pa2);
                        }
                        particles[i] = pa2;
                        proof {
                            lemma_live_count_update(particles@, j as int, pb2);
                        }
                        particles[j] = pb2;
                        proof {
                            assert forall|e: int| 0 <= e < reactions@.len() implies {
                                let ev = #[trigger] reactions@[e];
                                ev.slot_a != i as int && ev.slot_a != j as int && ev.slot_b
                                    != i as int && ev.slot_b != j as int
                            } by {
                                let ev = reactions@[e];
                                assert(parts_mid[ev.slot_a as int].reacted);
                                assert(parts_mid[ev.slot_b as int].reacted);
                            }
                            assert(events_marked(
                                reactions@,
                                *config,
                                chambers@,
                                parts0,
                                particles@,
                            ));
                            if lone_interacting_pair(parts0) && i == 0 && j == 1 {
                                assert(pa == parts0[0] && pb == parts0[1]);
                                assert(particles@[0] == pa2 && particles@[1] == pb2);
                                if bounded(pa.position, POS_LIMIT as int - 10_000_000) && bounded(
                                    pb.position,
                                    POS_LIMIT as int - 10_000_000,
                                ) {
                                    assert(pa2.position.x == pa.position.x + push.x
                                        && pa2.position.y == pa.position.y + push.y
                                        && pb2.position.x == pb.position.x - push.x
                                        && pb2.position.y == pb.position.y - push.y);
                                    assert(pa2.position.x - pb2.position.x == off.x + 2 * push.x
                                        && pa2.position.y - pb2.position.y == off.y + 2
                                        * push.y);
                                    assert(!overlapping(
                                        pa2.position,
                                        pb2.position,
                                        pa.radius as int,
                                        pb.radius as int,
                                    ));
                                }
                                assert(lone_pair_bounced(parts0, particles@, sounds@, reactions@));
                                assert(lone_pair_resolved(
                                    *config,
                                    chambers@,
                                    parts0,
                                    particles@,
                                    sounds@,
                                    reactions@,
                                ));
                            }
                        }
                    }
                }
            }
            j = j + 1;
        }
        i = i + 1;
    }
    (sounds, reactions)
}

} // verus!
