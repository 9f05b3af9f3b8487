//! Boundary collision and integration: reflect particles that would leave
//! their chamber on the next step, advance every particle by its velocity,
//! and re-clamp any particle that has drifted outside back to the nearest
//! legal point.

use vstd::prelude::*;
use crate::chamber::{Chamber, Shape, chamber_wf, clamp_to_chamber, inside};
use crate::num::{iabs, tdiv, spec_clamp, clamp_wide, tdiv_i128, MAX_DT_MS, POS_LIMIT, SPEED_LIMIT};
use crate::vec2::{Vec2i, dot, len2, bounded};
use crate::particle::{Particle, SoundEffectEvent, live_count, lemma_live_count_update_same,
    particle_wf, store_wf};
use crate::collision::eff_off;

verus! {

/// Distance a velocity component covers in a step of `dt` milliseconds.
pub open spec fn step_delta(v: int, dt: int) -> int {
    tdiv(v * dt, 1000)
}

/// The direction toward the chamber centre used for a circular reflection:
/// each component held to the velocity range, with the positive-y fallback
/// when the particle sits exactly on the centre.
pub open spec fn reflect_normal(p: Vec2i) -> Vec2i {
    eff_off(
        Vec2i {
            x: spec_clamp(p.x as int, -(SPEED_LIMIT as int), SPEED_LIMIT as int) as i64,
            y: spec_clamp(p.y as int, -(SPEED_LIMIT as int), SPEED_LIMIT as int) as i64,
        },
    )
}

/// Velocity reflected about the direction `p` toward the chamber centre,
/// x component, saturated to the velocity range.
pub open spec fn circle_reflect_vx(v: Vec2i, p: Vec2i) -> int {
    let n = reflect_normal(p);
    spec_clamp(
        v.x - tdiv(2 * dot(v, n) * n.x, len2(n)),
        -(SPEED_LIMIT as int),
        SPEED_LIMIT as int,
    )
}

/// Velocity reflected about the direction `p` toward the chamber centre,
/// y component, saturated to the velocity range.
pub open spec fn circle_reflect_vy(v: Vec2i, p: Vec2i) -> int {
    let n = reflect_normal(p);
    spec_clamp(
        v.y - tdiv(2 * dot(v, n) * n.y, len2(n)),
        -(SPEED_LIMIT as int),
        SPEED_LIMIT as int,
    )
}

/// Reflect a velocity about the direction toward the chamber centre.
pub fn reflect_circle(v: Vec2i, p: Vec2i) -> (r: Vec2i)
    requires
        bounded(v, SPEED_LIMIT as int),
        bounded(p, 2 * POS_LIMIT as int),
    ensures
        r.x == circle_reflect_vx(v, p),
        r.y == circle_reflect_vy(v, p),
        bounded(r, SPEED_LIMIT as int),
{
    let pcx: i64 = clamp_wide(p.x as i128, SPEED_LIMIT);
    let pcy: i64 = clamp_wide(p.y as i128, SPEED_LIMIT);
    let (nx, ny): (i64, i64) = if pcx == 0 && pcy == 0 {
        (0, 1)
    } else {
        (pcx, pcy)
    };
    proof {
        assert(-2_000_000_000_000_000_000 <= (v.x as int) * (nx as int)
            <= 2_000_000_000_000_000_000) by (nonlinear_arith)
            requires
                -1_000_000_000 <= v.x as int <= 1_000_000_000,
                -1_000_000_000 <= nx as int <= 1_000_000_000,
        ;
        assert(-2_000_000_000_000_000_000 <= (v.y as int) * (ny as int)
            <= 2_000_000_000_000_000_000) by (nonlinear_arith)
            requires
                -1_000_000_000 <= v.y as int <= 1_000_000_000,
                -1_000_000_000 <= ny as int <= 1_000_000_000,
        ;
        assert(0 <= (nx as int) * (nx as int) <= 1_000_000_000_000_000_000) by (nonlinear_arith)
            requires -1_000_000_000 <= nx as int <= 1_000_000_000;
        assert(0 <= (ny as int) * (ny as int) <= 1_000_000_000_000_000_000) by (nonlinear_arith)
            requires -1_000_000_000 <= ny as int <= 1_000_000_000;
        assert((nx as int) * (nx as int) + (ny as int) * (ny as int) >= 1) by (nonlinear_arith)
            requires
                !(nx == 0 && ny == 0),
                (nx as int) * (nx as int) >= 0,
                (ny as int) * (ny as int) >= 0,
        ;
    }
    let d: i128 = (v.x as i128) * (nx as i128) + (v.y as i128) * (ny as i128);
    let l2: i128 = (nx as i128) * (nx as i128) + (ny as i128) * (ny as i128);
    proof {
        assert(-8_000_000_000_000_000_000_000_000_000 <= 2 * (d as int) * (nx as int)
            <= 8_000_000_000_000_000_000_000_000_000) by (nonlinear_arith)
            requires
                -4_000_000_000_000_000_000 <= d as int <= 4_000_000_000_000_000_000,
                -1_000_000_000 <= nx as int <= 1_000_000_000,
        ;
        assert(-8_000_000_000_000_000_000_000_000_000 <= 2 * (d as int) * (ny as int)
            <= 8_000_000_000_000_000_000_000_000_000) by (nonlinear_arith)
            requires
                -4_000_000_000_000_000_000 <= d as int <= 4_000_000_000_000_000_000,
                -1_000_000_000 <= ny as int <= 1_000_000_000,
        ;
    }
    let qx: i128 = tdiv_i128(2 * d * (nx as i128), l2);
    let qy: i128 = tdiv_i128(2 * d * (ny as i128), l2);
    proof {
        crate::num::lemma_tdiv_mag(2 * (d as int) * (nx as int), l2 as int);
        crate::num::lemma_tdiv_mag(2 * (d as int) * (ny as int), l2 as int);
    }
    let rx: i64 = clamp_wide(v.x as i128 - qx, SPEED_LIMIT);
    let ry: i64 = clamp_wide(v.y as i128 - qy, SPEED_LIMIT);
    Vec2i { x: rx, y: ry }
}

/// Where a particle would be after one step at its current velocity, before
/// any reflection, x component (unsaturated).
pub open spec fn target_x(p: Particle, dt: int) -> int {
    p.position.x + step_delta(p.velocity.x as int, dt)
}

pub open spec fn target_y(p: Particle, dt: int) -> int {
    p.position.y + step_delta(p.velocity.y as int, dt)
}

/// The particle's next step would carry it past the rectangle wall on the
/// x axis.
pub open spec fn rect_hit_x(p: Particle, origin: Vec2i, half_width: int, dt: int) -> bool {
    iabs(target_x(p, dt) - origin.x) > half_width - p.radius
}

pub open spec fn rect_hit_y(p: Particle, origin: Vec2i, half_height: int, dt: int) -> bool {
    iabs(target_y(p, dt) - origin.y) > half_height - p.radius
}

/// The particle's next step would carry it past the circular wall.
pub open spec fn circle_hit(p: Particle, origin: Vec2i, radius: int, dt: int) -> bool {
    let dx = target_x(p, dt) - origin.x;
    let dy = target_y(p, dt) - origin.y;
    dx * dx + dy * dy > (radius - p.radius) * (radius - p.radius)
}

/// The velocity a particle leaves the boundary pass with.
pub open spec fn moved_velocity_x(p: Particle, s: Shape, dt: int) -> int {
    match s {
        Shape::Rectangle { origin, half_width, half_height } => if rect_hit_x(
            p,
            origin,
            half_width as int,
            dt,
        ) {
            -p.velocity.x
        } else {
            p.velocity.x as int
        },
        Shape::Circle { origin, radius } => if circle_hit(p, origin, radius as int, dt) {
            circle_reflect_vx(
                p.velocity,
                Vec2i { x: (origin.x - p.position.x) as i64, y: (origin.y - p.position.y) as i64 },
            )
        } else {
            p.velocity.x as int
        },
    }
}

pub open spec fn moved_velocity_y(p: Particle, s: Shape, dt: int) -> int {
    match s {
        Shape::Rectangle { origin, half_width, half_height } => if rect_hit_y(
            p,
            origin,
            half_height as int,
            dt,
        ) {
            -p.velocity.y
        } else {
            p.velocity.y as int
        },
        Shape::Circle { origin, radius } => if circle_hit(p, origin, radius as int, dt) {
            circle_reflect_vy(
                p.velocity,
                Vec2i { x: (origin.x - p.position.x) as i64, y: (origin.y - p.position.y) as i64 },
            )
        } else {
            p.velocity.y as int
        },
    }
}

/// The position a particle leaves the boundary pass with: the old position
/// advanced one step at the post-reflection velocity, saturated to the
/// position range.
pub open spec fn moved_position_x(p: Particle, s: Shape, dt: int) -> int {
    spec_clamp(
        p.position.x + tdiv(moved_velocity_x(p, s, dt) * dt, 1000),
        -(POS_LIMIT as int),
        POS_LIMIT as int,
    )
}

pub open spec fn moved_position_y(p: Particle, s: Shape, dt: int) -> int {
    spec_clamp(
        p.position.y + tdiv(moved_velocity_y(p, s, dt) * dt, 1000),
        -(POS_LIMIT as int),
        POS_LIMIT as int,
    )
}

/// The collision sound a particle emits when it bounces off its wall.
pub open spec fn wall_sound(p: Particle) -> SoundEffectEvent {
    SoundEffectEvent { note: p.type_index, location: p.position }
}

/// The sounds one slot contributes to the boundary pass: one per reflected
/// axis in a rectangle, one per reflection in a circle, none from a dead
/// slot.
pub open spec fn slot_sounds(p: Particle, chambers: Seq<Chamber>, dt: int) -> Seq<SoundEffectEvent> {
    if !p.alive {
        Seq::empty()
    } else {
        match chambers[p.chamber_id as int].shape {
            Shape::Rectangle { origin, half_width, half_height } => {
                let after_x: Seq<SoundEffectEvent> = if rect_hit_x(p, origin, half_width as int, dt) {
                    Seq::empty().push(wall_sound(p))
                } else {
                    Seq::empty()
                };
                if rect_hit_y(p, origin, half_height as int, dt) {
                    after_x.push(wall_sound(p))
                } else {
                    after_x
                }
            },
            Shape::Circle { origin, radius } => if circle_hit(p, origin, radius as int, dt) {
                Seq::empty().push(wall_sound(p))
            } else {
                Seq::empty()
            },
        }
    }
}

/// All the sounds the boundary pass emits, slot by slot in store order.
pub open spec fn boundary_sounds(
    parts: Seq<Particle>,
    chambers: Seq<Chamber>,
    dt: int,
) -> Seq<SoundEffectEvent>
    decreases parts.len(),
{
    if parts.len() == 0 {
        Seq::empty()
    } else {
        boundary_sounds(parts.drop_last(), chambers, dt) + slot_sounds(parts.last(), chambers, dt)
    }
}

/// The position a particle leaves the boundary pass with, as a vector.
pub open spec fn moved_position(p: Particle, s: Shape, dt: int) -> Vec2i {
    Vec2i { x: moved_position_x(p, s, dt) as i64, y: moved_position_y(p, s, dt) as i64 }
}

/// One step of velocity times time, in machine arithmetic.
fn step_delta_exec(v: i64, dt: u64) -> (r: i64)
    requires
        -(SPEED_LIMIT as int) <= v <= SPEED_LIMIT as int,
        dt <= MAX_DT_MS,
    ensures
        r == step_delta(v as int, dt as int),
        -4_000_000_000_000 <= r <= 4_000_000_000_000,
{
    proof {
        assert(-3_600_000_000_000_000 <= (v as int) * (dt as int) <= 3_600_000_000_000_000)
            by (nonlinear_arith)
            requires -1_000_000_000 <= v as int <= 1_000_000_000, 0 <= dt as int <= 3_600_000;
    }
    let n: i128 = (v as i128) * (dt as i128);
    let q: i128 = tdiv_i128(n, 1000);
    proof {
        crate::num::lemma_tdiv_mag(n as int, 1000);
    }
    q as i64
}

/// The boundary pass of a tick: clear every particle's reacted mark, reflect
/// each live particle whose next step would leave its chamber (emitting a
/// collision sound), and integrate each live particle one step.
pub fn boundary_pass(
    chambers: &Vec<Chamber>,
    particles: &mut Vec<Particle>,
    dt_ms: u64,
    n_kinds: usize,
) -> (sounds: Vec<SoundEffectEvent>)
    requires
        forall|c: int| 0 <= c < chambers@.len() ==> chamber_wf(#[trigger] chambers@[c]),
        store_wf(old(particles)@, n_kinds as int, chambers@),
        1 <= dt_ms <= MAX_DT_MS,
    ensures
        final(particles)@.len() == old(particles)@.len(),
        store_wf(final(particles)@, n_kinds as int, chambers@),
        sounds@ == boundary_sounds(old(particles)@, chambers@, dt_ms as int),
        live_count(final(particles)@) == live_count(old(particles)@),
        forall|k: int|
            0 <= k < old(particles)@.len() ==> {
                let p0 = old(particles)@[k];
                let p = #[trigger] final(particles)@[k];
                &&& p.alive == p0.alive
                &&& p.type_index == p0.type_index
                &&& p.chamber_id == p0.chamber_id
                &&& p.radius == p0.radius
                &&& p.mass == p0.mass
                &&& p.selected == p0.selected
                &&& p.decay_elapsed_ms == p0.decay_elapsed_ms
                &&& !p.reacted
                &&& (p0.alive ==> {
                    let s = chambers@[p0.chamber_id as int].shape;
                    &&& p.velocity.x == moved_velocity_x(p0, s, dt_ms as int)
                    &&& p.velocity.y == moved_velocity_y(p0, s, dt_ms as int)
                    &&& p.position.x == moved_position_x(p0, s, dt_ms as int)
                    &&& p.position.y == moved_position_y(p0, s, dt_ms as int)
                })
                &&& (!p0.alive ==> p.position == p0.position && p.velocity == p0.velocity)
            },
{
    let ghost parts0 = particles@;
    let mut sounds: Vec<SoundEffectEvent> = Vec::new();
    let n = particles.len();
    let mut k: usize = 0;
    while k < n
        invariant
            n == parts0.len(),
            parts0 == old(particles)@,
            particles@.len() == n,
            1 <= dt_ms <= MAX_DT_MS,
            forall|c: int| 0 <= c < chambers@.len() ==> chamber_wf(#[trigger] chambers@[c]),
            store_wf(particles@, n_kinds as int, chambers@),
            store_wf(parts0, n_kinds as int, chambers@),
            live_count(particles@) == live_count(parts0),
            k <= n,
            forall|w: int| k <= w < n ==> #[trigger] particles@[w] == parts0[w],
            sounds@ == boundary_sounds(parts0.take(k as int), chambers@, dt_ms as int),
            forall|w: int|
                0 <= w < k ==> {
                    let p0 = parts0[w];
                    let p = #[trigger] particles@[w];
                    &&& p.alive == p0.alive
                    &&& p.type_index == p0.type_index
                    &&& p.chamber_id == p0.chamber_id
                    &&& p.radius == p0.radius
                    &&& p.mass == p0.mass
                    &&& p.selected == p0.selected
                    &&& p.decay_elapsed_ms == p0.decay_elapsed_ms
                    &&& !p.reacted
                    &&& (p0.alive ==> {
                        let s = chambers@[p0.chamber_id as int].shape;
                        &&& p.velocity.x == moved_velocity_x(p0, s, dt_ms as int)
                        &&& p.velocity.y == moved_velocity_y(p0, s, dt_ms as int)
                        &&& p.position.x == moved_position_x(p0, s, dt_ms as int)
                        &&& p.position.y == moved_position_y(p0, s, dt_ms as int)
                    })
                    &&& (!p0.alive ==> p.position == p0.position && p.velocity == p0.velocity)
                },
        decreases n - k,
    {
        let ghost sounds_entry = sounds@;
        let p = particles[k];
        let mut p2 = p;
        p2.reacted = false;
        if p.alive {
            let ch = &chambers[p.chamber_id];
            let dx = step_delta_exec(p.velocity.x, dt_ms);
            let dy = step_delta_exec(p.velocity.y, dt_ms);
            let tx: i64 = p.position.x + dx;
            let ty: i64 = p.position.y + dy;
            let mut v2 = p.velocity;
            match &ch.shape {
                Shape::Rectangle { origin, half_width, half_height } => {
                    let span_x = *half_width - p.radius;
                    let span_y = *half_height - p.radius;
                    let ox_off: i64 = tx - origin.x;
                    let oy_off: i64 = ty - origin.y;
                    if ox_off > span_x || ox_off < -span_x {
                        v2.x = -v2.x;
                        sounds.push(SoundEffectEvent { note: p.type_index, location: p.position });
                    }
                    if oy_off > span_y || oy_off < -span_y {
                        v2.y = -v2.y;
                        sounds.push(SoundEffectEvent { note: p.type_index, location: p.position });
                    }
                },
                Shape::Circle { origin, radius } => {
                    let cdx: i128 = tx as i128 - origin.x as i128;
                    let cdy: i128 = ty as i128 - origin.y as i128;
                    let span: i64 = *radius - p.radius;
                    proof {
                        assert(0 <= cdx * cdx <= 4_000_000_000_000_000_000_000_000_000_000)
                            by (nonlinear_arith)
                            requires -2_000_000_000_000_000 <= cdx <= 2_000_000_000_000_000;
                        assert(0 <= cdy * cdy <= 4_000_000_000_000_000_000_000_000_000_000)
                            by (nonlinear_arith)
                            requires -2_000_000_000_000_000 <= cdy <= 2_000_000_000_000_000;
                        assert(0 <= (span as int) * (span as int) <= 10_000_000_000_000_000)
                            by (nonlinear_arith)
                            requires -100_000_000 <= span as int <= 100_000_000;
                    }
                    if cdx * cdx + cdy * cdy > (span as i128) * (span as i128) {
                        let px: i64 = origin.x - p.position.x;
                        let py: i64 = origin.y - p.position.y;
                        v2 = reflect_circle(p.velocity, Vec2i { x: px, y: py });
                        sounds.push(SoundEffectEvent { note: p.type_index, location: p.position });
                    }
                },
            }
            let sx = step_delta_exec(v2.x, dt_ms);
            let sy = step_delta_exec(v2.y, dt_ms);
            p2.velocity = v2;
            p2.position = crate::collision::shift_clamped(p.position, sx, sy);
        }
        proof {
            lemma_live_count_update_same(particles@, k as int, p2);
            assert(parts0.take(k + 1 as int).drop_last() =~= parts0.take(k as int));
            assert(parts0.take(k + 1 as int).last() == parts0[k as int]);
            assert(sounds@ =~= sounds_entry + slot_sounds(parts0[k as int], chambers@, dt_ms as int));
        }
        particles[k] = p2;
        k = k + 1;
    }
    proof {
        assert(parts0.take(n as int) =~= parts0);
    }
    sounds
}

/// A velocity component after one step of friction: it loses a tenth of its
/// value per second, truncated toward zero, and comes to rest — never
/// reverses — on a step long enough to drain it.
pub open spec fn frictioned(v: int, dt: int) -> int {
    if iabs(tdiv(v * dt, 10_000)) >= iabs(v) {
        0
    } else {
        v - tdiv(v * dt, 10_000)
    }
}

/// The optional friction pass: every particle's velocity decays by a tenth
/// of its value per second, bringing free molecules gradually to a stop.
pub fn decay_velocity(particles: &mut Vec<Particle>, dt_ms: u64)
    requires
        forall|k: int|
            0 <= k < old(particles)@.len() ==> bounded(
                (#[trigger] old(particles)@[k]).velocity,
                SPEED_LIMIT as int,
            ),
        dt_ms <= crate::num::MAX_DT_MS,
    ensures
        final(particles)@.len() == old(particles)@.len(),
        live_count(final(particles)@) == live_count(old(particles)@),
        forall|k: int|
            0 <= k < old(particles)@.len() ==> {
                let p0 = old(particles)@[k];
                let p = #[trigger] final(particles)@[k];
                &&& p.velocity.x == frictioned(p0.velocity.x as int, dt_ms as int)
                &&& p.velocity.y == frictioned(p0.velocity.y as int, dt_ms as int)
                &&& bounded(p.velocity, SPEED_LIMIT as int)
                &&& p == Particle { velocity: p.velocity, ..p0 }
            },
{
    let ghost parts0 = particles@;
    let n = particles.len();
    let mut k: usize = 0;
    while k < n
        invariant
            n == parts0.len(),
            parts0 == old(particles)@,
            particles@.len() == n,
            dt_ms <= crate::num::MAX_DT_MS,
            forall|w: int|
                0 <= w < n ==> bounded((#[trigger] parts0[w]).velocity, SPEED_LIMIT as int),
            live_count(particles@) == live_count(parts0),
            k <= n,
            forall|w: int| k <= w < n ==> #[trigger] particles@[w] == parts0[w],
            forall|w: int|
                0 <= w < k ==> {
                    let p0 = parts0[w];
                    let p = #[trigger] particles@[w];
                    &&& p.velocity.x == frictioned(p0.velocity.x as int, dt_ms as int)
                    &&& p.velocity.y == frictioned(p0.velocity.y as int, dt_ms as int)
                    &&& bounded(p.velocity, SPEED_LIMIT as int)
                    &&& p == Particle { velocity: p.velocity, ..p0 }
                },
        decreases n - k,
    {
        let p = particles[k];
        let mut p2 = p;
        p2.velocity = Vec2i {
            x: friction_step(p.velocity.x, dt_ms),
            y: friction_step(p.velocity.y, dt_ms),
        };
        proof {
            lemma_live_count_update_same(particles@, k as int, p2);
        }
        particles[k] = p2;
        k = k + 1;
    }
}

/// One velocity component after one friction step; the loss never exceeds
/// the component itself.
fn friction_step(v: i64, dt_ms: u64) -> (r: i64)
    requires
        -(SPEED_LIMIT as int) <= v <= SPEED_LIMIT as int,
        dt_ms <= crate::num::MAX_DT_MS,
    ensures
        r == frictioned(v as int, dt_ms as int),
        -(SPEED_LIMIT as int) <= r <= SPEED_LIMIT as int,
{
    proof {
        assert(-3_600_000_000_000_000 <= (v as int) * (dt_ms as int) <= 3_600_000_000_000_000)
            by (nonlinear_arith)
            requires -1_000_000_000 <= v as int <= 1_000_000_000, 0 <= dt_ms as int <= 3_600_000;
    }
    let loss: i128 = tdiv_i128((v as i128) * (dt_ms as i128), 10_000);
    proof {
        crate::num::lemma_tdiv_mag((v as int) * (dt_ms as int), 10_000);
        if v >= 0 {
            assert((v as int) * (dt_ms as int) >= 0) by (nonlinear_arith)
                requires v as int >= 0, dt_ms as int >= 0;
            vstd::arithmetic::div_mod::lemma_div_pos_is_pos((v as int) * (dt_ms as int), 10_000);
            assert(loss as int >= 0);
        } else {
            assert((v as int) * (dt_ms as int) <= 0) by (nonlinear_arith)
                requires (v as int) < 0, dt_ms as int >= 0;
            vstd::arithmetic::div_mod::lemma_div_pos_is_pos(-((v as int) * (dt_ms as int)), 10_000);
            assert(loss as int <= 0);
        }
    }
    let lmag: i128 = if loss >= 0 { loss } else { -loss };
    let vmag: i128 = if v >= 0 { v as i128 } else { -(v as i128) };
    if lmag >= vmag {
        0
    } else {
        (v as i128 - loss) as i64
    }
}

/// The corrective pass of a tick: move any live particle whose current
/// position already violates its chamber boundary back to the nearest legal
/// point. After it, every live particle lies inside its chamber.
pub fn correction_pass(chambers: &Vec<Chamber>, particles: &mut Vec<Particle>, n_kinds: usize)
    requires
        forall|c: int| 0 <= c < chambers@.len() ==> chamber_wf(#[trigger] chambers@[c]),
        store_wf(old(particles)@, n_kinds as int, chambers@),
    ensures
        final(particles)@.len() == old(particles)@.len(),
        live_count(final(particles)@) == live_count(old(particles)@),
        store_wf(final(particles)@, n_kinds as int, chambers@),
        forall|k: int|
            0 <= k < old(particles)@.len() ==> {
                let p0 = old(particles)@[k];
                let p = #[trigger] final(particles)@[k];
                &&& p.alive == p0.alive
                &&& p.type_index == p0.type_index
                &&& p.chamber_id == p0.chamber_id
                &&& p.radius == p0.radius
                &&& p.mass == p0.mass
                &&& p.velocity == p0.velocity
                &&& p.selected == p0.selected
                &&& p.decay_elapsed_ms == p0.decay_elapsed_ms
                &&& p.reacted == p0.reacted
                &&& (p0.alive ==> inside(
                    chambers@[p0.chamber_id as int].shape,
                    p.position,
                    p0.radius as int,
                ))
                &&& (p0.alive && inside(
                    chambers@[p0.chamber_id as int].shape,
                    p0.position,
                    p0.radius as int,
                ) ==> p.position == p0.position)
                &&& (!p0.alive ==> p.position == p0.position)
            },
{
    let ghost parts0 = particles@;
    let n = particles.len();
    let mut k: usize = 0;
    while k < n
        invariant
            n == parts0.len(),
            parts0 == old(particles)@,
            particles@.len() == n,
            forall|c: int| 0 <= c < chambers@.len() ==> chamber_wf(#[trigger] chambers@[c]),
            store_wf(particles@, n_kinds as int, chambers@),
            store_wf(parts0, n_kinds as int, chambers@),
            live_count(particles@) == live_count(parts0),
            k <= n,
            forall|w: int| k <= w < n ==> #[trigger] particles@[w] == parts0[w],
            forall|w: int|
                0 <= w < k ==> {
                    let p0 = parts0[w];
                    let p = #[trigger] particles@[w];
                    &&& p.alive == p0.alive
                    &&& p.type_index == p0.type_index
                    &&& p.chamber_id == p0.chamber_id
                    &&& p.radius == p0.radius
                    &&& p.mass == p0.mass
                    &&& p.velocity == p0.velocity
                    &&& p.selected == p0.selected
                    &&& p.decay_elapsed_ms == p0.decay_elapsed_ms
                    &&& p.reacted == p0.reacted
                    &&& (p0.alive ==> inside(
                        chambers@[p0.chamber_id as int].shape,
                        p.position,
                        p0.radius as int,
                    ))
                    &&& (p0.alive && inside(
                        chambers@[p0.chamber_id as int].shape,
                        p0.position,
                        p0.radius as int,
                    ) ==> p.position == p0.position)
                    &&& (!p0.alive ==> p.position == p0.position)
                },
        decreases n - k,
    {
        let p = particles[k];
        if p.alive {
            let ch = &chambers[p.chamber_id];
            let mut p2 = p;
            p2.position = clamp_to_chamber(&ch.shape, p.position, p.radius);
            proof {
                lemma_live_count_update_same(particles@, k as int, p2);
            }
            particles[k] = p2;
        }
        k = k + 1;
    }
}

} // verus!
