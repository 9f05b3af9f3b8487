//! The transport subsystem: intake ports capture matching particles out of
//! their chamber and outlet ports sharing the same connection id re-emit
//! them — a fan-out broadcast, with the captured particle's speed pointed
//! inward from each outlet.

use vstd::prelude::*;
use crate::chamber::{Chamber, chamber_wf};
use crate::collision::{int_max, shift_clamped};
use crate::config::{Connection, INTAKE_RADIUS, connection_wf};
use crate::num::{MAX_COORD, MAX_MASS, MAX_RADIUS, POS_LIMIT, SPEED_LIMIT};
use crate::particle::{ConnectionEvent, Particle, live_count, lemma_live_count_bounds,
    lemma_live_count_push, lemma_live_count_update, particle_wf, store_wf};
use crate::rng::SimRng;
use crate::vec2::{Vec2i, bounded, dist2, len2, scale_to_length};

verus! {

/// An intake port captures a particle: the port is an intake in the
/// particle's chamber, the particle's centre lies strictly within the intake
/// radius of the port, and the port's filter lists the particle's type.
pub open spec fn intake_matches(c: Connection, p: Particle) -> bool {
    &&& c.intake
    &&& c.reactor_id == p.chamber_id
    &&& dist2(c.position, p.position) < (INTAKE_RADIUS as int) * (INTAKE_RADIUS as int)
    &&& p.type_index < c.filter@.len()
    &&& c.filter@[p.type_index as int]
}

/// The particle is captured by one of the first `n` ports.
pub open spec fn captured_upto(conns: Seq<Connection>, n: int, p: Particle) -> bool {
    exists|c: int| 0 <= c < n && intake_matches(#[trigger] conns[c], p)
}

/// The particle is captured by some port.
pub open spec fn captured(conns: Seq<Connection>, p: Particle) -> bool {
    captured_upto(conns, conns.len() as int, p)
}

/// A transport event carries the fields of the slot it captured, and the
/// connection id of a port that matched it.
pub open spec fn event_from_store(
    ev: ConnectionEvent,
    conns: Seq<Connection>,
    parts0: Seq<Particle>,
) -> bool {
    exists|k: int|
        0 <= k < parts0.len() && {
            let p = #[trigger] parts0[k];
            &&& p.alive
            &&& captured(conns, p)
            &&& ev.origin_chamber == p.chamber_id
            &&& ev.type_index == p.type_index
            &&& ev.radius == p.radius
            &&& ev.mass == p.mass
            &&& ev.velocity == p.velocity
            &&& ev.selected == p.selected
            &&& exists|c: int|
                0 <= c < conns.len() && intake_matches(#[trigger] conns[c], p)
                    && ev.connection_id == conns[c].connection_id
        }
}

/// The event carries exactly this particle's fields and the connection id
/// of a port that captures it.
pub open spec fn event_matches_particle(
    ev: ConnectionEvent,
    conns: Seq<Connection>,
    p: Particle,
) -> bool {
    &&& ev.origin_chamber == p.chamber_id
    &&& ev.type_index == p.type_index
    &&& ev.radius == p.radius
    &&& ev.mass == p.mass
    &&& ev.velocity == p.velocity
    &&& ev.selected == p.selected
    &&& exists|c: int|
        0 <= c < conns.len() && intake_matches(#[trigger] conns[c], p) && ev.connection_id
            == conns[c].connection_id
}

/// Some event reports this particle.
pub open spec fn event_for_slot(
    evs: Seq<ConnectionEvent>,
    conns: Seq<Connection>,
    p: Particle,
) -> bool {
    exists|e: int| 0 <= e < evs.len() && event_matches_particle(#[trigger] evs[e], conns, p)
}

/// A slot's event survives appending further events.
proof fn lemma_event_for_slot_grow(
    evs0: Seq<ConnectionEvent>,
    evs1: Seq<ConnectionEvent>,
    conns: Seq<Connection>,
    p: Particle,
)
    requires
        evs0.len() <= evs1.len(),
        forall|e: int| 0 <= e < evs0.len() ==> evs1[e] == evs0[e],
        event_for_slot(evs0, conns, p),
    ensures
        event_for_slot(evs1, conns, p),
{
    let e = choose|e: int| 0 <= e < evs0.len() && event_matches_particle(#[trigger] evs0[e], conns, p);
    assert(event_matches_particle(evs1[e], conns, p));
}

/// Test whether a port captures a particle.
fn test_intake(c: &Connection, p: &Particle) -> (r: bool)
    requires
        bounded(c.position, MAX_COORD as int),
        bounded(p.position, POS_LIMIT as int),
    ensures
        r == intake_matches(*c, *p),
{
    if !c.intake || c.reactor_id != p.chamber_id {
        return false;
    }
    let dx: i128 = c.position.x as i128 - p.position.x as i128;
    let dy: i128 = c.position.y as i128 - p.position.y as i128;
    proof {
        assert(0 <= dx * dx <= 4_000_000_000_000_000_000_000_000_000_000) by (nonlinear_arith)
            requires -2_000_000_000_000_000 <= dx <= 2_000_000_000_000_000;
        assert(0 <= dy * dy <= 4_000_000_000_000_000_000_000_000_000_000) by (nonlinear_arith)
            requires -2_000_000_000_000_000 <= dy <= 2_000_000_000_000_000;
    }
    proof {
        assert(0 <= (INTAKE_RADIUS as int) * (INTAKE_RADIUS as int) <= 1_000_000)
            by (nonlinear_arith)
            requires 0 <= INTAKE_RADIUS as int <= 1000;
    }
    if dx * dx + dy * dy >= (INTAKE_RADIUS as i128) * (INTAKE_RADIUS as i128) {
        return false;
    }
    if p.type_index >= c.filter.len() {
        return false;
    }
    c.filter[p.type_index]
}

/// The intake pass of a tick: every intake port captures, destroys, and
/// reports every live matching particle in its chamber. Exactly one event
/// is emitted for each particle captured, whatever the number of ports that
/// match it.
pub fn intake_pass(
    connections: &Vec<Connection>,
    particles: &mut Vec<Particle>,
    live: &mut usize,
) -> (events: Vec<ConnectionEvent>)
    requires
        forall|k: int|
            0 <= k < old(particles)@.len() ==> bounded(
                (#[trigger] old(particles)@[k]).position,
                POS_LIMIT as int,
            ),
        forall|c: int|
            0 <= c < connections@.len() ==> bounded(
                (#[trigger] connections@[c]).position,
                MAX_COORD as int,
            ),
        *old(live) == live_count(old(particles)@),
    ensures
        final(particles)@.len() == old(particles)@.len(),
        *final(live) == live_count(final(particles)@),
        live_count(old(particles)@) == live_count(final(particles)@) + events@.len(),
        forall|k: int|
            0 <= k < old(particles)@.len() ==> {
                let p0 = old(particles)@[k];
                let p = #[trigger] final(particles)@[k];
                &&& p.type_index == p0.type_index
                &&& p.chamber_id == p0.chamber_id
                &&& p.radius == p0.radius
                &&& p.mass == p0.mass
                &&& p.position == p0.position
                &&& p.velocity == p0.velocity
                &&& p.reacted == p0.reacted
                &&& p.selected == p0.selected
                &&& p.decay_elapsed_ms == p0.decay_elapsed_ms
                &&& p.alive == (p0.alive && !captured(connections@, p0))
            },
        forall|e: int|
            0 <= e < events@.len() ==> event_from_store(
                #[trigger] events@[e],
                connections@,
                old(particles)@,
            ),
        forall|k: int|
            0 <= k < old(particles)@.len() && (#[trigger] old(particles)@[k]).alive && captured(
                connections@,
                old(particles)@[k],
            ) ==> event_for_slot(events@, connections@, old(particles)@[k]),
{
    let ghost parts0 = particles@;
    let ghost conns = connections@;
    let mut events: Vec<ConnectionEvent> = Vec::new();
    let n = particles.len();
    let n_conn = connections.len();
    let mut ci: usize = 0;
    while ci < n_conn
        invariant
            n == parts0.len(),
            n_conn == conns.len(),
            parts0 == old(particles)@,
            conns == connections@,
            particles@.len() == n,
            forall|k: int|
                0 <= k < n ==> bounded((#[trigger] parts0[k]).position, POS_LIMIT as int),
            forall|c: int|
                0 <= c < n_conn ==> bounded((#[trigger] conns[c]).position, MAX_COORD as int),
            *live == live_count(particles@),
            live_count(parts0) == live_count(particles@) + events@.len(),
            ci <= n_conn,
            forall|k: int|
                0 <= k < n ==> {
                    let p0 = parts0[k];
                    let p = #[trigger] particles@[k];
                    &&& p.type_index == p0.type_index
                    &&& p.chamber_id == p0.chamber_id
                    &&& p.radius == p0.radius
                    &&& p.mass == p0.mass
                    &&& p.position == p0.position
                    &&& p.velocity == p0.velocity
                    &&& p.reacted == p0.reacted
                    &&& p.selected == p0.selected
                    &&& p.decay_elapsed_ms == p0.decay_elapsed_ms
                    &&& p.alive == (p0.alive && !captured_upto(conns, ci as int, p0))
                },
            forall|e: int|
                0 <= e < events@.len() ==> event_from_store(#[trigger] events@[e], conns, parts0),
            forall|k: int|
                0 <= k < n && (#[trigger] parts0[k]).alive && captured_upto(
                    conns,
                    ci as int,
                    parts0[k],
                ) ==> event_for_slot(events@, conns, parts0[k]),
        decreases n_conn - ci,
    {
        let conn = &connections[ci];
        let mut k: usize = 0;
        while k < n
            invariant
                n == parts0.len(),
                n_conn == conns.len(),
                parts0 == old(particles)@,
                conns == connections@,
                particles@.len() == n,
                forall|w: int|
                    0 <= w < n ==> bounded((#[trigger] parts0[w]).position, POS_LIMIT as int),
                forall|c: int|
                    0 <= c < n_conn ==> bounded((#[trigger] conns[c]).position, MAX_COORD as int),
                *live == live_count(particles@),
                live_count(parts0) == live_count(particles@) + events@.len(),
                ci < n_conn,
                conn == conns[ci as int],
                k <= n,
                forall|w: int|
                    0 <= w < n ==> {
                        let p0 = parts0[w];
                        let p = #[trigger] particles@[w];
                        &&& p.type_index == p0.type_index
                        &&& p.chamber_id == p0.chamber_id
                        &&& p.radius == p0.radius
                        &&& p.mass == p0.mass
                        &&& p.position == p0.position
                        &&& p.velocity == p0.velocity
                        &&& p.reacted == p0.reacted
                        &&& p.selected == p0.selected
                        &&& p.decay_elapsed_ms == p0.decay_elapsed_ms
                        &&& p.alive == (p0.alive && !captured_upto(conns, ci as int, p0) && !(w
                            < k && intake_matches(conns[ci as int], p0)))
                    },
                forall|e: int|
                    0 <= e < events@.len() ==> event_from_store(
                        #[trigger] events@[e],
                        conns,
                        parts0,
                    ),
                forall|w: int|
                    0 <= w < n && (#[trigger] parts0[w]).alive && (captured_upto(
                        conns,
                        ci as int,
                        parts0[w],
                    ) || (w < k && intake_matches(conns[ci as int], parts0[w]))) ==> event_for_slot(
                        events@,
                        conns,
                        parts0[w],
                    ),
            decreases n - k,
        {
            let p = particles[k];
            if p.alive {
                if test_intake(conn, &p) {
                    let mut p2 = p;
                    p2.alive = false;
                    proof {
                        lemma_live_count_update(particles@, k as int, p2);
                    }
                    particles[k] = p2;
                    proof {
                        lemma_live_count_bounds(particles@);
                    }
                    *live = *live - 1;
                    let ghost evs_before = events@;
                    events.push(
                        ConnectionEvent {
                            connection_id: conn.connection_id,
                            origin_chamber: p.chamber_id,
                            type_index: p.type_index,
                            radius: p.radius,
                            mass: p.mass,
                            velocity: p.velocity,
                            selected: p.selected,
                        },
                    );
                    proof {
                        assert(intake_matches(conns[ci as int], parts0[k as int]));
                        assert(captured(conns, parts0[k as int]));
                        assert(event_from_store(events@.last(), conns, parts0));
                        assert(event_matches_particle(events@.last(), conns, parts0[k as int]));
                        assert(event_for_slot(events@, conns, parts0[k as int]));
                        assert forall|w: int|
                            0 <= w < n && (#[trigger] parts0[w]).alive && event_for_slot(
                                evs_before,
                                conns,
                                parts0[w],
                            ) implies event_for_slot(events@, conns, parts0[w]) by {
                            lemma_event_for_slot_grow(evs_before, events@, conns, parts0[w]);
                        }
                    }
                }
            }
            proof {
                // A slot this port matches but that is already dead was
                // captured by an earlier port and therefore reported then.
                if parts0[k as int].alive && intake_matches(conns[ci as int], parts0[k as int])
                    && !p.alive {
                    assert(captured_upto(conns, ci as int, parts0[k as int]));
                    assert(event_for_slot(events@, conns, parts0[k as int]));
                }
            }
            k = k + 1;
        }
        ci = ci + 1;
        proof {
            assert forall|w: int| 0 <= w < n implies {
                let p0 = parts0[w];
                (#[trigger] particles@[w]).alive == (p0.alive && !captured_upto(
                    conns,
                    ci as int,
                    p0,
                ))
            } by {
                let p0 = parts0[w];
                if particles@[w].alive {
                    assert(!captured_upto(conns, ci as int - 1, p0));
                    assert(!intake_matches(conns[ci as int - 1], p0));
                    if captured_upto(conns, ci as int, p0) {
                        let c = choose|c: int|
                            0 <= c < ci as int && intake_matches(#[trigger] conns[c], p0);
                        assert(false);
                    }
                }
            }
        }
    }
    proof {
        assert forall|k: int| 0 <= k < n implies (#[trigger] particles@[k]).alive == (
        parts0[k].alive && !captured(conns, parts0[k])) by {}
    }
    events
}

/// The port's inward direction, skewed sideways by `j` parts in 128: the
/// small random angular jitter of a re-emission, at most a quarter of a
/// radian either way.
pub open spec fn jitter_dir(inward: Vec2i, j: int) -> Vec2i {
    Vec2i { x: (inward.x * 128 - inward.y * j) as i64, y: (inward.y * 128 + inward.x * j) as i64 }
}

/// How an outlet port re-emits one transport event: the new particle sits
/// just inside the boundary at the port — the port position pushed inward by
/// one percent over the captured radius, then brought inside the chamber —
/// and moves at the captured speed along the port's inward direction rotated
/// by a small random jitter.
pub open spec fn outlet_spawn_shape(
    p: Particle,
    c: Connection,
    ev: ConnectionEvent,
    chambers: Seq<Chamber>,
) -> bool {
    let t = crate::num::tdiv(101 * ev.radius, 100);
    let lin = crate::num::sqrt_ceil(len2(c.inward));
    let raw = Vec2i {
        x: crate::num::spec_clamp(
            c.position.x + crate::num::tdiv(c.inward.x * t, lin),
            -(POS_LIMIT as int),
            POS_LIMIT as int,
        ) as i64,
        y: crate::num::spec_clamp(
            c.position.y + crate::num::tdiv(c.inward.y * t, lin),
            -(POS_LIMIT as int),
            POS_LIMIT as int,
        ) as i64,
    };
    &&& !(c.inward.x == 0 && c.inward.y == 0)
    &&& (crate::chamber::inside(chambers[c.reactor_id as int].shape, raw, ev.radius as int)
        ==> p.position == raw)
    &&& 16384 * len2(p.velocity) + 65536 * crate::collision::spec_speed(ev.velocity) >= 16129 * (
    crate::collision::spec_speed(ev.velocity) * crate::collision::spec_speed(ev.velocity))
    &&& exists|j: int|
        #![trigger jitter_dir(c.inward, j)]
        -32 <= j <= 32 && {
            let jit = jitter_dir(c.inward, j);
            let s = crate::collision::spec_speed(ev.velocity);
            &&& (jit.x == 0 && jit.y == 0 ==> p.velocity == (Vec2i { x: 0, y: s as i64 }))
            &&& (!(jit.x == 0 && jit.y == 0) ==> {
                let l = crate::num::sqrt_ceil(len2(jit));
                p.velocity.x == crate::num::tdiv(jit.x * s, l) && p.velocity.y
                    == crate::num::tdiv(jit.y * s, l)
            })
        }
}

/// A particle the outlet pass appended: a live copy of some transport
/// event's particle, placed in the chamber of an outlet port sharing the
/// event's connection id, no faster than the captured particle.
pub open spec fn outlet_spawned(
    p: Particle,
    conns: Seq<Connection>,
    evs: Seq<ConnectionEvent>,
    chambers: Seq<Chamber>,
) -> bool {
    &&& p.alive
    &&& !p.reacted
    &&& p.decay_elapsed_ms == 0
    &&& p.chamber_id < chambers.len()
    &&& crate::chamber::inside(chambers[p.chamber_id as int].shape, p.position, p.radius as int)
    &&& exists|e: int, c: int|
        0 <= e < evs.len() && 0 <= c < conns.len() && !(#[trigger] conns[c]).intake
            && conns[c].connection_id == (#[trigger] evs[e]).connection_id && p.type_index
            == evs[e].type_index && p.selected == evs[e].selected && p.chamber_id
            == conns[c].reactor_id && p.radius == evs[e].radius && p.mass == evs[e].mass && len2(
            p.velocity,
        ) <= len2(evs[e].velocity) && outlet_spawn_shape(p, conns[c], evs[e], chambers)
}

/// An outlet port re-emits a given transport event: it is an outlet
/// sharing the event's connection id whose chamber can hold a body of the
/// captured radius.
pub open spec fn spawnable(c: Connection, chambers: Seq<Chamber>, ev: ConnectionEvent) -> bool {
    &&& !c.intake
    &&& c.connection_id == ev.connection_id
    &&& c.reactor_id < chambers.len()
    &&& crate::chamber::fits(chambers[c.reactor_id as int].shape, ev.radius as int)
}

/// Number of ports that re-emit a given event.
pub open spec fn outlet_fit_count(
    conns: Seq<Connection>,
    chambers: Seq<Chamber>,
    ev: ConnectionEvent,
) -> int
    decreases conns.len(),
{
    if conns.len() == 0 {
        0
    } else {
        outlet_fit_count(conns.drop_last(), chambers, ev) + if spawnable(
            conns.last(),
            chambers,
            ev,
        ) {
            1int
        } else {
            0int
        }
    }
}

/// Number of particles a list of transport events re-emits across all
/// outlet ports.
pub open spec fn total_outlet_spawns(
    conns: Seq<Connection>,
    chambers: Seq<Chamber>,
    evs: Seq<ConnectionEvent>,
) -> int
    decreases evs.len(),
{
    if evs.len() == 0 {
        0
    } else {
        total_outlet_spawns(conns, chambers, evs.drop_last()) + outlet_fit_count(
            conns,
            chambers,
            evs.last(),
        )
    }
}

proof fn lemma_fit_count_step(
    conns: Seq<Connection>,
    chambers: Seq<Chamber>,
    ev: ConnectionEvent,
    c: int,
)
    requires
        0 <= c < conns.len(),
    ensures
        outlet_fit_count(conns.take(c + 1), chambers, ev) == outlet_fit_count(
            conns.take(c),
            chambers,
            ev,
        ) + if spawnable(conns[c], chambers, ev) {
            1int
        } else {
            0int
        },
{
    assert(conns.take(c + 1).drop_last() =~= conns.take(c));
    assert(conns.take(c + 1).last() == conns[c]);
}

proof fn lemma_fit_count_bounds(conns: Seq<Connection>, chambers: Seq<Chamber>, ev: ConnectionEvent)
    ensures
        0 <= outlet_fit_count(conns, chambers, ev) <= conns.len(),
    decreases conns.len(),
{
    if conns.len() > 0 {
        lemma_fit_count_bounds(conns.drop_last(), chambers, ev);
    }
}

proof fn lemma_fit_count_prefix_le(
    conns: Seq<Connection>,
    chambers: Seq<Chamber>,
    ev: ConnectionEvent,
    c: int,
)
    requires
        0 <= c <= conns.len(),
    ensures
        outlet_fit_count(conns.take(c), chambers, ev) <= outlet_fit_count(conns, chambers, ev),
    decreases conns.len() - c,
{
    if c == conns.len() {
        assert(conns.take(c) =~= conns);
    } else {
        lemma_fit_count_step(conns, chambers, ev, c);
        lemma_fit_count_prefix_le(conns, chambers, ev, c + 1);
    }
}

proof fn lemma_total_step(
    conns: Seq<Connection>,
    chambers: Seq<Chamber>,
    evs: Seq<ConnectionEvent>,
    e: int,
)
    requires
        0 <= e < evs.len(),
    ensures
        total_outlet_spawns(conns, chambers, evs.take(e + 1)) == total_outlet_spawns(
            conns,
            chambers,
            evs.take(e),
        ) + outlet_fit_count(conns, chambers, evs[e]),
{
    assert(evs.take(e + 1).drop_last() =~= evs.take(e));
    assert(evs.take(e + 1).last() == evs[e]);
}

proof fn lemma_total_prefix_le(
    conns: Seq<Connection>,
    chambers: Seq<Chamber>,
    evs: Seq<ConnectionEvent>,
    e: int,
)
    requires
        0 <= e <= evs.len(),
    ensures
        total_outlet_spawns(conns, chambers, evs.take(e)) <= total_outlet_spawns(
            conns,
            chambers,
            evs,
        ),
    decreases evs.len() - e,
{
    if e == evs.len() {
        assert(evs.take(e) =~= evs);
    } else {
        lemma_total_step(conns, chambers, evs, e);
        lemma_fit_count_bounds(conns, chambers, evs[e]);
        lemma_total_prefix_le(conns, chambers, evs, e + 1);
    }
}

/// The outlet pass of a tick: each transport event is re-emitted at every
/// outlet port sharing its connection id — a fan-out — as a new particle of
/// the captured type, just inside the boundary at the port, at the captured
/// speed pointed inward with a small random angular jitter, subject to the
/// capacity governor. An event with no matching outlet vanishes, and so
/// does a re-emission whose body cannot fit the outlet's chamber — a
/// configuration no built-in table produces.
#[verifier::rlimit(80)]
pub fn outlet_pass(
    chambers: &Vec<Chamber>,
    connections: &Vec<Connection>,
    events: &Vec<ConnectionEvent>,
    particles: &mut Vec<Particle>,
    live: &mut usize,
    rng: &mut SimRng,
    cap: usize,
    n_kinds: usize,
)
    requires
        forall|c: int| 0 <= c < chambers@.len() ==> chamber_wf(#[trigger] chambers@[c]),
        forall|c: int|
            0 <= c < connections@.len() ==> connection_wf(
                #[trigger] connections@[c],
                chambers@.len() as int,
            ),
        forall|e: int|
            0 <= e < events@.len() ==> {
                let ev = #[trigger] events@[e];
                &&& ev.type_index < n_kinds
                &&& 1 <= ev.radius <= MAX_RADIUS
                &&& 1 <= ev.mass <= MAX_MASS
                &&& bounded(ev.velocity, SPEED_LIMIT as int)
            },
        store_wf(old(particles)@, n_kinds as int, chambers@),
        *old(live) == live_count(old(particles)@),
    ensures
        final(particles)@.len() >= old(particles)@.len(),
        store_wf(final(particles)@, n_kinds as int, chambers@),
        *final(live) == live_count(final(particles)@),
        live_count(final(particles)@) <= int_max(live_count(old(particles)@), cap as int),
        forall|k: int|
            0 <= k < old(particles)@.len() ==> #[trigger] final(particles)@[k] == old(
                particles,
            )@[k],
        forall|n: int|
            old(particles)@.len() <= n < final(particles)@.len() ==> outlet_spawned(
                #[trigger] final(particles)@[n],
                connections@,
                events@,
                chambers@,
            ),
        live_count(old(particles)@) + total_outlet_spawns(connections@, chambers@, events@)
            <= cap as int ==> final(particles)@.len() == old(particles)@.len()
            + total_outlet_spawns(connections@, chambers@, events@),
{
    let ghost parts0 = particles@;
    let ghost conns = connections@;
    let ghost evs = events@;
    let n0 = particles.len();
    let mut e: usize = 0;
    while e < events.len()
        invariant
            n0 == parts0.len(),
            parts0 == old(particles)@,
            conns == connections@,
            evs == events@,
            forall|c: int| 0 <= c < chambers@.len() ==> chamber_wf(#[trigger] chambers@[c]),
            forall|c: int|
                0 <= c < conns.len() ==> connection_wf(#[trigger] conns[c], chambers@.len() as int),
            forall|w: int|
                0 <= w < evs.len() ==> {
                    let ev = #[trigger] evs[w];
                    &&& ev.type_index < n_kinds
                    &&& 1 <= ev.radius <= MAX_RADIUS
                    &&& 1 <= ev.mass <= MAX_MASS
                    &&& bounded(ev.velocity, SPEED_LIMIT as int)
                },
            particles@.len() >= n0,
            store_wf(particles@, n_kinds as int, chambers@),
            *live == live_count(particles@),
            live_count(particles@) <= int_max(live_count(parts0), cap as int),
            e <= evs.len(),
            forall|k: int| 0 <= k < n0 ==> #[trigger] particles@[k] == parts0[k],
            forall|n: int|
                n0 <= n < particles@.len() ==> outlet_spawned(
                    #[trigger] particles@[n],
                    conns,
                    evs,
                    chambers@,
                ),
            live_count(particles@) == live_count(parts0) + particles@.len() - n0,
            live_count(parts0) + total_outlet_spawns(conns, chambers@, evs) <= cap as int
                ==> particles@.len() == n0 + total_outlet_spawns(
                conns,
                chambers@,
                evs.take(e as int),
            ),
        decreases events@.len() - e,
    {
        let ev = &events[e];
        let mut c: usize = 0;
        while c < connections.len()
            invariant
                n0 == parts0.len(),
                parts0 == old(particles)@,
                conns == connections@,
                evs == events@,
                forall|w: int| 0 <= w < chambers@.len() ==> chamber_wf(#[trigger] chambers@[w]),
                forall|w: int|
                    0 <= w < conns.len() ==> connection_wf(
                        #[trigger] conns[w],
                        chambers@.len() as int,
                    ),
                forall|w: int|
                    0 <= w < evs.len() ==> {
                        let x = #[trigger] evs[w];
                        &&& x.type_index < n_kinds
                        &&& 1 <= x.radius <= MAX_RADIUS
                        &&& 1 <= x.mass <= MAX_MASS
                        &&& bounded(x.velocity, SPEED_LIMIT as int)
                    },
                particles@.len() >= n0,
                store_wf(particles@, n_kinds as int, chambers@),
                *live == live_count(particles@),
                live_count(particles@) <= int_max(live_count(parts0), cap as int),
                e < evs.len(),
                ev == evs[e as int],
                c <= conns.len(),
                forall|k: int| 0 <= k < n0 ==> #[trigger] particles@[k] == parts0[k],
                forall|n: int|
                    n0 <= n < particles@.len() ==> outlet_spawned(
                        #[trigger] particles@[n],
                        conns,
                        evs,
                        chambers@,
                    ),
                live_count(particles@) == live_count(parts0) + particles@.len() - n0,
                live_count(parts0) + total_outlet_spawns(conns, chambers@, evs) <= cap as int
                    ==> particles@.len() == n0 + total_outlet_spawns(
                    conns,
                    chambers@,
                    evs.take(e as int),
                ) + outlet_fit_count(conns.take(c as int), chambers@, evs[e as int]),
            decreases connections@.len() - c,
        {
            let conn = &connections[c];
            if !conn.intake && conn.connection_id == ev.connection_id {
                let fit = crate::chamber::radius_fits(&chambers[conn.reactor_id].shape, ev.radius);
                proof {
                    lemma_fit_count_step(conns, chambers@, evs[e as int], c as int);
                    if live_count(parts0) + total_outlet_spawns(conns, chambers@, evs)
                        <= cap as int && fit {
                        // Under the capacity hypothesis the governor cannot
                        // refuse this spawn.
                        lemma_fit_count_prefix_le(conns, chambers@, evs[e as int], c as int + 1);
                        lemma_total_step(conns, chambers@, evs, e as int);
                        lemma_total_prefix_le(conns, chambers@, evs, e as int + 1);
                        lemma_live_count_bounds(parts0);
                        assert(*live < cap);
                    }
                }
                if fit {
                    if *live < cap {
                        let bits = rng.next_bits();
                        let j: i64 = ((bits % 65) as i64) - 32;
                        proof {
                            assert(-32_000 <= (conn.inward.x as int) * (j as int) <= 32_000)
                                by (nonlinear_arith)
                                requires
                                    -1000 <= conn.inward.x as int <= 1000,
                                    -32 <= j as int <= 32,
                            ;
                            assert(-32_000 <= (conn.inward.y as int) * (j as int) <= 32_000)
                                by (nonlinear_arith)
                                requires
                                    -1000 <= conn.inward.y as int <= 1000,
                                    -32 <= j as int <= 32,
                            ;
                        }
                        let dir = Vec2i {
                            x: conn.inward.x * 128 - conn.inward.y * j,
                            y: conn.inward.y * 128 + conn.inward.x * j,
                        };
                        let speed = crate::collision::speed_of(ev.velocity);
                        let vel = scale_to_length(dir, speed);
                        let inset = scale_to_length(conn.inward, (101 * ev.radius) / 100);
                        let raw = shift_clamped(conn.position, inset.x, inset.y);
                        let pos = crate::chamber::clamp_to_chamber(
                            &chambers[conn.reactor_id].shape,
                            raw,
                            ev.radius,
                        );
                        let newp = Particle {
                            alive: true,
                            chamber_id: conn.reactor_id,
                            type_index: ev.type_index,
                            radius: ev.radius,
                            mass: ev.mass,
                            position: pos,
                            velocity: vel,
                            reacted: false,
                            decay_elapsed_ms: 0,
                            selected: ev.selected,
                        };
                        proof {
                            lemma_live_count_push(particles@, newp);
                            assert(len2(vel) <= (speed as int) * (speed as int));
                        }
                        proof {
                            let ix = conn.inward.x as int;
                            let iy = conn.inward.y as int;
                            let jj = j as int;
                            let d2 = len2(dir);
                            let ss = speed as int;
                            assert(d2 == (16384 + jj * jj) * (ix * ix + iy * iy))
                                by (nonlinear_arith)
                                requires
                                    dir.x as int == ix * 128 - iy * jj,
                                    dir.y as int == iy * 128 + ix * jj,
                                    d2 == (dir.x as int) * (dir.x as int) + (dir.y as int) * (
                                    dir.y as int),
                            ;
                            assert(ix * ix + iy * iy >= 1) by (nonlinear_arith)
                                requires !(ix == 0 && iy == 0);
                            assert(d2 >= 16384) by (nonlinear_arith)
                                requires
                                    d2 == (16384 + jj * jj) * (ix * ix + iy * iy),
                                    ix * ix + iy * iy >= 1,
                            ;
                            assert(!(dir.x == 0 && dir.y == 0)) by (nonlinear_arith)
                                requires d2 == (dir.x as int) * (dir.x as int) + (dir.y as int) * (
                                dir.y as int), d2 >= 16384;
                            crate::num::lemma_sqrt_ceil_exists(d2);
                            let l = crate::num::sqrt_ceil(d2);
                            assert(l >= 128) by (nonlinear_arith)
                                requires l >= 0, l * l >= d2, d2 >= 16384;
                            crate::num::lemma_scaled_len_lower(
                                dir.x as int,
                                dir.y as int,
                                ss,
                                l,
                                vel.x as int,
                                vel.y as int,
                            );
                            assert(16384 * ((l - 1) * (l - 1)) >= 16129 * (l * l))
                                by (nonlinear_arith)
                                requires l >= 128;
                            assert(len2(vel) * (l * l) * 16384 >= (l * l) * (16129 * (ss * ss)
                                - 65536 * ss)) by (nonlinear_arith)
                                requires
                                    len2(vel) * (l * l) >= ss * ss * ((l - 1) * (l - 1)) - 4 * ss
                                        * (l * l),
                                    16384 * ((l - 1) * (l - 1)) >= 16129 * (l * l),
                                    ss >= 0,
                                    l >= 1,
                            ;
                            assert(16384 * len2(vel) + 65536 * ss >= 16129 * (ss * ss))
                                by (nonlinear_arith)
                                requires
                                    len2(vel) * (l * l) * 16384 >= (l * l) * (16129 * (ss * ss)
                                        - 65536 * ss),
                                    l >= 1,
                            ;
                        }
                        particles.push(newp);
                        *live = *live + 1;
                        proof {
                            assert(-32 <= j as int <= 32 && {
                                let jit = jitter_dir(conn.inward, j as int);
                                let s = crate::collision::spec_speed(ev.velocity);
                                &&& (jit.x == 0 && jit.y == 0 ==> newp.velocity == (Vec2i {
                                    x: 0,
                                    y: s as i64,
                                }))
                                &&& (!(jit.x == 0 && jit.y == 0) ==> {
                                    let l = crate::num::sqrt_ceil(len2(jit));
                                    newp.velocity.x == crate::num::tdiv(jit.x * s, l)
                                        && newp.velocity.y == crate::num::tdiv(jit.y * s, l)
                                })
                            });
                            assert(outlet_spawn_shape(newp, conns[c as int], evs[e as int], chambers@));
                            assert(outlet_spawned(particles@.last(), conns, evs, chambers@));
                        }
                    }
                }
            } else {
                proof {
                    lemma_fit_count_step(conns, chambers@, evs[e as int], c as int);
                }
            }
            c = c + 1;
        }
        proof {
            assert(conns.take(conns.len() as int) =~= conns);
            lemma_total_step(conns, chambers@, evs, e as int);
        }
        e = e + 1;
    }
    proof {
        assert(evs.take(evs.len() as int) =~= evs);
    }
}

} // verus!
