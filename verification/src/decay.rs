//! The decay engine: unstable particles accrue time on their decay timer —
//! gated by their chamber's conditions when the decay outcome is itself a
//! reaction — and are destroyed when it elapses, spawning their decay
//! products subject to the capacity governor.

use vstd::prelude::*;
use crate::chamber::Chamber;
use crate::collision::int_max;
use crate::config::{Lifetime, LifetimeSpec, ReactionInfo, SimConfig, config_wf, view_lifetime,
    within_windows};
use crate::num::MAX_DT_MS;
use crate::particle::{Particle, live_count, lemma_live_count_bounds, lemma_live_count_push,
    lemma_live_count_update, particle_wf, store_wf};
use crate::rng::{SimRng, dir_from_bits};

verus! {

/// Whether a decay timer accrues time under the given chamber conditions:
/// always, for a plain disappearance; only within the outcome's windows,
/// for a decay that is itself a reaction.
pub open spec fn decay_gated(lt: LifetimeSpec, t: int, p: int) -> bool {
    lt.unstable && (!lt.outcome.reacts || within_windows(lt.outcome, t, p))
}

/// Whether a particle's decay timer elapses during this step.
pub open spec fn decay_expires(p0: Particle, lt: LifetimeSpec, t: int, pr: int, dt: int) -> bool {
    decay_gated(lt, t, pr) && p0.decay_elapsed_ms + dt >= lt.duration_ms
}

/// The elapsed time a particle's decay timer shows after a step: it
/// accrues while conditions admit decay, and keeps its last value both on
/// the step the timer elapses (the particle is destroyed then) and while
/// conditions block decay.
pub open spec fn decay_next_elapsed(p0: Particle, lt: LifetimeSpec, t: int, pr: int, dt: int) -> int {
    if decay_gated(lt, t, pr) && !decay_expires(p0, lt, t, pr, dt) {
        p0.decay_elapsed_ms + dt
    } else {
        p0.decay_elapsed_ms as int
    }
}

/// Whether a slot will, this step, expire with a product-bearing outcome —
/// the only case in which the decay pass may append particles.
pub open spec fn decay_spawning(
    c: SimConfig,
    chambers: Seq<Chamber>,
    p0: Particle,
    dt: int,
) -> bool {
    let lt = view_lifetime(c.kinds[p0.type_index as int].lifetime);
    let ch = chambers[p0.chamber_id as int];
    &&& p0.alive
    &&& lt.unstable
    &&& lt.outcome.reacts
    &&& lt.outcome.products.len() > 0
    &&& decay_expires(p0, lt, ch.temperature as int, ch.pressure as int, dt)
}

/// A decay product can be realised in the given chamber: its type is known
/// and a body of its radius fits the chamber.
pub open spec fn product_fits(c: SimConfig, chambers: Seq<Chamber>, cid: int, t: usize) -> bool {
    &&& t < c.kinds.len()
    &&& 0 <= cid < chambers.len()
    &&& crate::chamber::fits(chambers[cid].shape, c.kinds[t as int].radius as int)
}

/// Number of realisable products in a product list.
pub open spec fn product_fit_count(
    c: SimConfig,
    chambers: Seq<Chamber>,
    cid: int,
    products: Seq<usize>,
) -> int
    decreases products.len(),
{
    if products.len() == 0 {
        0
    } else {
        product_fit_count(c, chambers, cid, products.drop_last()) + if product_fits(
            c,
            chambers,
            cid,
            products.last(),
        ) {
            1int
        } else {
            0int
        }
    }
}

/// Number of particles one slot's decay will spawn this step.
pub open spec fn decay_spawn_count(
    c: SimConfig,
    chambers: Seq<Chamber>,
    p0: Particle,
    dt: int,
) -> int {
    let lt = view_lifetime(c.kinds[p0.type_index as int].lifetime);
    let ch = chambers[p0.chamber_id as int];
    if p0.alive && lt.unstable && lt.outcome.reacts && decay_expires(
        p0,
        lt,
        ch.temperature as int,
        ch.pressure as int,
        dt,
    ) {
        product_fit_count(c, chambers, p0.chamber_id as int, lt.outcome.products)
    } else {
        0
    }
}

/// Number of particles the decay pass spawns over a whole store.
pub open spec fn total_decay_spawns(
    c: SimConfig,
    chambers: Seq<Chamber>,
    parts: Seq<Particle>,
    dt: int,
) -> int
    decreases parts.len(),
{
    if parts.len() == 0 {
        0
    } else {
        total_decay_spawns(c, chambers, parts.drop_last(), dt) + decay_spawn_count(
            c,
            chambers,
            parts.last(),
            dt,
        )
    }
}

proof fn lemma_pfc_step(c: SimConfig, chambers: Seq<Chamber>, cid: int, products: Seq<usize>, t: int)
    requires
        0 <= t < products.len(),
    ensures
        product_fit_count(c, chambers, cid, products.take(t + 1)) == product_fit_count(
            c,
            chambers,
            cid,
            products.take(t),
        ) + if product_fits(c, chambers, cid, products[t]) {
            1int
        } else {
            0int
        },
{
    assert(products.take(t + 1).drop_last() =~= products.take(t));
    assert(products.take(t + 1).last() == products[t]);
}

proof fn lemma_pfc_bounds(c: SimConfig, chambers: Seq<Chamber>, cid: int, products: Seq<usize>)
    ensures
        0 <= product_fit_count(c, chambers, cid, products) <= products.len(),
    decreases products.len(),
{
    if products.len() > 0 {
        lemma_pfc_bounds(c, chambers, cid, products.drop_last());
    }
}

proof fn lemma_pfc_prefix_le(
    c: SimConfig,
    chambers: Seq<Chamber>,
    cid: int,
    products: Seq<usize>,
    t: int,
)
    requires
        0 <= t <= products.len(),
    ensures
        product_fit_count(c, chambers, cid, products.take(t)) <= product_fit_count(
            c,
            chambers,
            cid,
            products,
        ),
    decreases products.len() - t,
{
    if t == products.len() {
        assert(products.take(t) =~= products);
    } else {
        lemma_pfc_step(c, chambers, cid, products, t);
        lemma_pfc_prefix_le(c, chambers, cid, products, t + 1);
    }
}

proof fn lemma_tds_step(c: SimConfig, chambers: Seq<Chamber>, parts: Seq<Particle>, dt: int, k: int)
    requires
        0 <= k < parts.len(),
    ensures
        total_decay_spawns(c, chambers, parts.take(k + 1), dt) == total_decay_spawns(
            c,
            chambers,
            parts.take(k),
            dt,
        ) + decay_spawn_count(c, chambers, parts[k], dt),
{
    assert(parts.take(k + 1).drop_last() =~= parts.take(k));
    assert(parts.take(k + 1).last() == parts[k]);
}

proof fn lemma_dsc_nonneg(c: SimConfig, chambers: Seq<Chamber>, p0: Particle, dt: int)
    ensures
        0 <= decay_spawn_count(c, chambers, p0, dt),
{
    let lt = view_lifetime(c.kinds[p0.type_index as int].lifetime);
    lemma_pfc_bounds(c, chambers, p0.chamber_id as int, lt.outcome.products);
}

proof fn lemma_tds_prefix_le(
    c: SimConfig,
    chambers: Seq<Chamber>,
    parts: Seq<Particle>,
    dt: int,
    k: int,
)
    requires
        0 <= k <= parts.len(),
    ensures
        total_decay_spawns(c, chambers, parts.take(k), dt) <= total_decay_spawns(
            c,
            chambers,
            parts,
            dt,
        ),
    decreases parts.len() - k,
{
    if k == parts.len() {
        assert(parts.take(k) =~= parts);
    } else {
        lemma_tds_step(c, chambers, parts, dt, k);
        lemma_dsc_nonneg(c, chambers, parts[k], dt);
        lemma_tds_prefix_le(c, chambers, parts, dt, k + 1);
    }
}

/// A particle the decay pass appended: a live, fresh particle of one of
/// the expired particle's product types, placed at the expired particle's
/// position with the product's table radius and mass, moving at the
/// product's launch speed (up to the rounding of the square root) in some
/// direction.
pub open spec fn decay_spawned(
    c: SimConfig,
    chambers: Seq<Chamber>,
    parts0: Seq<Particle>,
    dt: int,
    p: Particle,
) -> bool {
    let kind = c.kinds[p.type_index as int];
    &&& p.alive
    &&& !p.reacted
    &&& p.decay_elapsed_ms == 0
    &&& !p.selected
    &&& p.type_index < c.kinds.len()
    &&& p.radius == kind.radius
    &&& p.mass == kind.mass
    &&& crate::vec2::len2(p.velocity) <= kind.launch_speed * kind.launch_speed
    &&& (kind.launch_speed >= 3 ==> crate::vec2::len2(p.velocity) > (kind.launch_speed - 2) * (
    kind.launch_speed - 2))
    &&& exists|w: int|
        0 <= w < parts0.len() && decay_spawning(c, chambers, #[trigger] parts0[w], dt)
            && p.chamber_id == parts0[w].chamber_id && p.position == parts0[w].position
            && view_lifetime(
            c.kinds[parts0[w].type_index as int].lifetime,
        ).outcome.products.contains(p.type_index)
}

/// The decay pass of a tick. Every live unstable particle accrues `dt_ms`
/// on its timer when conditions admit; one whose timer elapses is destroyed
/// and its decay products spawn at its position with their launch speed in
/// a random direction, subject to the capacity governor. A product whose
/// table radius cannot fit the chamber is skipped like a capacity refusal —
/// a configuration no built-in table produces.
pub fn decay_pass(
    config: &SimConfig,
    chambers: &Vec<Chamber>,
    particles: &mut Vec<Particle>,
    live: &mut usize,
    rng: &mut SimRng,
    dt_ms: u64,
)
    requires
        config_wf(*config),
        store_wf(old(particles)@, config.kinds@.len() as int, chambers@),
        *old(live) == live_count(old(particles)@),
        1 <= dt_ms <= MAX_DT_MS,
    ensures
        final(particles)@.len() >= old(particles)@.len(),
        store_wf(final(particles)@, config.kinds@.len() as int, chambers@),
        *final(live) == live_count(final(particles)@),
        live_count(final(particles)@) <= int_max(
            live_count(old(particles)@),
            config.cap as int,
        ),
        forall|k: int|
            0 <= k < old(particles)@.len() ==> {
                let p0 = old(particles)@[k];
                let p = #[trigger] final(particles)@[k];
                let lt = view_lifetime(config.kinds@[p0.type_index as int].lifetime);
                let ch = chambers@[p0.chamber_id as int];
                &&& p.type_index == p0.type_index
                &&& p.chamber_id == p0.chamber_id
                &&& p.radius == p0.radius
                &&& p.mass == p0.mass
                &&& p.position == p0.position
                &&& p.velocity == p0.velocity
                &&& p.reacted == p0.reacted
                &&& p.selected == p0.selected
                &&& (!p0.alive ==> p == p0)
                &&& (p0.alive && !lt.unstable ==> p == p0)
                &&& (p0.alive && lt.unstable ==> p.alive == !decay_expires(
                    p0,
                    lt,
                    ch.temperature as int,
                    ch.pressure as int,
                    dt_ms as int,
                ) && p.decay_elapsed_ms == decay_next_elapsed(
                    p0,
                    lt,
                    ch.temperature as int,
                    ch.pressure as int,
                    dt_ms as int,
                ))
            },
        (forall|k: int|
            0 <= k < old(particles)@.len() ==> !decay_spawning(
                *config,
                chambers@,
                #[trigger] old(particles)@[k],
                dt_ms as int,
            )) ==> final(particles)@.len() == old(particles)@.len(),
        live_count(old(particles)@) + total_decay_spawns(
            *config,
            chambers@,
            old(particles)@,
            dt_ms as int,
        ) <= config.cap as int ==> final(particles)@.len() == old(particles)@.len()
            + total_decay_spawns(*config, chambers@, old(particles)@, dt_ms as int),
        forall|n: int|
            old(particles)@.len() <= n < final(particles)@.len() ==> decay_spawned(
                *config,
                chambers@,
                old(particles)@,
                dt_ms as int,
                #[trigger] final(particles)@[n],
            ),
{
    let ghost parts0 = particles@;
    let ghost k_kinds = config.kinds@.len() as int;
    let n0 = particles.len();
    let mut k: usize = 0;
    while k < n0
        invariant
            config_wf(*config),
            k_kinds == config.kinds@.len(),
            n0 == parts0.len(),
            parts0 == old(particles)@,
            1 <= dt_ms <= MAX_DT_MS,
            particles@.len() >= n0,
            store_wf(particles@, k_kinds, chambers@),
            store_wf(parts0, k_kinds, chambers@),
            *live == live_count(particles@),
            live_count(particles@) <= int_max(live_count(parts0), config.cap as int),
            k <= n0,
            forall|w: int| k <= w < n0 ==> #[trigger] particles@[w] == parts0[w],
            forall|w: int|
                0 <= w < k ==> {
                    let p0 = parts0[w];
                    let p = #[trigger] particles@[w];
                    let lt = view_lifetime(config.kinds@[p0.type_index as int].lifetime);
                    let ch = chambers@[p0.chamber_id as int];
                    &&& p.type_index == p0.type_index
                    &&& p.chamber_id == p0.chamber_id
                    &&& p.radius == p0.radius
                    &&& p.mass == p0.mass
                    &&& p.position == p0.position
                    &&& p.velocity == p0.velocity
                    &&& p.reacted == p0.reacted
                    &&& p.selected == p0.selected
                    &&& (!p0.alive ==> p == p0)
                    &&& (p0.alive && !lt.unstable ==> p == p0)
                    &&& (p0.alive && lt.unstable ==> p.alive == !decay_expires(
                        p0,
                        lt,
                        ch.temperature as int,
                        ch.pressure as int,
                        dt_ms as int,
                    ) && p.decay_elapsed_ms == decay_next_elapsed(
                        p0,
                        lt,
                        ch.temperature as int,
                        ch.pressure as int,
                        dt_ms as int,
                    ))
                },
            particles@.len() > n0 ==> exists|w: int|
                0 <= w < k && decay_spawning(*config, chambers@, #[trigger] parts0[w], dt_ms as int),
            live_count(particles@) <= live_count(parts0) + particles@.len() - n0,
            live_count(parts0) + total_decay_spawns(*config, chambers@, parts0, dt_ms as int)
                <= config.cap as int ==> particles@.len() == n0 + total_decay_spawns(
                *config,
                chambers@,
                parts0.take(k as int),
                dt_ms as int,
            ),
            forall|n: int|
                n0 <= n < particles@.len() ==> decay_spawned(
                    *config,
                    chambers@,
                    parts0,
                    dt_ms as int,
                    #[trigger] particles@[n],
                ),
        decreases n0 - k,
    {
        let p = particles[k];
        if p.alive {
            let kind = &config.kinds[p.type_index];
            match &kind.lifetime {
                Lifetime::Stable => {},
                Lifetime::Unstable { duration_ms, outcome } => {
                    let ch = &chambers[p.chamber_id];
                    let gated: bool = match outcome {
                        ReactionInfo::Inert => true,
                        ReactionInfo::Reaction { products, temperature, pressure } => {
                            temperature.0 <= ch.temperature && ch.temperature <= temperature.1
                                && pressure.0 <= ch.pressure && ch.pressure <= pressure.1
                        },
                    };
                    if gated {
                        let expired: bool = p.decay_elapsed_ms >= *duration_ms || *duration_ms
                            - p.decay_elapsed_ms <= dt_ms;
                        let mut p2 = p;
                        if expired {
                            p2.alive = false;
                            proof {
                                lemma_live_count_update(particles@, k as int, p2);
                            }
                            particles[k] = p2;
                            proof {
                                lemma_live_count_bounds(particles@);
                            }
                            *live = *live - 1;
                            match outcome {
                                ReactionInfo::Inert => {},
                                ReactionInfo::Reaction { products, temperature, pressure } => {
                                    let ghost processed_before = particles@;
                                    let mut t: usize = 0;
                                    while t < products.len()
                                        invariant
                                            config_wf(*config),
                                            k_kinds == config.kinds@.len(),
                                            n0 == parts0.len(),
                                            parts0 == old(particles)@,
                                            particles@.len() >= n0,
                                            store_wf(particles@, k_kinds, chambers@),
                                            *live == live_count(particles@),
                                            live_count(particles@) <= int_max(
                                                live_count(parts0),
                                                config.cap as int,
                                            ),
                                            k < n0,
                                            t <= products@.len(),
                                            decay_spawning(
                                                *config,
                                                chambers@,
                                                parts0[k as int],
                                                dt_ms as int,
                                            ) || products@.len() == 0,
                                            forall|w: int|
                                                0 <= w < products@.len() ==> (
                                                #[trigger] products@[w]) < k_kinds,
                                            n0 <= processed_before.len(),
                                            particles@.len() >= processed_before.len(),
                                            particles@.len() > processed_before.len()
                                                ==> decay_spawning(
                                                *config,
                                                chambers@,
                                                parts0[k as int],
                                                dt_ms as int,
                                            ),
                                            p.chamber_id < chambers@.len(),
                                            crate::vec2::bounded(
                                                p.position,
                                                crate::num::POS_LIMIT as int,
                                            ),
                                            p == parts0[k as int],
                                            products@
                                                == view_lifetime(
                                                config.kinds@[p.type_index as int].lifetime,
                                            ).outcome.products,
                                            forall|n: int|
                                                n0 <= n < particles@.len() ==> decay_spawned(
                                                    *config,
                                                    chambers@,
                                                    parts0,
                                                    dt_ms as int,
                                                    #[trigger] particles@[n],
                                                ),
                                            live_count(particles@) <= live_count(parts0)
                                                + particles@.len() - n0,
                                            live_count(parts0) + total_decay_spawns(
                                                *config,
                                                chambers@,
                                                parts0,
                                                dt_ms as int,
                                            ) <= config.cap as int ==> {
                                                &&& processed_before.len() == n0
                                                    + total_decay_spawns(
                                                    *config,
                                                    chambers@,
                                                    parts0.take(k as int),
                                                    dt_ms as int,
                                                )
                                                &&& particles@.len() == processed_before.len()
                                                    + product_fit_count(
                                                    *config,
                                                    chambers@,
                                                    p.chamber_id as int,
                                                    products@.take(t as int),
                                                )
                                                &&& decay_spawn_count(
                                                    *config,
                                                    chambers@,
                                                    parts0[k as int],
                                                    dt_ms as int,
                                                ) == product_fit_count(
                                                    *config,
                                                    chambers@,
                                                    p.chamber_id as int,
                                                    products@,
                                                )
                                            },
                                            forall|w: int|
                                                0 <= w < n0 ==> #[trigger] particles@[w]
                                                    == processed_before[w],
                                        decreases products@.len() - t,
                                    {
                                        let pk = &config.kinds[products[t]];
                                        let fit = crate::chamber::radius_fits(
                                            &chambers[p.chamber_id].shape,
                                            pk.radius,
                                        );
                                        proof {
                                            lemma_pfc_step(
                                                *config,
                                                chambers@,
                                                p.chamber_id as int,
                                                products@,
                                                t as int,
                                            );
                                            if live_count(parts0) + total_decay_spawns(
                                                *config,
                                                chambers@,
                                                parts0,
                                                dt_ms as int,
                                            ) <= config.cap as int && fit {
                                                // Under the capacity
                                                // hypothesis the governor
                                                // cannot refuse this spawn.
                                                lemma_pfc_prefix_le(
                                                    *config,
                                                    chambers@,
                                                    p.chamber_id as int,
                                                    products@,
                                                    t as int + 1,
                                                );
                                                lemma_tds_step(
                                                    *config,
                                                    chambers@,
                                                    parts0,
                                                    dt_ms as int,
                                                    k as int,
                                                );
                                                lemma_tds_prefix_le(
                                                    *config,
                                                    chambers@,
                                                    parts0,
                                                    dt_ms as int,
                                                    k as int + 1,
                                                );
                                                assert(*live < config.cap);
                                            }
                                        }
                                        if fit {
                                            if *live < config.cap {
                                                let bits = rng.next_bits();
                                                let vel = dir_from_bits(bits, pk.launch_speed);
                                                let newp = Particle {
                                                    alive: true,
                                                    chamber_id: p.chamber_id,
                                                    type_index: products[t],
                                                    radius: pk.radius,
                                                    mass: pk.mass,
                                                    position: p.position,
                                                    velocity: vel,
                                                    reacted: false,
                                                    decay_elapsed_ms: 0,
                                                    selected: false,
                                                };
                                                proof {
                                                    lemma_live_count_push(particles@, newp);
                                                    assert(crate::config::kind_wf(
                                                        config.kinds@[products@[t as int] as int],
                                                        config.kinds@.len() as int,
                                                    ));
                                                }
                                                particles.push(newp);
                                                *live = *live + 1;
                                                proof {
                                                    assert(view_lifetime(
                                                        config.kinds@[parts0[k as int].type_index as int].lifetime,
                                                    ).outcome.products.contains(newp.type_index));
                                                    assert(decay_spawned(
                                                        *config,
                                                        chambers@,
                                                        parts0,
                                                        dt_ms as int,
                                                        particles@.last(),
                                                    ));
                                                }
                                            }
                                        }
                                        t = t + 1;
                                    }
                                    proof {
                                        assert(products@.take(products@.len() as int)
                                            =~= products@);
                                    }
                                },
                            }
                        } else {
                            p2.decay_elapsed_ms = p.decay_elapsed_ms + dt_ms;
                            proof {
                                lemma_live_count_update(particles@, k as int, p2);
                            }
                            particles[k] = p2;
                        }
                    }
                },
            }
        }
        proof {
            lemma_tds_step(*config, chambers@, parts0, dt_ms as int, k as int);
        }
        k = k + 1;
    }
    proof {
        assert(parts0.take(n0 as int) =~= parts0);
    }
}

} // verus!
