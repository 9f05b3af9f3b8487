//! The simulation state and the per-tick schedule: capacity bookkeeping,
//! decay, pairwise collision and reaction, boundary resolution and
//! correction, then transport intake and outlet, in that fixed order.

use vstd::prelude::*;
use crate::chamber::{Chamber, Shape, chamber_wf, clamp_to_chamber, fits, inside, radius_fits};
use crate::collision::{int_max, pairwise_pass, quiescent, reactions_disjoint};
use crate::config::{Connection, SimConfig, WinCondition, config_wf, connection_wf, default_config,
    get_reactor_connections, get_reactor_initialization, get_reactors, kind_wf, reactor_count};
use crate::config::view_lifetime;
use crate::decay::{decay_expires, decay_next_elapsed, decay_pass};
use crate::motion::{boundary_pass, correction_pass, moved_position, moved_velocity_x,
    moved_velocity_y};
use crate::num::{spec_clamp, clamp_wide, MAX_DT_MS, POS_LIMIT, SPEED_LIMIT};
use crate::particle::{ConnectionEvent, Particle, ReactionEvent, SoundEffectEvent, live_count,
    lemma_live_count_bounds, lemma_live_count_push, lemma_live_count_update, particle_wf,
    store_wf};
use crate::rng::SimRng;
use crate::transport::{intake_pass, outlet_pass};
use crate::vec2::{Vec2i, bounded};

verus! {

/// The whole simulation: configuration tables, chambers, boundary ports,
/// the live particle store with its cached live count, the cost spent on
/// launches, and the direction-sampling generator.
pub struct SimState {
    pub config: SimConfig,
    pub chambers: Vec<Chamber>,
    pub connections: Vec<Connection>,
    pub particles: Vec<Particle>,
    pub live: usize,
    pub cost: u64,
    pub rng: SimRng,
}

/// The events one tick produces for the external layers: collision sounds,
/// the reacting pairs, and the transport captures.
pub struct TickOutput {
    pub sounds: Vec<SoundEffectEvent>,
    pub reactions: Vec<ReactionEvent>,
    pub transports: Vec<ConnectionEvent>,
}

/// A molecule spawner dropped into a chamber: at fixed intervals it emits
/// one molecule of its type toward the chamber's centre line, through the
/// same capacity path as every other spawn.
pub struct MoleculeSpawnerInfo {
    pub spawner_index: usize,
    pub chamber_id: usize,
    pub position: Vec2i,
    pub period_ms: u64,
    pub elapsed_ms: u64,
}

pub open spec fn spawner_wf(s: MoleculeSpawnerInfo) -> bool {
    &&& 1 <= s.period_ms <= 1_000_000_000_000
    &&& s.elapsed_ms < s.period_ms
    &&& bounded(s.position, crate::num::MAX_COORD as int)
}

/// Every particle of the store is of a stable type: nothing decays.
pub open spec fn all_stable(c: SimConfig, parts: Seq<Particle>) -> bool {
    forall|k: int|
        0 <= k < parts.len() ==> !view_lifetime(
            c.kinds[(#[trigger] parts[k]).type_index as int].lifetime,
        ).unstable
}

/// A particle `load_level` seeds from one row of the seeding table: a live
/// fresh particle of the row's type in the level's first chamber, at the
/// row's position relative to the chamber centre (held inside the chamber)
/// and at the row's velocity.
pub open spec fn seeded_particle(level: int, n: int, p: Particle) -> bool {
    let e = crate::config::seed_entry(level, n);
    let ch = crate::config::spec_reactor(level, 0);
    let origin = match ch.shape {
        Shape::Rectangle { origin, half_width, half_height } => origin,
        Shape::Circle { origin, radius } => origin,
    };
    let raw = Vec2i { x: (origin.x + e.1.x) as i64, y: (origin.y + e.1.y) as i64 };
    &&& p.alive
    &&& !p.reacted
    &&& !p.selected
    &&& p.decay_elapsed_ms == 0
    &&& p.chamber_id == 0
    &&& p.type_index == e.0
    &&& p.radius == crate::config::molecule_radius(e.0 as int)
    &&& p.mass == crate::config::molecule_mass(e.0 as int)
    &&& p.velocity == e.2
    &&& inside(ch.shape, p.position, p.radius as int)
    &&& (inside(ch.shape, raw, p.radius as int) ==> p.position == raw)
}

/// The simulation invariant: well-formed tables, chambers and ports, a
/// well-formed particle store, and a live counter that equals the number of
/// live slots.
pub open spec fn state_wf(s: SimState) -> bool {
    &&& config_wf(s.config)
    &&& forall|c: int| 0 <= c < s.chambers@.len() ==> chamber_wf(#[trigger] s.chambers@[c])
    &&& forall|c: int|
        0 <= c < s.connections@.len() ==> connection_wf(
            #[trigger] s.connections@[c],
            s.chambers@.len() as int,
        )
    &&& store_wf(s.particles@, s.config.kinds@.len() as int, s.chambers@)
    &&& s.live == live_count(s.particles@)
}

/// Number of live particles of a type within a chamber.
pub open spec fn count_type(s: Seq<Particle>, t: int, cid: int) -> int
    decreases s.len(),
{
    if s.len() == 0 {
        0
    } else {
        count_type(s.drop_last(), t, cid) + if s.last().alive && s.last().type_index == t
            && s.last().chamber_id == cid {
            1int
        } else {
            0int
        }
    }
}

/// The live slots of a store, in order.
pub open spec fn live_seq(s: Seq<Particle>) -> Seq<Particle>
    decreases s.len(),
{
    if s.len() == 0 {
        Seq::empty()
    } else if s.last().alive {
        live_seq(s.drop_last()).push(s.last())
    } else {
        live_seq(s.drop_last())
    }
}

/// Compaction keeps exactly the live slots.
pub proof fn lemma_live_seq_count(s: Seq<Particle>)
    ensures
        live_seq(s).len() == live_count(s),
    decreases s.len(),
{
    if s.len() > 0 {
        lemma_live_seq_count(s.drop_last());
    }
}

/// Whether a win condition holds of one chamber's census.
pub open spec fn goal_met_in(parts: Seq<Particle>, goal: WinCondition, cid: int) -> bool {
    match goal {
        WinCondition::GreaterThan(quantity, index) => count_type(parts, index as int, cid)
            >= quantity,
        WinCondition::LessThan(quantity, index) => count_type(parts, index as int, cid) < quantity,
    }
}

impl SimState {
    /// Build the state of a level from the built-in tables, seeded with its
    /// initial particles.
    pub fn load_level(level: usize, seed: u64) -> (r: SimState)
        ensures
            state_wf(r),
            r.chambers@.len() == reactor_count(level as int),
            forall|i: int|
                0 <= i < r.chambers@.len() ==> #[trigger] r.chambers@[i]
                    == crate::config::spec_reactor(level as int, i),
            r.particles@.len() == crate::config::seed_count(level as int, 0),
            forall|n: int|
                0 <= n < r.particles@.len() ==> seeded_particle(
                    level as int,
                    n,
                    #[trigger] r.particles@[n],
                ),
            r.cost == 0,
    {
        let config = default_config();
        let chambers = get_reactors(level);
        let mut connections: Vec<Connection> = Vec::new();
        let mut cid: usize = 0;
        while cid < chambers.len()
            invariant
                forall|c: int|
                    0 <= c < connections@.len() ==> connection_wf(
                        #[trigger] connections@[c],
                        chambers@.len() as int,
                    ),
                chambers@.len() == reactor_count(level as int),
            decreases chambers@.len() - cid,
        {
            let mut ports = get_reactor_connections(level, cid);
            while ports.len() > 0
                invariant
                    forall|c: int|
                        0 <= c < connections@.len() ==> connection_wf(
                            #[trigger] connections@[c],
                            chambers@.len() as int,
                        ),
                    forall|c: int|
                        0 <= c < ports@.len() ==> connection_wf(
                            #[trigger] ports@[c],
                            chambers@.len() as int,
                        ),
                decreases ports@.len(),
            {
                let p = ports.remove(0);
                connections.push(p);
            }
            cid = cid + 1;
        }
        let mut state = SimState {
            config,
            chambers,
            connections,
            particles: Vec::new(),
            live: 0,
            cost: 0,
            rng: SimRng::new(seed),
        };
        let mut cid: usize = 0;
        while cid < state.chambers.len()
            invariant
                state_wf(state),
                state.chambers@.len() == reactor_count(level as int),
                forall|i: int|
                    0 <= i < state.chambers@.len() ==> #[trigger] state.chambers@[i]
                        == crate::config::spec_reactor(level as int, i),
                state.config.kinds@.len() == crate::config::TOTAL_MOLECULE_TYPES,
                state.cost == 0,
                state.particles@.len() == if cid >= 1 {
                    crate::config::seed_count(level as int, 0)
                } else {
                    0int
                },
                forall|n: int|
                    0 <= n < state.particles@.len() ==> seeded_particle(
                        level as int,
                        n,
                        #[trigger] state.particles@[n],
                    ),
            decreases state.chambers@.len() - cid,
        {
            let seeds = get_reactor_initialization(level, cid);
            let origin = match &state.chambers[cid].shape {
                crate::chamber::Shape::Rectangle { origin, half_width, half_height } => *origin,
                crate::chamber::Shape::Circle { origin, radius } => *origin,
            };
            let mut w: usize = 0;
            while w < seeds.len()
                invariant
                    state_wf(state),
                    state.chambers@.len() == reactor_count(level as int),
                    forall|i: int|
                        0 <= i < state.chambers@.len() ==> #[trigger] state.chambers@[i]
                            == crate::config::spec_reactor(level as int, i),
                    state.config.kinds@.len() == crate::config::TOTAL_MOLECULE_TYPES,
                    state.cost == 0,
                    cid < state.chambers@.len(),
                    -(crate::num::MAX_COORD as int) <= origin.x <= crate::num::MAX_COORD as int,
                    -(crate::num::MAX_COORD as int) <= origin.y <= crate::num::MAX_COORD as int,
                    w <= seeds@.len(),
                    forall|i: int|
                        0 <= i < seeds@.len() ==> (#[trigger] seeds@[i]).0
                            < crate::config::TOTAL_MOLECULE_TYPES && bounded(
                            seeds@[i].1,
                            crate::num::MAX_COORD as int,
                        ) && bounded(seeds@[i].2, SPEED_LIMIT as int),
                    seeds@.len() == crate::config::seed_count(level as int, cid as int),
                    forall|i: int|
                        0 <= i < seeds@.len() ==> #[trigger] seeds@[i]
                            == crate::config::seed_entry(level as int, i),
                    origin == (match crate::config::spec_reactor(level as int, cid as int).shape {
                        Shape::Rectangle { origin, half_width, half_height } => origin,
                        Shape::Circle { origin, radius } => origin,
                    }),
                    state.particles@.len() == if cid >= 1 {
                        crate::config::seed_count(level as int, 0)
                    } else {
                        w as int
                    },
                    forall|n: int|
                        0 <= n < state.particles@.len() ==> seeded_particle(
                            level as int,
                            n,
                            #[trigger] state.particles@[n],
                        ),
                decreases seeds@.len() - w,
            {
                let (index, loc, vel) = seeds[w];
                let kr = crate::config::get_molecule_radius(index);
                let km = crate::config::get_molecule_mass(index);
                proof {
                    assert(kind_wf(
                        state.config.kinds@[index as int],
                        state.config.kinds@.len() as int,
                    ));
                    assert(crate::config::seed_count(level as int, cid as int) > 0);
                    assert(cid == 0 && (level == 0 || level == 1 || level == 2));
                    assert(fits(state.chambers@[cid as int].shape, kr as int));
                }
                if radius_fits(&state.chambers[cid].shape, kr) {
                    let pos = clamp_to_chamber(
                        &state.chambers[cid].shape,
                        Vec2i { x: origin.x + loc.x, y: origin.y + loc.y },
                        kr,
                    );
                    let newp = Particle {
                        alive: true,
                        chamber_id: cid,
                        type_index: index,
                        radius: kr,
                        mass: km,
                        position: pos,
                        velocity: vel,
                        reacted: false,
                        decay_elapsed_ms: 0,
                        selected: false,
                    };
                    proof {
                        lemma_live_count_push(state.particles@, newp);
                        assert(seeded_particle(level as int, w as int, newp));
                    }
                    state.particles.push(newp);
                    let n_now = state.particles.len();
                    proof {
                        lemma_live_count_bounds(state.particles@);
                        assert(state.live + 1 <= n_now);
                    }
                    state.live = state.live + 1;
                }
                w = w + 1;
            }
            cid = cid + 1;
        }
        state
    }

    /// Advance the simulation by one tick of `dt_ms` milliseconds, in the
    /// fixed order: decay, pairwise collision and reaction, boundary
    /// reflection and integration, boundary correction, transport intake,
    /// transport outlet. Afterwards every live particle lies inside its
    /// chamber, no particle has taken part in two reacting interactions,
    /// and spawns never carry the live count past the cap.
    pub fn tick(&mut self, dt_ms: u64) -> (out: TickOutput)
        requires
            state_wf(*old(self)),
            1 <= dt_ms <= MAX_DT_MS,
        ensures
            state_wf(*final(self)),
            final(self).config == old(self).config,
            final(self).chambers == old(self).chambers,
            final(self).connections == old(self).connections,
            final(self).cost == old(self).cost,
            forall|k: int|
                0 <= k < final(self).particles@.len() && (#[trigger] final(self).particles@[k]).alive
                    ==> inside(
                    final(self).chambers@[final(self).particles@[k].chamber_id as int].shape,
                    final(self).particles@[k].position,
                    final(self).particles@[k].radius as int,
                ),
            live_count(final(self).particles@) <= int_max(
                live_count(old(self).particles@),
                old(self).config.cap as int,
            ),
            live_count(old(self).particles@) <= old(self).config.cap ==> live_count(
                final(self).particles@,
            ) <= old(self).config.cap,
            reactions_disjoint(out.reactions@),
            forall|k: int|
                0 <= k < final(self).particles@.len() ==> !(#[trigger] final(self).particles@[k]).reacted,
            forall|k: int|
                0 <= k < old(self).particles@.len() ==> {
                    let p0 = old(self).particles@[k];
                    let p = #[trigger] final(self).particles@[k];
                    let lt = view_lifetime(old(self).config.kinds@[p0.type_index as int].lifetime);
                    let ch = old(self).chambers@[p0.chamber_id as int];
                    &&& p.type_index == p0.type_index
                    &&& p.chamber_id == p0.chamber_id
                    &&& p.radius == p0.radius
                    &&& p.mass == p0.mass
                    &&& p.selected == p0.selected
                    &&& (p.alive ==> p0.alive)
                    &&& (p0.alive && lt.unstable ==> p.decay_elapsed_ms == decay_next_elapsed(
                        p0,
                        lt,
                        ch.temperature as int,
                        ch.pressure as int,
                        dt_ms as int,
                    ) && (decay_expires(
                        p0,
                        lt,
                        ch.temperature as int,
                        ch.pressure as int,
                        dt_ms as int,
                    ) ==> !p.alive))
                    &&& (!(p0.alive && lt.unstable) ==> p.decay_elapsed_ms
                        == p0.decay_elapsed_ms)
                },
            forall|e: int|
                0 <= e < out.transports@.len() ==> {
                    let ev = #[trigger] out.transports@[e];
                    &&& ev.type_index < old(self).config.kinds@.len()
                    &&& ev.origin_chamber < old(self).chambers@.len()
                    &&& 1 <= ev.radius <= crate::num::MAX_RADIUS
                    &&& 1 <= ev.mass <= crate::num::MAX_MASS
                    &&& bounded(ev.velocity, SPEED_LIMIT as int)
                },
            quiescent(old(self).particles@) && old(self).connections@.len() == 0 && all_stable(
                old(self).config,
                old(self).particles@,
            ) ==> {
                &&& out.transports@.len() == 0
                &&& out.sounds@ == crate::motion::boundary_sounds(
                    old(self).particles@,
                    old(self).chambers@,
                    dt_ms as int,
                )
                &&& final(self).particles@.len() == old(self).particles@.len()
                &&& forall|k: int|
                    0 <= k < old(self).particles@.len() && (#[trigger] old(self).particles@[k]).alive
                        ==> {
                        let p0 = old(self).particles@[k];
                        let p = final(self).particles@[k];
                        let s = old(self).chambers@[p0.chamber_id as int].shape;
                        &&& p.alive
                        &&& p.velocity.x == moved_velocity_x(p0, s, dt_ms as int)
                        &&& p.velocity.y == moved_velocity_y(p0, s, dt_ms as int)
                        &&& (inside(s, moved_position(p0, s, dt_ms as int), p0.radius as int)
                            ==> p.position == moved_position(p0, s, dt_ms as int))
                    }
            },
    {
        let ghost l0 = live_count(self.particles@);
        let ghost cap = self.config.cap as int;
        decay_pass(
            &self.config,
            &self.chambers,
            &mut self.particles,
            &mut self.live,
            &mut self.rng,
            dt_ms,
        );
        let (mut sounds, reactions) = pairwise_pass(
            &self.config,
            &self.chambers,
            &mut self.particles,
            &mut self.live,
            &mut self.rng,
        );
        let ghost parts_pair = self.particles@;
        let ghost pair_sound_list = sounds@;
        let n_kinds = self.config.kinds.len();
        let mut wall_sounds = boundary_pass(&self.chambers, &mut self.particles, dt_ms, n_kinds);
        let ghost wall_sound_list = wall_sounds@;
        sounds.append(&mut wall_sounds);
        correction_pass(&self.chambers, &mut self.particles, n_kinds);
        let ghost parts_corr = self.particles@;
        proof {
            assert forall|k: int| 0 <= k < parts_corr.len() implies bounded(
                (#[trigger] parts_corr[k]).position,
                POS_LIMIT as int,
            ) by {
                assert(particle_wf(parts_corr[k], n_kinds as int, self.chambers@));
            }
            assert forall|c: int| 0 <= c < self.connections@.len() implies bounded(
                (#[trigger] self.connections@[c]).position,
                crate::num::MAX_COORD as int,
            ) by {
                assert(connection_wf(self.connections@[c], self.chambers@.len() as int));
            }
        }
        let transports = intake_pass(&self.connections, &mut self.particles, &mut self.live);
        let ghost parts_intake = self.particles@;
        proof {
            assert forall|e: int| 0 <= e < transports@.len() implies {
                let ev = #[trigger] transports@[e];
                &&& ev.type_index < n_kinds
                &&& ev.origin_chamber < self.chambers@.len()
                &&& 1 <= ev.radius <= crate::num::MAX_RADIUS
                &&& 1 <= ev.mass <= crate::num::MAX_MASS
                &&& bounded(ev.velocity, SPEED_LIMIT as int)
            } by {
                let ev = transports@[e];
                assert(crate::transport::event_from_store(ev, self.connections@, parts_corr));
                let k = choose|k: int|
                    0 <= k < parts_corr.len() && {
                        let p = #[trigger] parts_corr[k];
                        &&& p.alive
                        &&& crate::transport::captured(self.connections@, p)
                        &&& ev.origin_chamber == p.chamber_id
                        &&& ev.type_index == p.type_index
                        &&& ev.radius == p.radius
                        &&& ev.mass == p.mass
                        &&& ev.velocity == p.velocity
                        &&& ev.selected == p.selected
                        &&& exists|c: int|
                            0 <= c < self.connections@.len() && crate::transport::intake_matches(
                                #[trigger] self.connections@[c],
                                p,
                            ) && ev.connection_id == self.connections@[c].connection_id
                    };
                assert(particle_wf(parts_corr[k], n_kinds as int, self.chambers@));
            }
        }
        let cap_now = self.config.cap;
        outlet_pass(
            &self.chambers,
            &self.connections,
            &transports,
            &mut self.particles,
            &mut self.live,
            &mut self.rng,
            cap_now,
            n_kinds,
        );
        proof {
            if quiescent(old(self).particles@) && self.connections@.len() == 0 && all_stable(
                self.config,
                old(self).particles@,
            ) {
                assert(transports@.len() == 0);
                assert(pair_sound_list.len() == 0);
                assert(parts_pair == old(self).particles@);
                assert(sounds@ =~= wall_sound_list);
                assert(sounds@ == crate::motion::boundary_sounds(
                    old(self).particles@,
                    self.chambers@,
                    dt_ms as int,
                ));
            }
            // Non-penetration: slots present at the correction pass kept
            // their positions through the transport passes; outlet spawns
            // land inside their chamber by construction.
            assert forall|k: int|
                0 <= k < self.particles@.len() && (#[trigger] self.particles@[k]).alive implies inside(
                self.chambers@[self.particles@[k].chamber_id as int].shape,
                self.particles@[k].position,
                self.particles@[k].radius as int,
            ) by {
                if k < parts_corr.len() {
                    assert(self.particles@[k] == parts_intake[k]);
                } else {
                    assert(crate::transport::outlet_spawned(
                        self.particles@[k],
                        self.connections@,
                        transports@,
                        self.chambers@,
                    ));
                }
            }
        }
        TickOutput { sounds, reactions, transports }
    }

    /// The capacity governor's census: the number of live particles, equal
    /// to the cached counter under the simulation invariant.
    pub fn count_live(&self) -> (r: usize)
        requires
            state_wf(*self),
        ensures
            r == live_count(self.particles@),
            r == self.live,
    {
        proof {
            lemma_live_count_bounds(self.particles@);
        }
        let mut r: usize = 0;
        let mut k: usize = 0;
        while k < self.particles.len()
            invariant
                k <= self.particles@.len(),
                r == live_count(self.particles@.take(k as int)),
                r <= k,
            decreases self.particles@.len() - k,
        {
            proof {
                assert(self.particles@.take(k + 1 as int).drop_last() =~= self.particles@.take(
                    k as int,
                ));
                assert(self.particles@.take(k + 1 as int).last() == self.particles@[k as int]);
            }
            if self.particles[k].alive {
                r = r + 1;
            }
            k = k + 1;
        }
        proof {
            assert(self.particles@.take(self.particles@.len() as int) =~= self.particles@);
        }
        r
    }

    /// Number of live particles of the given type in the given chamber —
    /// the census the win-condition logic reads.
    pub fn count_molecules_of(&self, type_index: usize, chamber_id: usize) -> (r: usize)
        requires
            state_wf(*self),
        ensures
            r == count_type(self.particles@, type_index as int, chamber_id as int),
    {
        proof {
            lemma_count_type_bounds(self.particles@, type_index as int, chamber_id as int);
        }
        let mut r: usize = 0;
        let mut k: usize = 0;
        while k < self.particles.len()
            invariant
                k <= self.particles@.len(),
                r == count_type(
                    self.particles@.take(k as int),
                    type_index as int,
                    chamber_id as int,
                ),
                r <= k,
            decreases self.particles@.len() - k,
        {
            proof {
                assert(self.particles@.take(k + 1 as int).drop_last() =~= self.particles@.take(
                    k as int,
                ));
                assert(self.particles@.take(k + 1 as int).last() == self.particles@[k as int]);
            }
            let p = &self.particles[k];
            if p.alive && p.type_index == type_index && p.chamber_id == chamber_id {
                r = r + 1;
            }
            k = k + 1;
        }
        proof {
            assert(self.particles@.take(self.particles@.len() as int) =~= self.particles@);
        }
        r
    }

    /// Whether some product chamber currently satisfies the win condition.
    pub fn check_product_reactor(&self, goal: WinCondition) -> (r: bool)
        requires
            state_wf(*self),
        ensures
            r == exists|c: int|
                0 <= c < self.chambers@.len() && (#[trigger] self.chambers@[c]).is_product
                    && goal_met_in(self.particles@, goal, c),
    {
        let mut c: usize = 0;
        while c < self.chambers.len()
            invariant
                state_wf(*self),
                c <= self.chambers@.len(),
                forall|w: int|
                    0 <= w < c ==> !((#[trigger] self.chambers@[w]).is_product && goal_met_in(
                        self.particles@,
                        goal,
                        w,
                    )),
            decreases self.chambers@.len() - c,
        {
            if self.chambers[c].is_product {
                let met = match goal {
                    WinCondition::GreaterThan(quantity, index) => self.count_molecules_of(
                        index,
                        c,
                    ) >= quantity,
                    WinCondition::LessThan(quantity, index) => self.count_molecules_of(index, c)
                        < quantity,
                };
                if met {
                    return true;
                }
            }
            c = c + 1;
        }
        false
    }

    /// Spawn one molecule of a table type through the capacity governor, as
    /// the launch tube and external spawners do, paying its cost. The spawn
    /// is refused — and nothing changes — when the type or chamber is
    /// unknown, the position is out of range, the body cannot fit the
    /// chamber, or the cap is reached.
    pub fn spawn_molecule(
        &mut self,
        chamber_id: usize,
        type_index: usize,
        position: Vec2i,
        velocity: Vec2i,
    ) -> (ok: bool)
        requires
            state_wf(*old(self)),
        ensures
            state_wf(*final(self)),
            final(self).config == old(self).config,
            final(self).chambers == old(self).chambers,
            final(self).connections == old(self).connections,
            final(self).rng == old(self).rng,
            ok == (chamber_id < old(self).chambers@.len() && type_index
                < old(self).config.kinds@.len() && old(self).live < old(self).config.cap && fits(
                old(self).chambers@[chamber_id as int].shape,
                old(self).config.kinds@[type_index as int].radius as int,
            ) && bounded(position, POS_LIMIT as int)),
            !ok ==> *final(self) == *old(self),
            ok ==> {
                let kind = old(self).config.kinds@[type_index as int];
                let p = final(self).particles@.last();
                &&& final(self).particles@ == old(self).particles@.push(p)
                &&& final(self).live == old(self).live + 1
                &&& final(self).cost == if old(self).cost + kind.cost > u64::MAX {
                    u64::MAX as int
                } else {
                    old(self).cost + kind.cost
                }
                &&& p.alive
                &&& p.chamber_id == chamber_id
                &&& p.type_index == type_index
                &&& p.radius == kind.radius
                &&& p.mass == kind.mass
                &&& p.velocity.x == spec_clamp(
                    velocity.x as int,
                    -(SPEED_LIMIT as int),
                    SPEED_LIMIT as int,
                )
                &&& p.velocity.y == spec_clamp(
                    velocity.y as int,
                    -(SPEED_LIMIT as int),
                    SPEED_LIMIT as int,
                )
                &&& inside(
                    old(self).chambers@[chamber_id as int].shape,
                    p.position,
                    kind.radius as int,
                )
                &&& (inside(
                    old(self).chambers@[chamber_id as int].shape,
                    position,
                    kind.radius as int,
                ) ==> p.position == position)
                &&& !p.reacted
                &&& p.decay_elapsed_ms == 0
                &&& !p.selected
            },
    {
        if chamber_id >= self.chambers.len() || type_index >= self.config.kinds.len() {
            return false;
        }
        if self.live >= self.config.cap {
            return false;
        }
        let kr = self.config.kinds[type_index].radius;
        let km = self.config.kinds[type_index].mass;
        let kc = self.config.kinds[type_index].cost;
        proof {
            assert(kind_wf(
                self.config.kinds@[type_index as int],
                self.config.kinds@.len() as int,
            ));
        }
        if !radius_fits(&self.chambers[chamber_id].shape, kr) {
            return false;
        }
        if position.x < -POS_LIMIT || position.x > POS_LIMIT || position.y < -POS_LIMIT
            || position.y > POS_LIMIT {
            return false;
        }
        let pos = clamp_to_chamber(&self.chambers[chamber_id].shape, position, kr);
        let vel = Vec2i {
            x: clamp_wide(velocity.x as i128, SPEED_LIMIT),
            y: clamp_wide(velocity.y as i128, SPEED_LIMIT),
        };
        let newp = Particle {
            alive: true,
            chamber_id,
            type_index,
            radius: kr,
            mass: km,
            position: pos,
            velocity: vel,
            reacted: false,
            decay_elapsed_ms: 0,
            selected: false,
        };
        proof {
            lemma_live_count_push(self.particles@, newp);
        }
        self.particles.push(newp);
        self.live = self.live + 1;
        self.cost = if self.cost > u64::MAX - kc {
            u64::MAX
        } else {
            self.cost + kc
        };
        true
    }

    /// Advance one spawner by a step. When its timer wraps it emits one
    /// molecule of its type at its own position, aimed at the chamber's
    /// centre line — straight down in a rectangle, toward the centre in a
    /// circle — subject to the capacity governor. Reports whether a
    /// molecule was spawned.
    pub fn run_spawner(&mut self, spawner: &mut MoleculeSpawnerInfo, dt_ms: u64) -> (spawned:
        bool)
        requires
            state_wf(*old(self)),
            spawner_wf(*old(spawner)),
            1 <= dt_ms <= MAX_DT_MS,
        ensures
            state_wf(*final(self)),
            spawner_wf(*final(spawner)),
            final(self).config == old(self).config,
            final(self).chambers == old(self).chambers,
            final(self).connections == old(self).connections,
            final(self).rng == old(self).rng,
            final(self).cost == old(self).cost,
            final(spawner).spawner_index == old(spawner).spawner_index,
            final(spawner).chamber_id == old(spawner).chamber_id,
            final(spawner).position == old(spawner).position,
            final(spawner).period_ms == old(spawner).period_ms,
            final(spawner).elapsed_ms == (old(spawner).elapsed_ms + dt_ms) % (old(
                spawner,
            ).period_ms as int),
            spawned == (old(spawner).elapsed_ms + dt_ms >= old(spawner).period_ms && old(
                spawner,
            ).chamber_id < old(self).chambers@.len() && old(spawner).spawner_index < old(
                self,
            ).config.kinds@.len() && old(self).live < old(self).config.cap && fits(
                old(self).chambers@[old(spawner).chamber_id as int].shape,
                old(self).config.kinds@[old(spawner).spawner_index as int].radius as int,
            )),
            !spawned ==> *final(self) == *old(self),
            spawned ==> {
                let kind = old(self).config.kinds@[old(spawner).spawner_index as int];
                let sh = old(self).chambers@[old(spawner).chamber_id as int].shape;
                let p = final(self).particles@.last();
                &&& final(self).particles@ == old(self).particles@.push(p)
                &&& final(self).live == old(self).live + 1
                &&& p.alive
                &&& !p.reacted
                &&& p.decay_elapsed_ms == 0
                &&& !p.selected
                &&& p.chamber_id == old(spawner).chamber_id
                &&& p.type_index == old(spawner).spawner_index
                &&& p.radius == kind.radius
                &&& p.mass == kind.mass
                &&& inside(sh, p.position, kind.radius as int)
                &&& (inside(sh, old(spawner).position, kind.radius as int) ==> p.position == old(
                    spawner,
                ).position)
                &&& (match sh {
                    Shape::Rectangle { origin, half_width, half_height } => p.velocity.x == 0
                        && p.velocity.y == -kind.launch_speed,
                    Shape::Circle { origin, radius } => {
                        let dir = Vec2i {
                            x: (origin.x - old(spawner).position.x) as i64,
                            y: (origin.y - old(spawner).position.y) as i64,
                        };
                        &&& (dir.x == 0 && dir.y == 0 ==> p.velocity == (Vec2i {
                            x: 0,
                            y: kind.launch_speed,
                        }))
                        &&& (!(dir.x == 0 && dir.y == 0) ==> {
                            let l = crate::num::sqrt_ceil(crate::vec2::len2(dir));
                            p.velocity.x == crate::num::tdiv(dir.x * kind.launch_speed, l)
                                && p.velocity.y == crate::num::tdiv(dir.y * kind.launch_speed, l)
                        })
                    },
                })
            },
    {
        let fire = spawner.elapsed_ms + dt_ms >= spawner.period_ms;
        spawner.elapsed_ms = (spawner.elapsed_ms + dt_ms) % spawner.period_ms;
        if !fire {
            return false;
        }
        if spawner.chamber_id >= self.chambers.len() || spawner.spawner_index
            >= self.config.kinds.len() {
            return false;
        }
        if self.live >= self.config.cap {
            return false;
        }
        let kr = self.config.kinds[spawner.spawner_index].radius;
        let km = self.config.kinds[spawner.spawner_index].mass;
        let launch = self.config.kinds[spawner.spawner_index].launch_speed;
        proof {
            assert(kind_wf(
                self.config.kinds@[spawner.spawner_index as int],
                self.config.kinds@.len() as int,
            ));
        }
        if !radius_fits(&self.chambers[spawner.chamber_id].shape, kr) {
            return false;
        }
        let dir = match &self.chambers[spawner.chamber_id].shape {
            Shape::Rectangle { origin, half_width, half_height } => Vec2i { x: 0, y: -1 },
            Shape::Circle { origin, radius } => Vec2i {
                x: origin.x - spawner.position.x,
                y: origin.y - spawner.position.y,
            },
        };
        let vel = crate::vec2::scale_to_length(dir, launch);
        proof {
            match self.chambers@[spawner.chamber_id as int].shape {
                Shape::Rectangle { origin, half_width, half_height } => {
                    assert(dir.x == 0 && dir.y == -1);
                    assert(crate::vec2::len2(dir) == 1) by (nonlinear_arith)
                        requires dir.x == 0, dir.y == -1;
                    crate::num::lemma_sqrt_ceil_is(1, 1);
                    assert((dir.x as int) * (launch as int) == 0 && (dir.y as int) * (
                    launch as int) == -(launch as int)) by (nonlinear_arith)
                        requires dir.x == 0, dir.y == -1;
                    vstd::arithmetic::div_mod::lemma_div_basics(launch as int);
                    vstd::arithmetic::div_mod::lemma_div_basics(0);
                    assert(vel.x == 0 && vel.y == -launch);
                },
                Shape::Circle { origin, radius } => {},
            }
        }
        let pos = clamp_to_chamber(
            &self.chambers[spawner.chamber_id].shape,
            spawner.position,
            kr,
        );
        let newp = Particle {
            alive: true,
            chamber_id: spawner.chamber_id,
            type_index: spawner.spawner_index,
            radius: kr,
            mass: km,
            position: pos,
            velocity: vel,
            reacted: false,
            decay_elapsed_ms: 0,
            selected: false,
        };
        proof {
            lemma_live_count_push(self.particles@, newp);
        }
        self.particles.push(newp);
        self.live = self.live + 1;
        true
    }

    /// Destroy every particle in one chamber, as the vent control does.
    pub fn vent_chamber(&mut self, chamber_id: usize)
        requires
            state_wf(*old(self)),
        ensures
            state_wf(*final(self)),
            final(self).config == old(self).config,
            final(self).chambers == old(self).chambers,
            final(self).connections == old(self).connections,
            final(self).cost == old(self).cost,
            final(self).rng == old(self).rng,
            final(self).particles@.len() == old(self).particles@.len(),
            forall|k: int|
                0 <= k < old(self).particles@.len() ==> {
                    let p0 = old(self).particles@[k];
                    let p = #[trigger] final(self).particles@[k];
                    &&& p.alive == (p0.alive && p0.chamber_id != chamber_id)
                    &&& p.type_index == p0.type_index
                    &&& p.chamber_id == p0.chamber_id
                    &&& p.radius == p0.radius
                    &&& p.mass == p0.mass
                    &&& p.position == p0.position
                    &&& p.velocity == p0.velocity
                    &&& p.reacted == p0.reacted
                    &&& p.selected == p0.selected
                    &&& p.decay_elapsed_ms == p0.decay_elapsed_ms
                },
    {
        let ghost parts0 = self.particles@;
        let n = self.particles.len();
        let mut k: usize = 0;
        while k < n
            invariant
                n == parts0.len(),
                parts0 == old(self).particles@,
                self.particles@.len() == n,
                self.config == old(self).config,
                self.chambers == old(self).chambers,
                self.connections == old(self).connections,
                self.cost == old(self).cost,
                self.rng == old(self).rng,
                state_wf(*old(self)),
                store_wf(self.particles@, self.config.kinds@.len() as int, self.chambers@),
                self.live == live_count(self.particles@),
                k <= n,
                forall|w: int| k <= w < n ==> #[trigger] self.particles@[w] == parts0[w],
                forall|w: int|
                    0 <= w < k ==> {
                        let p0 = parts0[w];
                        let p = #[trigger] self.particles@[w];
                        &&& p.alive == (p0.alive && p0.chamber_id != chamber_id)
                        &&& p.type_index == p0.type_index
                        &&& p.chamber_id == p0.chamber_id
                        &&& p.radius == p0.radius
                        &&& p.mass == p0.mass
                        &&& p.position == p0.position
                        &&& p.velocity == p0.velocity
                        &&& p.reacted == p0.reacted
                        &&& p.selected == p0.selected
                        &&& p.decay_elapsed_ms == p0.decay_elapsed_ms
                    },
            decreases n - k,
        {
            let p = self.particles[k];
            if p.alive && p.chamber_id == chamber_id {
                let mut p2 = p;
                p2.alive = false;
                proof {
                    lemma_live_count_update(self.particles@, k as int, p2);
                }
                self.particles[k] = p2;
                proof {
                    lemma_live_count_bounds(self.particles@);
                }
                self.live = self.live - 1;
            }
            k = k + 1;
        }
    }

    /// Drop the dead slots of the particle store, keeping the live ones in
    /// order.
    pub fn compact(&mut self)
        requires
            state_wf(*old(self)),
        ensures
            state_wf(*final(self)),
            final(self).config == old(self).config,
            final(self).chambers == old(self).chambers,
            final(self).connections == old(self).connections,
            final(self).cost == old(self).cost,
            final(self).rng == old(self).rng,
            final(self).particles@ == live_seq(old(self).particles@),
            final(self).live == old(self).live,
    {
        let ghost parts0 = self.particles@;
        let mut out: Vec<Particle> = Vec::new();
        let mut k: usize = 0;
        while k < self.particles.len()
            invariant
                parts0 == self.particles@,
                state_wf(*self),
                k <= parts0.len(),
                out@ == live_seq(parts0.take(k as int)),
            decreases parts0.len() - k,
        {
            proof {
                assert(parts0.take(k + 1 as int).drop_last() =~= parts0.take(k as int));
                assert(parts0.take(k + 1 as int).last() == parts0[k as int]);
            }
            let p = self.particles[k];
            if p.alive {
                out.push(p);
            }
            k = k + 1;
        }
        proof {
            assert(parts0.take(parts0.len() as int) =~= parts0);
            lemma_live_seq_count(parts0);
            lemma_live_seq_wf(
                parts0,
                self.config.kinds@.len() as int,
                self.chambers@,
            );
            lemma_live_seq_live(parts0);
        }
        self.particles = out;
    }

    /// Write a chamber's temperature and pressure, clamped to the unit
    /// range, as the external lever interface does. An unknown chamber id
    /// changes nothing.
    pub fn set_chamber_conditions(&mut self, chamber_id: usize, temperature: u32, pressure: u32)
        requires
            state_wf(*old(self)),
        ensures
            state_wf(*final(self)),
            final(self).config == old(self).config,
            final(self).connections == old(self).connections,
            final(self).particles == old(self).particles,
            final(self).live == old(self).live,
            final(self).cost == old(self).cost,
            final(self).rng == old(self).rng,
            chamber_id < old(self).chambers@.len() ==> {
                let c0 = old(self).chambers@[chamber_id as int];
                let c = final(self).chambers@[chamber_id as int];
                &&& final(self).chambers@ == old(self).chambers@.update(chamber_id as int, c)
                &&& c.temperature == spec_clamp(
                    temperature as int,
                    0,
                    crate::num::PERMILLE as int,
                )
                &&& c.pressure == spec_clamp(pressure as int, 0, crate::num::PERMILLE as int)
                &&& c.id == c0.id
                &&& c.shape == c0.shape
                &&& c.is_input == c0.is_input
                &&& c.is_product == c0.is_product
            },
            chamber_id >= old(self).chambers@.len() ==> final(self).chambers
                == old(self).chambers,
    {
        if chamber_id < self.chambers.len() {
            let mut ch = self.chambers[chamber_id];
            ch.set_conditions(temperature, pressure);
            self.chambers[chamber_id] = ch;
        }
    }
}

pub proof fn lemma_count_type_bounds(s: Seq<Particle>, t: int, cid: int)
    ensures
        0 <= count_type(s, t, cid) <= s.len(),
    decreases s.len(),
{
    if s.len() > 0 {
        lemma_count_type_bounds(s.drop_last(), t, cid);
    }
}

/// The live slots of a well-formed store form a well-formed store.
proof fn lemma_live_seq_wf(s: Seq<Particle>, n_kinds: int, chambers: Seq<Chamber>)
    requires
        store_wf(s, n_kinds, chambers),
    ensures
        store_wf(live_seq(s), n_kinds, chambers),
    decreases s.len(),
{
    if s.len() > 0 {
        assert(store_wf(s.drop_last(), n_kinds, chambers));
        lemma_live_seq_wf(s.drop_last(), n_kinds, chambers);
    }
}

/// Every slot of a compacted store is live, so its live count is its
/// length.
proof fn lemma_live_seq_live(s: Seq<Particle>)
    ensures
        live_count(live_seq(s)) == live_seq(s).len(),
        live_count(live_seq(s)) == live_count(s),
    decreases s.len(),
{
    lemma_live_seq_count(s);
    if s.len() > 0 {
        lemma_live_seq_live(s.drop_last());
        if s.last().alive {
            crate::particle::lemma_live_count_push(live_seq(s.drop_last()), s.last());
        }
    }
}

} // verus!
