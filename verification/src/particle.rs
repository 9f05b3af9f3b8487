//! The live particle store and the event records a tick emits.
//!
//! Particles live in a slot vector: destroying one clears its `alive` flag,
//! spawning appends. The number of live slots is the quantity the capacity
//! governor watches.

use vstd::prelude::*;
use crate::chamber::{Chamber, fits};
use crate::num::{MAX_MASS, MAX_RADIUS, POS_LIMIT, SPEED_LIMIT};
use crate::vec2::{Vec2i, bounded};

verus! {

/// One simulated molecule: a circular body owned by a chamber.
#[derive(Clone, Copy, Debug)]
pub struct Particle {
    pub alive: bool,
    pub chamber_id: usize,
    pub type_index: usize,
    pub radius: i64,
    pub mass: i64,
    pub position: Vec2i,
    pub velocity: Vec2i,
    /// Set while the particle has taken part in a reacting collision this
    /// tick; cleared by the boundary pass.
    pub reacted: bool,
    /// Time the decay timer of an unstable particle has accrued, in
    /// milliseconds.
    pub decay_elapsed_ms: u64,
    /// Whether the external camera follows this particle.
    pub selected: bool,
}

/// A collision sound to be played by the external audio layer.
#[derive(Clone, Copy, Debug)]
pub struct SoundEffectEvent {
    pub note: usize,
    pub location: Vec2i,
}

/// A particle captured by an intake port, to be re-emitted by the outlets
/// sharing its connection id. `origin_chamber` names the chamber the
/// particle was captured from, for external consumers; an outlet re-homes
/// the particle into its own chamber.
#[derive(Clone, Copy, Debug)]
pub struct ConnectionEvent {
    pub connection_id: usize,
    pub origin_chamber: usize,
    pub type_index: usize,
    pub radius: i64,
    pub mass: i64,
    pub velocity: Vec2i,
    pub selected: bool,
}

/// A reacting collision between the particles in two store slots.
#[derive(Clone, Copy, Debug)]
pub struct ReactionEvent {
    pub slot_a: usize,
    pub slot_b: usize,
}

/// A particle is well formed with respect to the tables and chambers it
/// lives among.
pub open spec fn particle_wf(p: Particle, n_kinds: int, chambers: Seq<Chamber>) -> bool {
    &&& p.type_index < n_kinds
    &&& 1 <= p.radius <= MAX_RADIUS
    &&& 1 <= p.mass <= MAX_MASS
    &&& bounded(p.position, POS_LIMIT as int)
    &&& bounded(p.velocity, SPEED_LIMIT as int)
    &&& p.decay_elapsed_ms <= 2_000_000_000_000
    &&& p.chamber_id < chambers.len()
    &&& fits(chambers[p.chamber_id as int].shape, p.radius as int)
}

/// Every particle of the store is well formed.
pub open spec fn store_wf(s: Seq<Particle>, n_kinds: int, chambers: Seq<Chamber>) -> bool {
    forall|i: int| 0 <= i < s.len() ==> particle_wf(#[trigger] s[i], n_kinds, chambers)
}

/// Number of live slots in the store.
pub open spec fn live_count(s: Seq<Particle>) -> int
    decreases s.len(),
{
    if s.len() == 0 {
        0
    } else {
        live_count(s.drop_last()) + if s.last().alive {
            1int
        } else {
            0int
        }
    }
}

pub proof fn lemma_live_count_bounds(s: Seq<Particle>)
    ensures
        0 <= live_count(s) <= s.len(),
    decreases s.len(),
{
    if s.len() > 0 {
        lemma_live_count_bounds(s.drop_last());
    }
}

pub proof fn lemma_live_count_push(s: Seq<Particle>, p: Particle)
    ensures
        live_count(s.push(p)) == live_count(s) + if p.alive {
            1int
        } else {
            0int
        },
{
    assert(s.push(p).drop_last() =~= s);
}

pub proof fn lemma_live_count_update(s: Seq<Particle>, i: int, p: Particle)
    requires
        0 <= i < s.len(),
    ensures
        live_count(s.update(i, p)) == live_count(s) - (if s[i].alive {
            1int
        } else {
            0int
        }) + (if p.alive {
            1int
        } else {
            0int
        }),
    decreases s.len(),
{
    if i == s.len() - 1 {
        assert(s.update(i, p).drop_last() =~= s.drop_last());
        assert(s.update(i, p).last() == p);
    } else {
        assert(s.update(i, p).drop_last() =~= s.drop_last().update(i, p));
        assert(s.update(i, p).last() == s.last());
        lemma_live_count_update(s.drop_last(), i, p);
    }
}

/// A store update that does not change a slot's `alive` flag keeps the live
/// count.
pub proof fn lemma_live_count_update_same(s: Seq<Particle>, i: int, p: Particle)
    requires
        0 <= i < s.len(),
        p.alive == s[i].alive,
    ensures
        live_count(s.update(i, p)) == live_count(s),
{
    lemma_live_count_update(s, i, p);
}

} // verus!
