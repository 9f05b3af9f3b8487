use reactor_core::chamber::{Chamber, Shape};
use reactor_core::config::{Lifetime, Limits, MoleculeKind, ReactionEntry, ReactionInfo, SimConfig};
use reactor_core::engine::SimState;
use reactor_core::rng::SimRng;
use reactor_core::vec2::Vec2i;

fn kind(radius: i64, mass: i64, launch_speed: i64, lifetime: Lifetime) -> MoleculeKind {
    MoleculeKind { radius, mass, launch_speed, cost: 1, lifetime }
}

fn stable(radius: i64, mass: i64) -> MoleculeKind {
    kind(radius, mass, 1000, Lifetime::Stable)
}

fn reaction(products: Vec<usize>, temperature: Limits, pressure: Limits) -> ReactionInfo {
    ReactionInfo::Reaction { products, temperature, pressure }
}

fn windowed_state(cap: usize) -> SimState {
    // Types 0 and 1 react into a single type 2, but only between 200 and
    // 800 permille of temperature.
    let config = SimConfig {
        kinds: vec![stable(48, 10), stable(64, 20), stable(80, 30)],
        reactions: vec![ReactionEntry {
            first: 0,
            second: 1,
            info: reaction(vec![2], Limits(200, 800), Limits(0, 1000)),
        }],
        cap,
    };
    SimState {
        config,
        chambers: vec![Chamber {
            id: 0,
            shape: Shape::Rectangle {
                origin: Vec2i::new(0, 0),
                half_width: 4000,
                half_height: 4000,
            },
            is_input: true,
            is_product: true,
            temperature: 0,
            pressure: 0,
        }],
        connections: vec![],
        particles: vec![],
        live: 0,
        cost: 0,
        rng: SimRng::new(5),
    }
}

#[test]
fn reaction_gating_cold_pair_bounces() {
    let mut state = windowed_state(100);
    state.set_chamber_conditions(0, 100, 500);
    assert!(state.spawn_molecule(0, 0, Vec2i::new(0, 0), Vec2i::new(0, 0)));
    assert!(state.spawn_molecule(0, 1, Vec2i::new(10, 0), Vec2i::new(0, 0)));
    let out = state.tick(100);
    assert_eq!(out.reactions.len(), 0);
    assert_eq!(state.count_live(), 2);
    assert!(state.particles[0].alive);
    assert!(state.particles[1].alive);
    // The overlapping pair was pushed apart instead of reacting.
    let dx = state.particles[0].position.x - state.particles[1].position.x;
    assert!(dx.abs() > 112);
}

#[test]
fn reaction_gating_warm_pair_reacts() {
    let mut state = windowed_state(100);
    state.set_chamber_conditions(0, 500, 500);
    assert!(state.spawn_molecule(0, 0, Vec2i::new(0, 0), Vec2i::new(0, 0)));
    assert!(state.spawn_molecule(0, 1, Vec2i::new(10, 0), Vec2i::new(0, 0)));
    let out = state.tick(100);
    assert_eq!(out.reactions.len(), 1);
    assert_eq!(state.count_live(), 1);
    assert!(!state.particles[0].alive);
    assert!(!state.particles[1].alive);
    let product = &state.particles[2];
    assert!(product.alive);
    assert_eq!(product.type_index, 2);
    // The product spawned at the contact midpoint, then rose for one tick
    // at its launch speed (the merge velocity of two still particles is
    // zero, so the direction falls back to positive y).
    assert_eq!((product.velocity.x, product.velocity.y), (0, 1000));
    assert_eq!((product.position.x, product.position.y), (5, 100));
}

#[test]
fn a_particle_reacts_at_most_once_per_tick() {
    let mut state = windowed_state(100);
    state.set_chamber_conditions(0, 500, 500);
    // One type-0 particle overlapping two type-1 partners: only one pair
    // may react; the second partner must survive untouched.
    assert!(state.spawn_molecule(0, 0, Vec2i::new(0, 0), Vec2i::new(0, 0)));
    assert!(state.spawn_molecule(0, 1, Vec2i::new(10, 0), Vec2i::new(0, 0)));
    assert!(state.spawn_molecule(0, 1, Vec2i::new(-10, 0), Vec2i::new(0, 0)));
    let out = state.tick(100);
    assert_eq!(out.reactions.len(), 1);
    assert!(state.particles[2].alive);
    assert_eq!(state.particles[2].type_index, 1);
    // Two consumed, one product spawned, one bystander left.
    assert_eq!(state.count_live(), 2);
}

#[test]
fn capacity_cap_is_never_exceeded() {
    // Cap of five, five live particles, and a reaction that would spawn
    // three products: the two inputs free room for only two of them.
    let mut state = windowed_state(5);
    state.config.reactions[0].info =
        reaction(vec![2, 2, 2], Limits(0, 1000), Limits(0, 1000));
    assert!(state.spawn_molecule(0, 0, Vec2i::new(0, 0), Vec2i::new(0, 0)));
    assert!(state.spawn_molecule(0, 1, Vec2i::new(10, 0), Vec2i::new(0, 0)));
    assert!(state.spawn_molecule(0, 0, Vec2i::new(2000, 2000), Vec2i::new(0, 0)));
    assert!(state.spawn_molecule(0, 0, Vec2i::new(-2000, 2000), Vec2i::new(0, 0)));
    assert!(state.spawn_molecule(0, 0, Vec2i::new(2000, -2000), Vec2i::new(0, 0)));
    assert_eq!(state.count_live(), 5);
    // A sixth spawn is refused outright.
    assert!(!state.spawn_molecule(0, 0, Vec2i::new(-2000, -2000), Vec2i::new(0, 0)));
    let out = state.tick(100);
    assert_eq!(out.reactions.len(), 1);
    assert!(state.count_live() <= 5);
    assert_eq!(state.count_live(), 5);
    assert_eq!(state.count_molecules_of(2, 0), 2);
}

#[test]
fn decay_destroys_after_its_duration() {
    // A type that lives one second and vanishes without products.
    let mut state = windowed_state(100);
    state.config.kinds[0].lifetime =
        Lifetime::Unstable { duration_ms: 1000, outcome: ReactionInfo::Inert };
    assert!(state.spawn_molecule(0, 0, Vec2i::new(0, 0), Vec2i::new(0, 0)));
    let out = state.tick(1000);
    assert_eq!(out.reactions.len(), 0);
    assert_eq!(state.count_live(), 0);
    assert_eq!(state.particles.len(), 1);
    state.compact();
    assert_eq!(state.particles.len(), 0);
}

#[test]
fn decay_accumulates_across_ticks() {
    let mut state = windowed_state(100);
    state.config.kinds[0].lifetime =
        Lifetime::Unstable { duration_ms: 1000, outcome: ReactionInfo::Inert };
    assert!(state.spawn_molecule(0, 0, Vec2i::new(0, 0), Vec2i::new(0, 0)));
    state.tick(500);
    assert_eq!(state.count_live(), 1);
    assert_eq!(state.particles[0].decay_elapsed_ms, 500);
    state.tick(500);
    assert_eq!(state.count_live(), 0);
}

#[test]
fn gated_decay_pauses_outside_its_window() {
    // A decay gated on warm temperatures: time accrues only while warm,
    // and what accrued is kept across a cold spell.
    let mut state = windowed_state(100);
    state.config.kinds[0].lifetime = Lifetime::Unstable {
        duration_ms: 1000,
        outcome: reaction(vec![], Limits(500, 1000), Limits(0, 1000)),
    };
    assert!(state.spawn_molecule(0, 0, Vec2i::new(0, 0), Vec2i::new(0, 0)));
    state.tick(1000);
    assert_eq!(state.particles[0].decay_elapsed_ms, 0);
    assert_eq!(state.count_live(), 1);
    state.set_chamber_conditions(0, 600, 0);
    state.tick(600);
    assert_eq!(state.particles[0].decay_elapsed_ms, 600);
    state.set_chamber_conditions(0, 0, 0);
    state.tick(1000);
    assert_eq!(state.particles[0].decay_elapsed_ms, 600);
    assert_eq!(state.count_live(), 1);
    state.set_chamber_conditions(0, 600, 0);
    state.tick(400);
    assert_eq!(state.count_live(), 0);
}

#[test]
fn decay_spawns_its_products() {
    // An unstable type whose decay yields two stable products.
    let mut state = windowed_state(100);
    state.config.kinds[0].lifetime = Lifetime::Unstable {
        duration_ms: 1000,
        outcome: reaction(vec![1, 2], Limits(0, 1000), Limits(0, 1000)),
    };
    assert!(state.spawn_molecule(0, 0, Vec2i::new(100, 200), Vec2i::new(0, 0)));
    state.tick(1000);
    assert_eq!(state.count_live(), 2);
    assert_eq!(state.count_molecules_of(1, 0), 1);
    assert_eq!(state.count_molecules_of(2, 0), 1);
    // Products appeared at the decayed particle's position and then flew
    // apart for the rest of the tick; they stay inside the chamber.
    for p in &state.particles {
        if p.alive {
            assert!(p.position.x.abs() <= 4000 - 64);
            assert!(p.position.y.abs() <= 4000 - 64);
        }
    }
}

#[test]
fn surviving_inputs_are_not_respawned() {
    // A rule whose products include both input types: the inputs survive as
    // their own product slots and are pushed apart.
    let mut state = windowed_state(100);
    state.config.reactions[0].info = reaction(vec![0, 1], Limits(0, 1000), Limits(0, 1000));
    assert!(state.spawn_molecule(0, 0, Vec2i::new(0, 0), Vec2i::new(0, 0)));
    assert!(state.spawn_molecule(0, 1, Vec2i::new(10, 0), Vec2i::new(0, 0)));
    let out = state.tick(100);
    assert_eq!(out.reactions.len(), 1);
    assert_eq!(state.count_live(), 2);
    assert_eq!(state.particles.len(), 2);
    assert!(state.particles[0].alive);
    assert!(state.particles[1].alive);
    let dx = state.particles[0].position.x - state.particles[1].position.x;
    assert!(dx.abs() > 112);
}
