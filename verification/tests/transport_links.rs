use reactor_core::chamber::{Chamber, Shape};
use reactor_core::config::{Connection, Lifetime, MoleculeKind, SimConfig};
use reactor_core::engine::SimState;
use reactor_core::rng::SimRng;
use reactor_core::vec2::Vec2i;

fn stable(radius: i64, mass: i64) -> MoleculeKind {
    MoleculeKind { radius, mass, launch_speed: 1000, cost: 1, lifetime: Lifetime::Stable }
}

fn rect_chamber(id: usize, ox: i64, oy: i64, half: i64) -> Chamber {
    Chamber {
        id,
        shape: Shape::Rectangle { origin: Vec2i::new(ox, oy), half_width: half, half_height: half },
        is_input: id == 0,
        is_product: id != 0,
        temperature: 0,
        pressure: 0,
    }
}

fn filter_of(accept: &[bool]) -> Vec<bool> {
    accept.to_vec()
}

fn linked_state() -> SimState {
    // Chamber 0 holds an intake for type 0 at its south wall; chamber 1 has
    // two outlets sharing the same connection id on its north wall.
    let intake = Connection {
        reactor_id: 0,
        connection_id: 3,
        intake: true,
        filter: filter_of(&[true, false]),
        position: Vec2i::new(0, -900),
        inward: Vec2i::new(0, 10),
    };
    let outlet_a = Connection {
        reactor_id: 1,
        connection_id: 3,
        intake: false,
        filter: filter_of(&[true, true]),
        position: Vec2i::new(5000, 1000),
        inward: Vec2i::new(0, -10),
    };
    let outlet_b = Connection {
        reactor_id: 1,
        connection_id: 3,
        intake: false,
        filter: filter_of(&[true, true]),
        position: Vec2i::new(5200, 1000),
        inward: Vec2i::new(0, -10),
    };
    SimState {
        config: SimConfig { kinds: vec![stable(32, 10), stable(48, 20)], reactions: vec![], cap: 100 },
        chambers: vec![rect_chamber(0, 0, 0, 1000), rect_chamber(1, 5000, 0, 1000)],
        connections: vec![intake, outlet_a, outlet_b],
        particles: vec![],
        live: 0,
        cost: 0,
        rng: SimRng::new(11),
    }
}

#[test]
fn one_intake_fans_out_to_both_outlets() {
    let mut state = linked_state();
    assert!(state.spawn_molecule(0, 0, Vec2i::new(0, -900), Vec2i::new(300, 400)));
    let out = state.tick(1);
    assert_eq!(out.transports.len(), 1);
    assert_eq!(out.transports[0].connection_id, 3);
    assert_eq!(out.transports[0].origin_chamber, 0);
    assert_eq!(out.transports[0].type_index, 0);
    // The captured particle is gone; each outlet produced one copy.
    assert_eq!(state.count_live(), 2);
    assert_eq!(state.count_molecules_of(0, 1), 2);
    assert_eq!(state.count_molecules_of(0, 0), 0);
    // Each copy keeps the captured speed up to integer rounding (the
    // captured particle moved at 500 units per second).
    for p in &state.particles {
        if p.alive {
            assert_eq!(p.chamber_id, 1);
            let l2 = p.velocity.x * p.velocity.x + p.velocity.y * p.velocity.y;
            assert!(l2 <= 500 * 500);
            assert!(l2 > 490 * 490);
            // The copy points inward (downward from the north wall).
            assert!(p.velocity.y < 0);
        }
    }
}

#[test]
fn intake_filter_rejects_other_types() {
    let mut state = linked_state();
    assert!(state.spawn_molecule(0, 1, Vec2i::new(0, -900), Vec2i::new(0, 0)));
    let out = state.tick(1);
    assert_eq!(out.transports.len(), 0);
    assert_eq!(state.count_live(), 1);
    assert_eq!(state.count_molecules_of(1, 0), 1);
}

#[test]
fn all_false_filter_rejects_everything() {
    let mut state = linked_state();
    state.connections[0].filter = filter_of(&[false, false]);
    assert!(state.spawn_molecule(0, 0, Vec2i::new(0, -900), Vec2i::new(0, 0)));
    let out = state.tick(1);
    assert_eq!(out.transports.len(), 0);
    assert_eq!(state.count_live(), 1);
}

#[test]
fn intake_without_outlet_is_a_sink() {
    let mut state = linked_state();
    state.connections.truncate(1);
    assert!(state.spawn_molecule(0, 0, Vec2i::new(0, -900), Vec2i::new(0, 0)));
    let out = state.tick(1);
    assert_eq!(out.transports.len(), 1);
    assert_eq!(state.count_live(), 0);
}

#[test]
fn distant_particles_are_not_captured() {
    let mut state = linked_state();
    assert!(state.spawn_molecule(0, 0, Vec2i::new(0, 0), Vec2i::new(0, 0)));
    let out = state.tick(1);
    assert_eq!(out.transports.len(), 0);
    assert_eq!(state.count_live(), 1);
}

#[test]
fn selection_follows_the_particle_through_transport() {
    let mut state = linked_state();
    assert!(state.spawn_molecule(0, 0, Vec2i::new(0, -900), Vec2i::new(100, 0)));
    state.particles[0].selected = true;
    state.tick(1);
    let mut selected = 0;
    for p in &state.particles {
        if p.alive && p.selected {
            selected += 1;
        }
    }
    assert_eq!(selected, 2);
}

#[test]
fn outlet_copies_respect_the_cap() {
    let mut state = linked_state();
    state.config.cap = 1;
    assert!(state.spawn_molecule(0, 0, Vec2i::new(0, -900), Vec2i::new(100, 0)));
    let out = state.tick(1);
    assert_eq!(out.transports.len(), 1);
    // The capture freed the only slot; just one outlet copy fits the cap.
    assert_eq!(state.count_live(), 1);
    assert_eq!(state.count_molecules_of(0, 1), 1);
}
