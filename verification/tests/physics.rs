use reactor_core::chamber::{Chamber, Shape, clamp_to_chamber};
use reactor_core::collision::resolve_bounce;
use reactor_core::config::{Lifetime, MoleculeKind, SimConfig};
use reactor_core::engine::SimState;
use reactor_core::motion::decay_velocity;
use reactor_core::particle::Particle;
use reactor_core::rng::{SimRng, dir_from_bits};
use reactor_core::vec2::{Vec2i, scale_to_length};

fn plain_kind(radius: i64, mass: i64, launch_speed: i64) -> MoleculeKind {
    MoleculeKind { radius, mass, launch_speed, cost: 1, lifetime: Lifetime::Stable }
}

fn one_chamber_state(half_width: i64, half_height: i64, kinds: Vec<MoleculeKind>) -> SimState {
    SimState {
        config: SimConfig { kinds, reactions: vec![], cap: 100 },
        chambers: vec![Chamber {
            id: 0,
            shape: Shape::Rectangle {
                origin: Vec2i::new(0, 0),
                half_width,
                half_height,
            },
            is_input: true,
            is_product: true,
            temperature: 0,
            pressure: 0,
        }],
        connections: vec![],
        particles: vec![],
        live: 0,
        cost: 0,
        rng: SimRng::new(7),
    }
}

#[test]
fn momentum_is_conserved_by_bounce() {
    let (va, vb) = resolve_bounce(
        10,
        20,
        Vec2i::new(100, 50),
        Vec2i::new(-80, 30),
        Vec2i::new(5, 5),
    );
    assert_eq!(10 * va.x + 20 * vb.x, 10 * 100 + 20 * -80);
    assert_eq!(10 * va.y + 20 * vb.y, 10 * 50 + 20 * 30);
}

#[test]
fn bounce_of_equal_masses_head_on_swaps_velocities() {
    let (va, vb) = resolve_bounce(
        10,
        10,
        Vec2i::new(100, 0),
        Vec2i::new(-100, 0),
        Vec2i::new(-60, 0),
    );
    assert_eq!((va.x, va.y), (-100, 0));
    assert_eq!((vb.x, vb.y), (100, 0));
}

#[test]
fn coincident_particles_repel_along_fallback_axis() {
    // Two exactly coincident bodies must not divide by zero; the offset
    // falls back to the positive-y unit direction.
    let (va, vb) = resolve_bounce(10, 10, Vec2i::new(0, 100), Vec2i::new(0, -100), Vec2i::new(0, 0));
    assert_eq!((va.x, va.y), (0, -100));
    assert_eq!((vb.x, vb.y), (0, 100));
}

#[test]
fn two_particle_scenario_separates_elastically() {
    // A 2000 x 2000 chamber at the origin; two equal particles approach
    // head on at 100 units per second and meet with no reaction rule.
    let mut state = one_chamber_state(1000, 1000, vec![plain_kind(32, 10, 1000)]);
    assert!(state.spawn_molecule(0, 0, Vec2i::new(-50, 0), Vec2i::new(100, 0)));
    assert!(state.spawn_molecule(0, 0, Vec2i::new(50, 0), Vec2i::new(-100, 0)));
    let mut reacted = 0;
    for _ in 0..3 {
        let out = state.tick(100);
        reacted += out.reactions.len();
    }
    assert_eq!(reacted, 0);
    // After the third tick the pair has collided: velocities swapped and the
    // bodies no longer overlap.
    let a = &state.particles[0];
    let b = &state.particles[1];
    assert_eq!((a.velocity.x, a.velocity.y), (-100, 0));
    assert_eq!((b.velocity.x, b.velocity.y), (100, 0));
    assert_eq!((a.position.x, a.position.y), (-45, 0));
    assert_eq!((b.position.x, b.position.y), (45, 0));
    let dx = a.position.x - b.position.x;
    let dy = a.position.y - b.position.y;
    assert!(dx * dx + dy * dy > 64 * 64);
    // Momentum is conserved through the bounce.
    assert_eq!(10 * a.velocity.x + 10 * b.velocity.x, 0);
}

#[test]
fn rectangle_wall_reflects_and_contains() {
    let mut state = one_chamber_state(100, 100, vec![plain_kind(10, 10, 1000)]);
    assert!(state.spawn_molecule(0, 0, Vec2i::new(85, 0), Vec2i::new(100, 0)));
    state.tick(1000);
    let p = &state.particles[0];
    assert_eq!((p.velocity.x, p.velocity.y), (-100, 0));
    assert_eq!((p.position.x, p.position.y), (-15, 0));
}

#[test]
fn circle_wall_reflects_about_the_normal() {
    let mut state = one_chamber_state(100, 100, vec![plain_kind(10, 10, 1000)]);
    state.chambers[0].shape = Shape::Circle { origin: Vec2i::new(0, 0), radius: 100 };
    assert!(state.spawn_molecule(0, 0, Vec2i::new(80, 0), Vec2i::new(100, 0)));
    state.tick(1000);
    let p = &state.particles[0];
    assert_eq!((p.velocity.x, p.velocity.y), (-100, 0));
    assert_eq!((p.position.x, p.position.y), (-20, 0));
}

#[test]
fn no_particle_escapes_its_chamber() {
    // Fast particles over several ticks: after every tick each body lies
    // within half-extent minus radius on both axes.
    let mut state = one_chamber_state(500, 300, vec![plain_kind(25, 10, 1000)]);
    assert!(state.spawn_molecule(0, 0, Vec2i::new(-400, 100), Vec2i::new(900, -700)));
    assert!(state.spawn_molecule(0, 0, Vec2i::new(300, -200), Vec2i::new(-500, 800)));
    assert!(state.spawn_molecule(0, 0, Vec2i::new(0, 0), Vec2i::new(770, 130)));
    for _ in 0..25 {
        state.tick(170);
        for p in &state.particles {
            if p.alive {
                assert!(p.position.x.abs() <= 500 - 25);
                assert!(p.position.y.abs() <= 300 - 25);
            }
        }
    }
}

#[test]
fn circle_clamp_projects_to_the_rim() {
    let shape = Shape::Circle { origin: Vec2i::new(0, 0), radius: 100 };
    let r = clamp_to_chamber(&shape, Vec2i::new(200, 0), 10);
    assert_eq!((r.x, r.y), (90, 0));
    let d = clamp_to_chamber(&shape, Vec2i::new(200, 200), 10);
    assert!(d.x * d.x + d.y * d.y <= 90 * 90);
    assert!(d.x * d.x + d.y * d.y > 80 * 80);
    let inside = clamp_to_chamber(&shape, Vec2i::new(30, -40), 10);
    assert_eq!((inside.x, inside.y), (30, -40));
}

#[test]
fn rectangle_clamp_is_per_axis() {
    let shape = Shape::Rectangle { origin: Vec2i::new(10, 20), half_width: 100, half_height: 50 };
    let r = clamp_to_chamber(&shape, Vec2i::new(500, -500), 10);
    assert_eq!((r.x, r.y), (10 + 90, 20 - 40));
    let kept = clamp_to_chamber(&shape, Vec2i::new(50, 0), 10);
    assert_eq!((kept.x, kept.y), (50, 0));
}

#[test]
fn random_directions_carry_the_requested_speed() {
    let mut rng = SimRng::new(99);
    for _ in 0..50 {
        let bits = rng.next_bits();
        let d = dir_from_bits(bits, 1000);
        let l2 = d.x * d.x + d.y * d.y;
        assert!(l2 <= 1000 * 1000);
        assert!(l2 > 998 * 998);
    }
    let z = dir_from_bits(12345, 0);
    assert_eq!((z.x, z.y), (0, 0));
}

#[test]
fn scaling_a_vector_preserves_direction_and_length() {
    let v = scale_to_length(Vec2i::new(3, 4), 100);
    assert_eq!((v.x, v.y), (60, 80));
    let axis = scale_to_length(Vec2i::new(0, -10), 300);
    assert_eq!((axis.x, axis.y), (0, -300));
    let fallback = scale_to_length(Vec2i::new(0, 0), 25);
    assert_eq!((fallback.x, fallback.y), (0, 25));
}

#[test]
fn friction_takes_a_tenth_per_second() {
    let mut particles = vec![Particle {
        alive: true,
        chamber_id: 0,
        type_index: 0,
        radius: 10,
        mass: 10,
        position: Vec2i::new(0, 0),
        velocity: Vec2i::new(1000, -1000),
        reacted: false,
        decay_elapsed_ms: 0,
        selected: false,
    }];
    decay_velocity(&mut particles, 1000);
    assert_eq!((particles[0].velocity.x, particles[0].velocity.y), (900, -900));
    decay_velocity(&mut particles, 500);
    assert_eq!((particles[0].velocity.x, particles[0].velocity.y), (855, -855));
    // A step long enough to drain a component brings it to rest rather
    // than reversing it.
    decay_velocity(&mut particles, 20_000);
    assert_eq!((particles[0].velocity.x, particles[0].velocity.y), (0, 0));
}

#[test]
fn deterministic_generator_repeats_per_seed() {
    let mut a = SimRng::new(42);
    let mut b = SimRng::new(42);
    for _ in 0..10 {
        assert_eq!(a.next_bits(), b.next_bits());
    }
    let mut c = SimRng::new(43);
    assert_ne!(a.next_bits(), c.next_bits());
}

#[test]
fn entropy_seed_feeds_the_generator() {
    let seed = reactor_core::rng::entropy_seed();
    let mut rng = SimRng::new(seed);
    rng.next_bits();
}

#[test]
fn touching_pairs_always_separate() {
    // Radius sums where the one-percent margin rounds below a unit: the
    // push must still strictly separate the pair.
    let mut state = one_chamber_state(1000, 1000, vec![plain_kind(16, 10, 1000)]);
    assert!(state.spawn_molecule(0, 0, Vec2i::new(-16, 0), Vec2i::new(0, 0)));
    assert!(state.spawn_molecule(0, 0, Vec2i::new(16, 0), Vec2i::new(0, 0)));
    state.tick(1);
    let dx = state.particles[0].position.x - state.particles[1].position.x;
    let dy = state.particles[0].position.y - state.particles[1].position.y;
    assert!(dx * dx + dy * dy > 32 * 32);
    // A diagonally penetrating pair separates too.
    let mut deep = one_chamber_state(1000, 1000, vec![plain_kind(16, 10, 1000)]);
    assert!(deep.spawn_molecule(0, 0, Vec2i::new(-11, -11), Vec2i::new(0, 0)));
    assert!(deep.spawn_molecule(0, 0, Vec2i::new(11, 11), Vec2i::new(0, 0)));
    deep.tick(1);
    let ddx = deep.particles[0].position.x - deep.particles[1].position.x;
    let ddy = deep.particles[0].position.y - deep.particles[1].position.y;
    assert!(ddx * ddx + ddy * ddy > 32 * 32);
    // Exactly coincident bodies separate along the fallback axis.
    let mut same = one_chamber_state(1000, 1000, vec![plain_kind(16, 10, 1000)]);
    assert!(same.spawn_molecule(0, 0, Vec2i::new(0, 0), Vec2i::new(0, 0)));
    assert!(same.spawn_molecule(0, 0, Vec2i::new(0, 0), Vec2i::new(0, 0)));
    same.tick(1);
    let sdx = same.particles[0].position.x - same.particles[1].position.x;
    let sdy = same.particles[0].position.y - same.particles[1].position.y;
    assert!(sdx * sdx + sdy * sdy > 32 * 32);
}
