use reactor_core::chamber::Shape;
use reactor_core::config::{
    default_config, get_available_molecules, get_launch_tube_limits, get_level_goal,
    get_molecule_cost, get_molecule_initial_velocity, get_molecule_lifetime, get_molecule_mass,
    get_molecule_radius, get_reactor_connections, get_reactor_initialization, get_reactors,
    valid_molecule_combination, Lifetime, Limits, ReactionInfo, WinCondition,
    MOLECULE_CAP, TOTAL_MOLECULE_TYPES,
};
use reactor_core::engine::{MoleculeSpawnerInfo, SimState};
use reactor_core::vec2::Vec2i;

#[test]
fn molecule_property_tables() {
    assert_eq!(get_molecule_radius(0), 48);
    assert_eq!(get_molecule_radius(2), 80);
    assert_eq!(get_molecule_radius(3), 16);
    assert_eq!(get_molecule_radius(17), 32);
    assert_eq!(get_molecule_mass(4), 10000);
    assert_eq!(get_molecule_mass(6), 5);
    assert_eq!(get_molecule_mass(9), 100);
    assert_eq!(get_molecule_cost(3), 50);
    assert_eq!(get_molecule_cost(6), 0);
    assert_eq!(get_molecule_initial_velocity(5), 3000);
    assert_eq!(get_molecule_initial_velocity(4), 50);
    assert_eq!(get_molecule_initial_velocity(12), 600);
}

#[test]
fn lifetime_table_marks_the_short_lived_types() {
    match get_molecule_lifetime(5) {
        Lifetime::Unstable { duration_ms, outcome } => {
            assert_eq!(duration_ms, 900);
            match outcome {
                ReactionInfo::Reaction { products, temperature, pressure } => {
                    assert!(products.is_empty());
                    assert_eq!(temperature, Limits(0, 1000));
                    assert_eq!(pressure, Limits(0, 1000));
                },
                ReactionInfo::Inert => panic!("type 5 decays through a gated outcome"),
            }
        },
        Lifetime::Stable => panic!("type 5 is unstable"),
    }
    assert!(matches!(get_molecule_lifetime(0), Lifetime::Stable));
    assert!(matches!(get_molecule_lifetime(6), Lifetime::Unstable { .. }));
}

#[test]
fn combination_table_is_symmetric() {
    match valid_molecule_combination(0, 1) {
        ReactionInfo::Reaction { products, .. } => assert_eq!(products, vec![2]),
        ReactionInfo::Inert => panic!("0 and 1 react"),
    }
    match valid_molecule_combination(1, 0) {
        ReactionInfo::Reaction { products, .. } => assert_eq!(products, vec![2]),
        ReactionInfo::Inert => panic!("the table is unordered"),
    }
    match valid_molecule_combination(3, 0) {
        ReactionInfo::Reaction { products, .. } => assert_eq!(products, vec![5, 5, 5, 5, 5]),
        ReactionInfo::Inert => panic!("0 and 3 react"),
    }
    assert!(matches!(valid_molecule_combination(0, 2), ReactionInfo::Inert));
    assert!(matches!(valid_molecule_combination(5, 6), ReactionInfo::Inert));
    assert!(matches!(valid_molecule_combination(0, 0), ReactionInfo::Inert));
}

#[test]
fn default_configuration_covers_the_tables() {
    let c = default_config();
    assert_eq!(c.kinds.len(), TOTAL_MOLECULE_TYPES);
    assert_eq!(c.cap, MOLECULE_CAP);
    assert_eq!(c.kinds[2].radius, 80);
    assert_eq!(c.kinds[5].launch_speed, 3000);
    let rule = c.find_rule(1, 0).expect("0 and 1 react");
    match &c.reactions[rule].info {
        ReactionInfo::Reaction { products, .. } => assert_eq!(products, &vec![2]),
        ReactionInfo::Inert => panic!("0 and 1 react"),
    }
    assert!(c.find_rule(6, 7).is_none());
}

#[test]
fn level_layout_tables() {
    assert_eq!(get_reactors(0).len(), 1);
    assert_eq!(get_reactors(3).len(), 2);
    assert_eq!(get_reactors(4).len(), 3);
    assert_eq!(get_reactors(25).len(), 3);
    match get_reactors(0)[0].shape {
        Shape::Rectangle { half_width, half_height, .. } => {
            assert_eq!(half_width, 1500);
            assert_eq!(half_height, 1000);
        },
        Shape::Circle { .. } => panic!("the first level is rectangular"),
    }
    match get_reactors(1)[0].shape {
        Shape::Circle { radius, .. } => assert_eq!(radius, 2000),
        Shape::Rectangle { .. } => panic!("the second level is circular"),
    }
    assert!(get_reactors(3)[1].is_product);
    assert!(!get_reactors(3)[1].is_input);
}

#[test]
fn connection_tables_link_the_multi_chamber_levels() {
    assert_eq!(get_reactor_connections(0, 0).len(), 0);
    let upper = get_reactor_connections(3, 0);
    assert_eq!(upper.len(), 2);
    assert!(upper[0].intake);
    assert!(upper[0].filter[0]);
    assert!(!upper[0].filter[1]);
    let lower = get_reactor_connections(3, 1);
    assert_eq!(lower.len(), 2);
    assert!(!lower[0].intake);
    assert_eq!(lower[0].connection_id, 0);
    assert_eq!(lower[1].connection_id, 1);
    assert_eq!(get_reactor_connections(4, 1).len(), 2);
    assert_eq!(get_reactor_connections(4, 2).len(), 1);
}

#[test]
fn seeding_tables_fill_the_early_levels() {
    assert_eq!(get_reactor_initialization(0, 0).len(), 5);
    assert_eq!(get_reactor_initialization(1, 0).len(), 81);
    let third = get_reactor_initialization(2, 0);
    assert_eq!(third.len(), 18);
    assert_eq!(third[0].2, Vec2i::new(0, 300));
    assert_eq!(third[1].2, Vec2i::new(0, -300));
    assert_eq!(get_reactor_initialization(5, 0).len(), 0);
}

#[test]
fn level_goal_table() {
    assert_eq!(get_level_goal(0), WinCondition::GreaterThan(5, 2));
    assert_eq!(get_level_goal(2), WinCondition::LessThan(1, 0));
    assert_eq!(get_level_goal(5), WinCondition::GreaterThan(15, 4));
    assert_eq!(get_level_goal(20), WinCondition::GreaterThan(1, 0));
}

#[test]
fn available_molecule_table() {
    let first = get_available_molecules(0);
    assert!(first[0]);
    assert!(!first[1]);
    let sandbox = get_available_molecules(9);
    for i in 0..7 {
        assert!(sandbox[i]);
    }
    assert!(!sandbox[7]);
    assert_eq!(get_launch_tube_limits(4, 0), Limits(625, 875));
    assert_eq!(get_launch_tube_limits(0, 0), Limits(1000, 1000));
}

#[test]
fn loading_a_level_seeds_its_particles() {
    let state = SimState::load_level(0, 1);
    assert_eq!(state.chambers.len(), 1);
    assert_eq!(state.count_live(), 5);
    assert_eq!(state.count_molecules_of(1, 0), 5);
    let crowded = SimState::load_level(1, 1);
    assert_eq!(crowded.count_live(), 81);
    let linked = SimState::load_level(3, 1);
    assert_eq!(linked.chambers.len(), 2);
    assert_eq!(linked.connections.len(), 4);
}

#[test]
fn spawning_refuses_bad_requests() {
    let mut state = SimState::load_level(0, 1);
    assert!(!state.spawn_molecule(5, 0, Vec2i::new(0, 0), Vec2i::new(0, 0)));
    assert!(!state.spawn_molecule(0, 99, Vec2i::new(0, 0), Vec2i::new(0, 0)));
    assert_eq!(state.count_live(), 5);
    assert!(state.spawn_molecule(0, 0, Vec2i::new(0, 0), Vec2i::new(0, 0)));
    assert_eq!(state.count_live(), 6);
    assert_eq!(state.cost, 10);
}

#[test]
fn spawn_positions_are_confined_to_the_chamber() {
    let mut state = SimState::load_level(0, 1);
    assert!(state.spawn_molecule(0, 0, Vec2i::new(9000, 0), Vec2i::new(0, 0)));
    let p = state.particles.last().expect("spawned");
    assert_eq!(p.position.x, 1500 - 48);
}

#[test]
fn venting_empties_one_chamber() {
    let mut state = SimState::load_level(3, 1);
    assert!(state.spawn_molecule(0, 0, Vec2i::new(0, 1000), Vec2i::new(0, 0)));
    assert!(state.spawn_molecule(1, 0, Vec2i::new(0, -1000), Vec2i::new(0, 0)));
    assert_eq!(state.count_live(), 2);
    state.vent_chamber(0);
    assert_eq!(state.count_live(), 1);
    assert_eq!(state.count_molecules_of(0, 1), 1);
    state.compact();
    assert_eq!(state.particles.len(), 1);
}

#[test]
fn win_condition_reads_the_product_chamber() {
    let mut state = SimState::load_level(3, 1);
    assert!(!state.check_product_reactor(WinCondition::GreaterThan(2, 0)));
    assert!(state.spawn_molecule(1, 0, Vec2i::new(0, -1000), Vec2i::new(0, 0)));
    assert!(state.spawn_molecule(1, 0, Vec2i::new(300, -1000), Vec2i::new(0, 0)));
    assert!(state.check_product_reactor(WinCondition::GreaterThan(2, 0)));
    assert!(!state.check_product_reactor(WinCondition::LessThan(2, 0)));
    // Chamber 0 is not a product chamber: particles there do not count.
    assert!(state.spawn_molecule(0, 0, Vec2i::new(0, 1000), Vec2i::new(0, 0)));
    assert!(!state.check_product_reactor(WinCondition::GreaterThan(3, 0)));
}

#[test]
fn lever_conditions_are_clamped_to_unit_range() {
    let mut state = SimState::load_level(0, 1);
    state.set_chamber_conditions(0, 2000, 500);
    assert_eq!(state.chambers[0].temperature, 1000);
    assert_eq!(state.chambers[0].pressure, 500);
    state.set_chamber_conditions(99, 1, 1);
    assert_eq!(state.chambers[0].temperature, 1000);
}

#[test]
fn spawners_fire_on_their_period() {
    let mut state = SimState::load_level(0, 1);
    let mut spawner = MoleculeSpawnerInfo {
        spawner_index: 0,
        chamber_id: 0,
        position: Vec2i::new(0, 500),
        period_ms: 3000,
        elapsed_ms: 0,
    };
    assert!(!state.run_spawner(&mut spawner, 1000));
    assert!(!state.run_spawner(&mut spawner, 1000));
    assert!(state.run_spawner(&mut spawner, 1000));
    assert_eq!(spawner.elapsed_ms, 0);
    assert_eq!(state.count_live(), 6);
    // In a rectangular chamber the spawner aims straight down at the
    // type's launch speed.
    let p = state.particles.last().expect("spawned");
    assert_eq!((p.velocity.x, p.velocity.y), (0, -1000));
    assert_eq!((p.position.x, p.position.y), (0, 500));
    // Spawners respect the cap like every other spawn path.
    state.config.cap = 6;
    spawner.elapsed_ms = 2999;
    assert!(!state.run_spawner(&mut spawner, 1));
    assert_eq!(state.count_live(), 6);
}
