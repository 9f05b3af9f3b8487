//! Static configuration tables: molecule properties by type index, the
//! symmetric reaction table over unordered pairs of type indices, and the
//! per-level chamber, connection and seeding layouts.
//!
//! Temperatures and pressures are permille of full scale; the float windows
//! of the presentation layer map to `0..=1000` here.

use vstd::prelude::*;
use crate::chamber::{Chamber, Shape, chamber_wf, shape_wf};
use crate::num::{MAX_COORD, MAX_MASS, MAX_RADIUS, PERMILLE, SPEED_LIMIT};
use crate::vec2::{Vec2i, bounded};

verus! {

/// Number of molecule type indices the default tables cover.
pub const TOTAL_MOLECULE_TYPES: usize = 18;

/// Default live-particle cap enforced by the capacity governor.
pub const MOLECULE_CAP: usize = 800;

/// Number of levels the layout tables cover.
pub const NUMBER_OF_LEVELS: usize = 31;

/// Radius within which a particle is captured by an intake port, in world
/// units.
pub const INTAKE_RADIUS: i64 = 128;

/// An inclusive `lo..=hi` window on a permille-scaled quantity.
#[derive(Clone, Copy, Debug, PartialEq, Eq, Structural)]
pub struct Limits(pub u32, pub u32);

/// Outcome of a colliding pair or of a decay: either nothing (the pair just
/// bounces, the decayed particle vanishes), or a reaction producing the
/// listed types, gated by temperature and pressure windows.
#[derive(Clone, Debug)]
pub enum ReactionInfo {
    Inert,
    Reaction { products: Vec<usize>, temperature: Limits, pressure: Limits },
}

/// Lifetime policy of a molecule type.
#[derive(Clone, Debug)]
pub enum Lifetime {
    Stable,
    Unstable { duration_ms: u64, outcome: ReactionInfo },
}

/// Win condition of a level: at least / fewer than `count` particles of the
/// given type in the product chamber.
#[derive(Clone, Copy, Debug, PartialEq, Eq, Structural)]
pub enum WinCondition {
    GreaterThan(usize, usize),
    LessThan(usize, usize),
}

/// Mathematical image of a `ReactionInfo`.
pub ghost struct ReactionSpec {
    pub reacts: bool,
    pub products: Seq<usize>,
    pub t_lo: int,
    pub t_hi: int,
    pub p_lo: int,
    pub p_hi: int,
}

/// Mathematical image of a `Lifetime`.
pub ghost struct LifetimeSpec {
    pub unstable: bool,
    pub duration_ms: int,
    pub outcome: ReactionSpec,
}

pub open spec fn inert_spec() -> ReactionSpec {
    ReactionSpec { reacts: false, products: Seq::empty(), t_lo: 0, t_hi: 0, p_lo: 0, p_hi: 0 }
}

pub open spec fn view_reaction(r: ReactionInfo) -> ReactionSpec {
    match r {
        ReactionInfo::Inert => inert_spec(),
        ReactionInfo::Reaction { products, temperature, pressure } => ReactionSpec {
            reacts: true,
            products: products@,
            t_lo: temperature.0 as int,
            t_hi: temperature.1 as int,
            p_lo: pressure.0 as int,
            p_hi: pressure.1 as int,
        },
    }
}

pub open spec fn view_lifetime(l: Lifetime) -> LifetimeSpec {
    match l {
        Lifetime::Stable => LifetimeSpec { unstable: false, duration_ms: 0, outcome: inert_spec() },
        Lifetime::Unstable { duration_ms, outcome } => LifetimeSpec {
            unstable: true,
            duration_ms: duration_ms as int,
            outcome: view_reaction(outcome),
        },
    }
}

/// Whether a chamber at temperature `t` and pressure `p` (permille) lies
/// within a reaction's windows.
pub open spec fn within_windows(r: ReactionSpec, t: int, p: int) -> bool {
    r.t_lo <= t <= r.t_hi && r.p_lo <= p <= r.p_hi
}

/// Radius table by molecule type index, in world units.
pub open spec fn molecule_radius(index: int) -> int {
    if index == 0 {
        48
    } else if index == 1 {
        64
    } else if index == 2 {
        80
    } else if index == 3 {
        16
    } else if index == 4 {
        32
    } else if index == 5 {
        56
    } else if index == 6 {
        72
    } else {
        32
    }
}

/// Mass table by molecule type index.
pub open spec fn molecule_mass(index: int) -> int {
    if index == 0 {
        10
    } else if index == 1 {
        20
    } else if index == 2 {
        30
    } else if index == 3 {
        40
    } else if index == 4 {
        10000
    } else if index == 5 {
        1000
    } else if index == 6 {
        5
    } else {
        100
    }
}

/// Production cost table by molecule type index.
pub open spec fn molecule_cost(index: int) -> int {
    if index == 0 {
        10
    } else if index == 1 {
        20
    } else if index == 2 {
        40
    } else if index == 3 {
        50
    } else if index == 4 {
        80
    } else if index == 5 {
        2
    } else if index == 6 {
        0
    } else {
        1
    }
}

/// Launch speed table by molecule type index, in units per second.
pub open spec fn molecule_speed(index: int) -> int {
    if index == 0 {
        1000
    } else if index == 1 {
        2000
    } else if index == 2 {
        1500
    } else if index == 3 {
        2500
    } else if index == 4 {
        50
    } else if index == 5 {
        3000
    } else if index == 6 {
        3000
    } else {
        600
    }
}

/// Lifetime table by molecule type index: types 5 and 6 are short lived and
/// vanish without products; everything else is stable.
pub open spec fn molecule_lifetime(index: int) -> LifetimeSpec {
    if index == 5 || index == 6 {
        LifetimeSpec {
            unstable: true,
            duration_ms: 900,
            outcome: ReactionSpec {
                reacts: true,
                products: Seq::empty(),
                t_lo: 0,
                t_hi: PERMILLE as int,
                p_lo: 0,
                p_hi: PERMILLE as int,
            },
        }
    } else {
        LifetimeSpec { unstable: false, duration_ms: 0, outcome: inert_spec() }
    }
}

/// The reaction table over canonical (low, high) pairs of type indices.
/// Every listed reaction is open over the full temperature and pressure
/// range.
pub open spec fn combination_table(lo: int, hi: int) -> ReactionSpec {
    if lo == 0 && hi == 1 {
        full_window_reaction(seq![2])
    } else if lo == 0 && hi == 3 {
        full_window_reaction(seq![5, 5, 5, 5, 5])
    } else if lo == 0 && hi == 5 {
        full_window_reaction(seq![5])
    } else if lo == 1 && hi == 3 {
        full_window_reaction(seq![5, 5, 5, 5, 5])
    } else if lo == 1 && hi == 5 {
        full_window_reaction(seq![5])
    } else if lo == 2 && hi == 3 {
        full_window_reaction(seq![4])
    } else if lo == 2 && hi == 5 {
        full_window_reaction(seq![5])
    } else if lo == 3 && hi == 5 {
        full_window_reaction(seq![5])
    } else if lo == 4 && hi == 5 {
        full_window_reaction(seq![5])
    } else {
        inert_spec()
    }
}

pub open spec fn full_window_reaction(products: Seq<usize>) -> ReactionSpec {
    ReactionSpec {
        reacts: true,
        products: products,
        t_lo: 0,
        t_hi: PERMILLE as int,
        p_lo: 0,
        p_hi: PERMILLE as int,
    }
}

/// The table for an unordered pair: canonicalize and look up.
pub open spec fn spec_combination(a: int, b: int) -> ReactionSpec {
    if a <= b {
        combination_table(a, b)
    } else {
        combination_table(b, a)
    }
}

pub fn get_molecule_radius(index: usize) -> (r: i64)
    ensures
        r == molecule_radius(index as int),
        1 <= r <= MAX_RADIUS,
{
    match index {
        0 => 48,
        1 => 64,
        2 => 80,
        3 => 16,
        4 => 32,
        5 => 56,
        6 => 72,
        _ => 32,
    }
}

pub fn get_molecule_mass(index: usize) -> (r: i64)
    ensures
        r == molecule_mass(index as int),
        1 <= r <= MAX_MASS,
{
    match index {
        0 => 10,
        1 => 20,
        2 => 30,
        3 => 40,
        4 => 10000,
        5 => 1000,
        6 => 5,
        _ => 100,
    }
}

pub fn get_molecule_cost(index: usize) -> (r: u64)
    ensures
        r == molecule_cost(index as int),
{
    match index {
        0 => 10,
        1 => 20,
        2 => 40,
        3 => 50,
        4 => 80,
        5 => 2,
        6 => 0,
        _ => 1,
    }
}

pub fn get_molecule_initial_velocity(index: usize) -> (r: i64)
    ensures
        r == molecule_speed(index as int),
        0 <= r <= SPEED_LIMIT,
{
    match index {
        0 => 1000,
        1 => 2000,
        2 => 1500,
        3 => 2500,
        4 => 50,
        5 => 3000,
        6 => 3000,
        _ => 600,
    }
}

pub fn get_molecule_lifetime(index: usize) -> (r: Lifetime)
    ensures
        view_lifetime(r) == molecule_lifetime(index as int),
{
    if index == 5 || index == 6 {
        let outcome = ReactionInfo::Reaction {
            products: Vec::new(),
            temperature: Limits(0, PERMILLE),
            pressure: Limits(0, PERMILLE),
        };
        proof {
            assert(view_lifetime(
                Lifetime::Unstable { duration_ms: 900, outcome },
            ).outcome.products =~= molecule_lifetime(index as int).outcome.products);
        }
        Lifetime::Unstable { duration_ms: 900, outcome }
    } else {
        Lifetime::Stable
    }
}

/// The reaction rule for an unordered pair of molecule type indices.
pub fn valid_molecule_combination(mol_a: usize, mol_b: usize) -> (r: ReactionInfo)
    ensures
        view_reaction(r) == spec_combination(mol_a as int, mol_b as int),
{
    let lo = if mol_a <= mol_b { mol_a } else { mol_b };
    let hi = if mol_a <= mol_b { mol_b } else { mol_a };
    let r = if lo == 0 && hi == 1 {
        full_reaction_of(vec![2])
    } else if lo == 0 && hi == 3 {
        full_reaction_of(vec![5, 5, 5, 5, 5])
    } else if lo == 0 && hi == 5 {
        full_reaction_of(vec![5])
    } else if lo == 1 && hi == 3 {
        full_reaction_of(vec![5, 5, 5, 5, 5])
    } else if lo == 1 && hi == 5 {
        full_reaction_of(vec![5])
    } else if lo == 2 && hi == 3 {
        full_reaction_of(vec![4])
    } else if lo == 2 && hi == 5 {
        full_reaction_of(vec![5])
    } else if lo == 3 && hi == 5 {
        full_reaction_of(vec![5])
    } else if lo == 4 && hi == 5 {
        full_reaction_of(vec![5])
    } else {
        ReactionInfo::Inert
    };
    proof {
        assert(view_reaction(r).products =~= spec_combination(
            mol_a as int,
            mol_b as int,
        ).products);
    }
    r
}

/// A reaction over the full temperature and pressure range, producing the
/// given list of types.
fn full_reaction_of(products: Vec<usize>) -> (r: ReactionInfo)
    ensures
        view_reaction(r) == full_window_reaction(products@),
{
    ReactionInfo::Reaction {
        products,
        temperature: Limits(0, PERMILLE),
        pressure: Limits(0, PERMILLE),
    }
}

/// A boundary port of a chamber. Ports sharing a `connection_id` form a
/// transport link: intakes capture and destroy matching particles, outlets
/// re-emit them. `inward` points from the port into its chamber; `filter`
/// lists the molecule types an intake accepts (an empty or all-false filter
/// accepts nothing).
#[derive(Clone, Debug)]
pub struct Connection {
    pub reactor_id: usize,
    pub connection_id: usize,
    pub intake: bool,
    pub filter: Vec<bool>,
    pub position: Vec2i,
    pub inward: Vec2i,
}

pub open spec fn connection_wf(c: Connection, n_chambers: int) -> bool {
    &&& c.reactor_id < n_chambers
    &&& bounded(c.position, MAX_COORD as int)
    &&& bounded(c.inward, 1000)
    &&& !(c.inward.x == 0 && c.inward.y == 0)
}

/// Which molecule types may be launched on a level.
pub open spec fn available_molecule(level: int, index: int) -> bool {
    if level == 0 {
        index == 0
    } else if level == 1 || level == 3 {
        index == 0 || index == 1
    } else if level == 2 {
        index == 5
    } else if level == 4 {
        index == 2 || index == 3
    } else if level == 5 {
        index == 0 || index == 1 || index == 3 || index == 6
    } else {
        0 <= index < 7
    }
}

fn is_available(level: usize, index: usize) -> (r: bool)
    ensures
        r == available_molecule(level as int, index as int),
{
    if level == 0 {
        index == 0
    } else if level == 1 || level == 3 {
        index == 0 || index == 1
    } else if level == 2 {
        index == 5
    } else if level == 4 {
        index == 2 || index == 3
    } else if level == 5 {
        index == 0 || index == 1 || index == 3 || index == 6
    } else {
        index < 7
    }
}

pub fn get_available_molecules(level: usize) -> (r: Vec<bool>)
    ensures
        r@.len() == TOTAL_MOLECULE_TYPES,
        forall|i: int|
            0 <= i < TOTAL_MOLECULE_TYPES ==> r@[i] == available_molecule(level as int, i),
{
    let mut v: Vec<bool> = Vec::new();
    let mut i: usize = 0;
    while i < TOTAL_MOLECULE_TYPES
        invariant
            i <= TOTAL_MOLECULE_TYPES,
            v@.len() == i,
            forall|j: int| 0 <= j < i ==> v@[j] == available_molecule(level as int, j),
        decreases TOTAL_MOLECULE_TYPES - i,
    {
        v.push(is_available(level, i));
        i = i + 1;
    }
    v
}

/// Number of chambers a level has.
pub open spec fn reactor_count(level: int) -> int {
    if level == 3 {
        2
    } else if level == 4 {
        3
    } else if 0 <= level <= 6 {
        1
    } else {
        3
    }
}

/// A chamber value of the layout tables.
pub open spec fn spec_rect_chamber(
    id: int,
    ox: int,
    oy: int,
    half_width: int,
    half_height: int,
    is_input: bool,
    is_product: bool,
) -> Chamber {
    Chamber {
        id: id as usize,
        shape: Shape::Rectangle {
            origin: Vec2i { x: ox as i64, y: oy as i64 },
            half_width: half_width as i64,
            half_height: half_height as i64,
        },
        is_input,
        is_product,
        temperature: 0,
        pressure: 0,
    }
}

pub open spec fn spec_circle_chamber(
    id: int,
    ox: int,
    oy: int,
    radius: int,
    is_input: bool,
    is_product: bool,
) -> Chamber {
    Chamber {
        id: id as usize,
        shape: Shape::Circle {
            origin: Vec2i { x: ox as i64, y: oy as i64 },
            radius: radius as i64,
        },
        is_input,
        is_product,
        temperature: 0,
        pressure: 0,
    }
}

/// The chamber layout table by level and chamber index.
pub open spec fn spec_reactor(level: int, i: int) -> Chamber {
    if level == 0 {
        spec_rect_chamber(0, 0, 0, 1500, 1000, true, true)
    } else if level == 1 {
        spec_circle_chamber(0, 0, 0, 2000, true, true)
    } else if level == 2 {
        spec_rect_chamber(0, 0, 0, 1000, 800, true, true)
    } else if level == 3 {
        if i == 0 {
            spec_rect_chamber(0, 0, 1000, 2000, 1000, true, false)
        } else {
            spec_circle_chamber(1, 0, -1000, 800, false, true)
        }
    } else if level == 4 {
        if i == 0 {
            spec_circle_chamber(0, -4500, 0, 2000, true, false)
        } else if i == 1 {
            spec_rect_chamber(1, 0, 0, 2000, 300, false, true)
        } else {
            spec_circle_chamber(2, 4500, 0, 2000, true, false)
        }
    } else if level == 5 {
        spec_circle_chamber(0, 0, 0, 1500, true, true)
    } else if level == 6 {
        spec_circle_chamber(0, 0, 0, 4000, true, true)
    } else {
        if i == 0 {
            spec_rect_chamber(0, -3000, 100, 1500, 1500, true, false)
        } else if i == 1 {
            spec_rect_chamber(1, 3000, -2500, 1500, 1000, false, true)
        } else {
            spec_circle_chamber(2, 4000, 2000, 2200, true, false)
        }
    }
}

/// The chambers of a level: well formed, identified by their position in the
/// returned list, starting cold and depressurised.
pub fn get_reactors(level: usize) -> (r: Vec<Chamber>)
    ensures
        r@.len() == reactor_count(level as int),
        forall|i: int|
            0 <= i < r@.len() ==> chamber_wf(#[trigger] r@[i]) && r@[i].id == i
                && r@[i].temperature == 0 && r@[i].pressure == 0,
        forall|i: int| 0 <= i < r@.len() ==> #[trigger] r@[i] == spec_reactor(level as int, i),
{
    let mut v: Vec<Chamber> = Vec::new();
    if level == 0 {
        v.push(rect_chamber(0, 0, 0, 1500, 1000, true, true));
    } else if level == 1 {
        v.push(circle_chamber(0, 0, 0, 2000, true, true));
    } else if level == 2 {
        v.push(rect_chamber(0, 0, 0, 1000, 800, true, true));
    } else if level == 3 {
        v.push(rect_chamber(0, 0, 1000, 2000, 1000, true, false));
        v.push(circle_chamber(1, 0, -1000, 800, false, true));
    } else if level == 4 {
        v.push(circle_chamber(0, -4500, 0, 2000, true, false));
        v.push(rect_chamber(1, 0, 0, 2000, 300, false, true));
        v.push(circle_chamber(2, 4500, 0, 2000, true, false));
    } else if level == 5 {
        v.push(circle_chamber(0, 0, 0, 1500, true, true));
    } else if level == 6 {
        v.push(circle_chamber(0, 0, 0, 4000, true, true));
    } else {
        v.push(rect_chamber(0, -3000, 100, 1500, 1500, true, false));
        v.push(rect_chamber(1, 3000, -2500, 1500, 1000, false, true));
        v.push(circle_chamber(2, 4000, 2000, 2200, true, false));
    }
    v
}

fn rect_chamber(
    id: usize,
    ox: i64,
    oy: i64,
    half_width: i64,
    half_height: i64,
    is_input: bool,
    is_product: bool,
) -> (r: Chamber)
    requires
        0 < half_width,
        0 < half_height,
        crate::num::iabs(ox as int) + half_width <= MAX_COORD,
        crate::num::iabs(oy as int) + half_height <= MAX_COORD,
    ensures
        chamber_wf(r),
        r.id == id,
        r.shape == (Shape::Rectangle { origin: Vec2i { x: ox, y: oy }, half_width, half_height }),
        r.is_input == is_input,
        r.is_product == is_product,
        r.temperature == 0,
        r.pressure == 0,
{
    Chamber {
        id,
        shape: Shape::Rectangle { origin: Vec2i { x: ox, y: oy }, half_width, half_height },
        is_input,
        is_product,
        temperature: 0,
        pressure: 0,
    }
}

fn circle_chamber(id: usize, ox: i64, oy: i64, radius: i64, is_input: bool, is_product: bool) -> (r:
    Chamber)
    requires
        0 < radius,
        crate::num::iabs(ox as int) + radius <= MAX_COORD,
        crate::num::iabs(oy as int) + radius <= MAX_COORD,
    ensures
        chamber_wf(r),
        r.id == id,
        r.shape == (Shape::Circle { origin: Vec2i { x: ox, y: oy }, radius }),
        r.is_input == is_input,
        r.is_product == is_product,
        r.temperature == 0,
        r.pressure == 0,
{
    Chamber {
        id,
        shape: Shape::Circle { origin: Vec2i { x: ox, y: oy }, radius },
        is_input,
        is_product,
        temperature: 0,
        pressure: 0,
    }
}

/// A filter that accepts a single molecule type.
fn filter_single(index: usize) -> (r: Vec<bool>)
    requires
        index < TOTAL_MOLECULE_TYPES,
    ensures
        r@.len() == TOTAL_MOLECULE_TYPES,
        forall|i: int| 0 <= i < TOTAL_MOLECULE_TYPES ==> r@[i] == (i == index),
{
    let mut v: Vec<bool> = Vec::new();
    let mut i: usize = 0;
    while i < TOTAL_MOLECULE_TYPES
        invariant
            i <= TOTAL_MOLECULE_TYPES,
            v@.len() == i,
            forall|j: int| 0 <= j < i ==> v@[j] == (j == index),
        decreases TOTAL_MOLECULE_TYPES - i,
    {
        v.push(i == index);
        i = i + 1;
    }
    v
}

/// A filter that accepts every molecule type.
fn filter_all() -> (r: Vec<bool>)
    ensures
        r@.len() == TOTAL_MOLECULE_TYPES,
        forall|i: int| 0 <= i < TOTAL_MOLECULE_TYPES ==> r@[i] == true,
{
    let mut v: Vec<bool> = Vec::new();
    let mut i: usize = 0;
    while i < TOTAL_MOLECULE_TYPES
        invariant
            i <= TOTAL_MOLECULE_TYPES,
            v@.len() == i,
            forall|j: int| 0 <= j < i ==> v@[j] == true,
        decreases TOTAL_MOLECULE_TYPES - i,
    {
        v.push(true);
        i = i + 1;
    }
    v
}

fn port(
    reactor_id: usize,
    connection_id: usize,
    intake: bool,
    filter: Vec<bool>,
    px: i64,
    py: i64,
    ix: i64,
    iy: i64,
) -> (r: Connection)
    requires
        -(MAX_COORD as int) <= px <= MAX_COORD as int,
        -(MAX_COORD as int) <= py <= MAX_COORD as int,
        -1000 <= ix <= 1000,
        -1000 <= iy <= 1000,
        !(ix == 0 && iy == 0),
    ensures
        r.reactor_id == reactor_id,
        r.connection_id == connection_id,
        r.intake == intake,
        r.filter == filter,
        r.position == (Vec2i { x: px, y: py }),
        r.inward == (Vec2i { x: ix, y: iy }),
        forall|n: int| n > reactor_id ==> connection_wf(r, n),
{
    Connection {
        reactor_id,
        connection_id,
        intake,
        filter,
        position: Vec2i { x: px, y: py },
        inward: Vec2i { x: ix, y: iy },
    }
}

/// A port value matches one row of the connection table. A `filter_single`
/// of -1 stands for the accept-everything filter; otherwise the filter
/// accepts exactly that type.
pub open spec fn connection_matches(
    c: Connection,
    reactor_id: int,
    connection_id: int,
    intake: bool,
    filter_single: int,
    px: int,
    py: int,
    ix: int,
    iy: int,
) -> bool {
    &&& c.reactor_id == reactor_id
    &&& c.connection_id == connection_id
    &&& c.intake == intake
    &&& c.position == (Vec2i { x: px as i64, y: py as i64 })
    &&& c.inward == (Vec2i { x: ix as i64, y: iy as i64 })
    &&& c.filter@.len() == TOTAL_MOLECULE_TYPES
    &&& forall|t: int|
        0 <= t < TOTAL_MOLECULE_TYPES ==> c.filter@[t] == (filter_single == -1 || t
            == filter_single)
}

/// Number of ports one chamber of a level has.
pub open spec fn connection_count(level: int, reactor_id: int) -> int {
    if level == 3 && (reactor_id == 0 || reactor_id == 1) {
        2
    } else if level == 4 && reactor_id == 1 {
        2
    } else if level == 4 && (reactor_id == 0 || reactor_id == 2) {
        1
    } else {
        0
    }
}

/// The connection table: which port stands at index `i` of one chamber's
/// port list.
pub open spec fn spec_connection(level: int, reactor_id: int, i: int, c: Connection) -> bool {
    if level == 3 && reactor_id == 0 {
        if i == 0 {
            connection_matches(c, 0, 0, true, 0, -1600, 0, 8, 10)
        } else {
            connection_matches(c, 0, 1, true, 1, 1600, 0, -8, 10)
        }
    } else if level == 3 && reactor_id == 1 {
        if i == 0 {
            connection_matches(c, 1, 0, false, -1, 0, -200, 0, -10)
        } else {
            connection_matches(c, 1, 1, false, -1, 0, -200, 0, -10)
        }
    } else if level == 4 && reactor_id == 0 {
        connection_matches(c, 0, 2, true, 2, -2500, 0, -10, 0)
    } else if level == 4 && reactor_id == 1 {
        if i == 0 {
            connection_matches(c, 1, 2, false, -1, -2000, 0, 10, 0)
        } else {
            connection_matches(c, 1, 3, false, -1, 2000, 0, -10, 0)
        }
    } else if level == 4 && reactor_id == 2 {
        connection_matches(c, 2, 3, true, 3, 2500, 0, 10, 0)
    } else {
        true
    }
}

/// The boundary ports of one chamber of a level. Levels with a single
/// chamber have none.
pub fn get_reactor_connections(level: usize, reactor_id: usize) -> (r: Vec<Connection>)
    ensures
        forall|i: int|
            0 <= i < r@.len() ==> connection_wf(#[trigger] r@[i], reactor_count(level as int))
                && r@[i].reactor_id == reactor_id
                && r@[i].filter@.len() == TOTAL_MOLECULE_TYPES,
        r@.len() == connection_count(level as int, reactor_id as int),
        forall|i: int|
            0 <= i < r@.len() ==> spec_connection(level as int, reactor_id as int, i, #[trigger] r@[i]),
{
    let mut v: Vec<Connection> = Vec::new();
    if level == 3 {
        if reactor_id == 0 {
            v.push(port(0, 0, true, filter_single(0), -1600, 0, 8, 10));
            v.push(port(0, 1, true, filter_single(1), 1600, 0, -8, 10));
        } else if reactor_id == 1 {
            v.push(port(1, 0, false, filter_all(), 0, -200, 0, -10));
            v.push(port(1, 1, false, filter_all(), 0, -200, 0, -10));
        }
    } else if level == 4 {
        if reactor_id == 0 {
            v.push(port(0, 2, true, filter_single(2), -2500, 0, -10, 0));
        } else if reactor_id == 1 {
            v.push(port(1, 2, false, filter_all(), -2000, 0, 10, 0));
            v.push(port(1, 3, false, filter_all(), 2000, 0, -10, 0));
        } else if reactor_id == 2 {
            v.push(port(2, 3, true, filter_single(3), 2500, 0, 10, 0));
        }
    }
    v
}

/// Number of seeded molecules one chamber of a level starts with.
pub open spec fn seed_count(level: int, reactor_id: int) -> int {
    if reactor_id != 0 {
        0
    } else if level == 0 {
        5
    } else if level == 1 {
        81
    } else if level == 2 {
        18
    } else {
        0
    }
}

/// The seeding table: type, position relative to the chamber centre, and
/// initial velocity of the `i`-th seeded molecule of a level's first
/// chamber.
pub open spec fn seed_entry(level: int, i: int) -> (usize, Vec2i, Vec2i) {
    if level == 0 {
        (1usize, Vec2i { x: (-1000 + 500 * i) as i64, y: 0 }, Vec2i { x: 0, y: 0 })
    } else if level == 1 {
        (
            4usize,
            Vec2i { x: (-600 + 150 * (i % 9)) as i64, y: (-600 + 150 * (i / 9)) as i64 },
            Vec2i { x: 0, y: 0 },
        )
    } else {
        (
            0usize,
            Vec2i { x: (-800 + 100 * i) as i64, y: 0 },
            Vec2i {
                x: 0,
                y: (if i % 2 == 0 {
                    300int
                } else {
                    -300int
                }) as i64,
            },
        )
    }
}

/// Initial particle seeding of one chamber of a level: molecule type, spawn
/// position relative to the chamber centre, and initial velocity.
pub fn get_reactor_initialization(level: usize, reactor_id: usize) -> (r: Vec<(usize, Vec2i, Vec2i)>)
    ensures
        forall|i: int|
            0 <= i < r@.len() ==> (#[trigger] r@[i]).0 < TOTAL_MOLECULE_TYPES
                && bounded(r@[i].1, MAX_COORD as int)
                && bounded(r@[i].2, SPEED_LIMIT as int),
        r@.len() == seed_count(level as int, reactor_id as int),
        forall|i: int| 0 <= i < r@.len() ==> #[trigger] r@[i] == seed_entry(level as int, i),
{
    let mut v: Vec<(usize, Vec2i, Vec2i)> = Vec::new();
    if level == 0 && reactor_id == 0 {
        let mut i: i64 = 0;
        while i < 5
            invariant
                0 <= i <= 5,
                v@.len() == i,
                forall|k: int| 0 <= k < v@.len() ==> #[trigger] v@[k] == seed_entry(0, k),
            decreases 5 - i,
        {
            v.push((1, Vec2i { x: -1000 + 500 * i, y: 0 }, Vec2i { x: 0, y: 0 }));
            i = i + 1;
        }
    } else if level == 1 && reactor_id == 0 {
        let mut j: i64 = 0;
        while j < 9
            invariant
                0 <= j <= 9,
                v@.len() == 9 * j,
                forall|k: int| 0 <= k < v@.len() ==> #[trigger] v@[k] == seed_entry(1, k),
            decreases 9 - j,
        {
            let mut i: i64 = 0;
            while i < 9
                invariant
                    0 <= i <= 9,
                    0 <= j <= 8,
                    v@.len() == 9 * j + i,
                    forall|k: int| 0 <= k < v@.len() ==> #[trigger] v@[k] == seed_entry(1, k),
                decreases 9 - i,
            {
                proof {
                    vstd::arithmetic::div_mod::lemma_fundamental_div_mod_converse(
                        9 * (j as int) + (i as int),
                        9,
                        j as int,
                        i as int,
                    );
                }
                v.push((4, Vec2i { x: -600 + 150 * i, y: -600 + 150 * j }, Vec2i { x: 0, y: 0 }));
                i = i + 1;
            }
            j = j + 1;
        }
    } else if level == 2 && reactor_id == 0 {
        let mut i: i64 = 0;
        while i < 18
            invariant
                0 <= i <= 18,
                v@.len() == i,
                forall|k: int| 0 <= k < v@.len() ==> #[trigger] v@[k] == seed_entry(2, k),
            decreases 18 - i,
        {
            let vy: i64 = if i % 2 == 0 { 300 } else { -300 };
            v.push((0, Vec2i { x: -800 + 100 * i, y: 0 }, Vec2i { x: 0, y: vy }));
            i = i + 1;
        }
    }
    v
}

/// Win condition by level.
pub open spec fn level_goal(level: int) -> WinCondition {
    if level == 0 {
        WinCondition::GreaterThan(5, 2)
    } else if level == 1 {
        WinCondition::GreaterThan(5, 2)
    } else if level == 2 {
        WinCondition::LessThan(1, 0)
    } else if level == 3 {
        WinCondition::GreaterThan(5, 2)
    } else if level == 4 {
        WinCondition::GreaterThan(5, 4)
    } else if level == 5 {
        WinCondition::GreaterThan(15, 4)
    } else if level == 6 {
        WinCondition::GreaterThan(1, 10)
    } else {
        WinCondition::GreaterThan(1, 0)
    }
}

pub fn get_level_goal(level: usize) -> (r: WinCondition)
    ensures
        r == level_goal(level as int),
{
    if level == 0 {
        WinCondition::GreaterThan(5, 2)
    } else if level == 1 {
        WinCondition::GreaterThan(5, 2)
    } else if level == 2 {
        WinCondition::LessThan(1, 0)
    } else if level == 3 {
        WinCondition::GreaterThan(5, 2)
    } else if level == 4 {
        WinCondition::GreaterThan(5, 4)
    } else if level == 5 {
        WinCondition::GreaterThan(15, 4)
    } else if level == 6 {
        WinCondition::GreaterThan(1, 10)
    } else {
        WinCondition::GreaterThan(1, 0)
    }
}

/// Immutable per-type configuration of one molecule kind.
#[derive(Clone, Debug)]
pub struct MoleculeKind {
    pub radius: i64,
    pub mass: i64,
    pub launch_speed: i64,
    pub cost: u64,
    pub lifetime: Lifetime,
}

/// One row of the reaction table, keyed by the canonical (low, high) pair of
/// molecule type indices.
#[derive(Clone, Debug)]
pub struct ReactionEntry {
    pub first: usize,
    pub second: usize,
    pub info: ReactionInfo,
}

/// The configuration a simulation runs under: the molecule kind table, the
/// reaction table, and the live-particle cap.
#[derive(Clone, Debug)]
pub struct SimConfig {
    pub kinds: Vec<MoleculeKind>,
    pub reactions: Vec<ReactionEntry>,
    pub cap: usize,
}

pub open spec fn reaction_info_wf(r: ReactionInfo, n_kinds: int) -> bool {
    match r {
        ReactionInfo::Inert => true,
        ReactionInfo::Reaction { products, temperature, pressure } => {
            &&& forall|i: int| 0 <= i < products@.len() ==> (#[trigger] products@[i]) < n_kinds
            &&& temperature.0 <= temperature.1 <= PERMILLE
            &&& pressure.0 <= pressure.1 <= PERMILLE
        },
    }
}

pub open spec fn kind_wf(k: MoleculeKind, n_kinds: int) -> bool {
    &&& 1 <= k.radius <= MAX_RADIUS
    &&& 1 <= k.mass <= MAX_MASS
    &&& 0 <= k.launch_speed <= SPEED_LIMIT
    &&& match k.lifetime {
        Lifetime::Stable => true,
        Lifetime::Unstable { duration_ms, outcome } => 1 <= duration_ms <= 1_000_000_000_000
            && reaction_info_wf(outcome, n_kinds),
    }
}

pub open spec fn entry_wf(e: ReactionEntry, n_kinds: int) -> bool {
    &&& e.first <= e.second < n_kinds
    &&& reaction_info_wf(e.info, n_kinds)
}

/// Well-formed configuration: every kind and table row is well formed and no
/// two rows share a key.
pub open spec fn config_wf(c: SimConfig) -> bool {
    &&& forall|i: int| 0 <= i < c.kinds@.len() ==> kind_wf(#[trigger] c.kinds@[i], c.kinds@.len() as int)
    &&& forall|i: int|
        0 <= i < c.reactions@.len() ==> entry_wf(#[trigger] c.reactions@[i], c.kinds@.len() as int)
    &&& forall|i: int, j: int|
        #![trigger c.reactions@[i], c.reactions@[j]]
        0 <= i < j < c.reactions@.len() ==> !(c.reactions@[i].first == c.reactions@[j].first
            && c.reactions@[i].second == c.reactions@[j].second)
}

/// Whether the table holds a row for the canonical pair (lo, hi).
pub open spec fn has_rule(c: SimConfig, lo: int, hi: int) -> bool {
    exists|i: int|
        0 <= i < c.reactions@.len() && (#[trigger] c.reactions@[i]).first == lo
            && c.reactions@[i].second == hi
}

pub open spec fn rule_index(c: SimConfig, lo: int, hi: int) -> int {
    choose|i: int|
        0 <= i < c.reactions@.len() && (#[trigger] c.reactions@[i]).first == lo
            && c.reactions@[i].second == hi
}

/// The reaction rule the configuration gives an unordered pair of types:
/// the row keyed by the canonical pair, or no reaction if there is none.
pub open spec fn config_rule(c: SimConfig, a: int, b: int) -> ReactionSpec {
    let lo = if a <= b { a } else { b };
    let hi = if a <= b { b } else { a };
    if has_rule(c, lo, hi) {
        view_reaction(c.reactions@[rule_index(c, lo, hi)].info)
    } else {
        inert_spec()
    }
}

impl SimConfig {
    /// Find the reaction table row for an unordered pair of types, if any.
    pub fn find_rule(&self, a: usize, b: usize) -> (r: Option<usize>)
        requires
            config_wf(*self),
        ensures
            match r {
                Some(i) => i < self.reactions@.len() && view_reaction(self.reactions@[i as int].info)
                    == config_rule(*self, a as int, b as int),
                None => config_rule(*self, a as int, b as int) == inert_spec(),
            },
    {
        let lo = if a <= b { a } else { b };
        let hi = if a <= b { b } else { a };
        let mut i: usize = 0;
        while i < self.reactions.len()
            invariant
                config_wf(*self),
                i <= self.reactions@.len(),
                lo == if a <= b {
                    a
                } else {
                    b
                },
                hi == if a <= b {
                    b
                } else {
                    a
                },
                forall|j: int|
                    0 <= j < i ==> !((#[trigger] self.reactions@[j]).first == lo
                        && self.reactions@[j].second == hi),
            decreases self.reactions@.len() - i,
        {
            let e = &self.reactions[i];
            if e.first == lo && e.second == hi {
                proof {
                    assert(has_rule(*self, lo as int, hi as int));
                    let w = rule_index(*self, lo as int, hi as int);
                    assert(self.reactions@[w].first == lo && self.reactions@[w].second == hi);
                    let ei = self.reactions@[i as int];
                    let ew = self.reactions@[w];
                    assert(ei.first == lo && ei.second == hi);
                    assert(w == i as int);
                    assert(lo as int == if a as int <= b as int {
                        a as int
                    } else {
                        b as int
                    });
                    assert(config_rule(*self, a as int, b as int) == view_reaction(
                        self.reactions@[i as int].info,
                    ));
                }
                return Some(i);
            }
            i = i + 1;
        }
        proof {
            assert(!has_rule(*self, lo as int, hi as int));
        }
        None
    }

    /// Number of molecule kinds the configuration knows.
    pub fn n_kinds(&self) -> (r: usize)
        ensures
            r == self.kinds@.len(),
    {
        self.kinds.len()
    }
}

/// The default configuration: the built-in molecule and reaction tables and
/// the default cap.
pub fn default_config() -> (r: SimConfig)
    ensures
        config_wf(r),
        r.kinds@.len() == TOTAL_MOLECULE_TYPES,
        r.cap == MOLECULE_CAP,
        forall|i: int|
            0 <= i < TOTAL_MOLECULE_TYPES ==> {
                let k = #[trigger] r.kinds@[i];
                k.radius == molecule_radius(i) && k.mass == molecule_mass(i) && k.launch_speed
                    == molecule_speed(i) && k.cost == molecule_cost(i) && view_lifetime(k.lifetime)
                    == molecule_lifetime(i)
            },
        forall|a: int, b: int|
            0 <= a < TOTAL_MOLECULE_TYPES && 0 <= b < TOTAL_MOLECULE_TYPES
                ==> #[trigger] config_rule(r, a, b) == spec_combination(a, b),
{
    let mut kinds: Vec<MoleculeKind> = Vec::new();
    let mut i: usize = 0;
    while i < TOTAL_MOLECULE_TYPES
        invariant
            i <= TOTAL_MOLECULE_TYPES,
            kinds@.len() == i,
            forall|j: int|
                0 <= j < i ==> {
                    let k = #[trigger] kinds@[j];
                    k.radius == molecule_radius(j) && k.mass == molecule_mass(j) && k.launch_speed
                        == molecule_speed(j) && k.cost == molecule_cost(j) && view_lifetime(
                        k.lifetime,
                    ) == molecule_lifetime(j)
                },
        decreases TOTAL_MOLECULE_TYPES - i,
    {
        kinds.push(
            MoleculeKind {
                radius: get_molecule_radius(i),
                mass: get_molecule_mass(i),
                launch_speed: get_molecule_initial_velocity(i),
                cost: get_molecule_cost(i),
                lifetime: get_molecule_lifetime(i),
            },
        );
        i = i + 1;
    }
    let mut reactions: Vec<ReactionEntry> = Vec::new();
    reactions.push(table_entry(0, 1));
    reactions.push(table_entry(0, 3));
    reactions.push(table_entry(0, 5));
    reactions.push(table_entry(1, 3));
    reactions.push(table_entry(1, 5));
    reactions.push(table_entry(2, 3));
    reactions.push(table_entry(2, 5));
    reactions.push(table_entry(3, 5));
    reactions.push(table_entry(4, 5));
    let c = SimConfig { kinds, reactions, cap: MOLECULE_CAP };
    proof {
        assert forall|a: int, b: int|
            0 <= a < TOTAL_MOLECULE_TYPES && 0 <= b < TOTAL_MOLECULE_TYPES implies #[trigger] config_rule(
            c,
            a,
            b,
        ) == spec_combination(a, b) by {
            let lo = if a <= b { a } else { b };
            let hi = if a <= b { b } else { a };
            if has_rule(c, lo, hi) {
                let w = rule_index(c, lo, hi);
                assert(0 <= w < c.reactions@.len() && c.reactions@[w].first == lo
                    && c.reactions@[w].second == hi);
            } else {
                if combination_table(lo, hi).reacts {
                    if lo == 0 && hi == 1 {
                        assert(c.reactions@[0].first == lo && c.reactions@[0].second == hi);
                    } else if lo == 0 && hi == 3 {
                        assert(c.reactions@[1].first == lo && c.reactions@[1].second == hi);
                    } else if lo == 0 && hi == 5 {
                        assert(c.reactions@[2].first == lo && c.reactions@[2].second == hi);
                    } else if lo == 1 && hi == 3 {
                        assert(c.reactions@[3].first == lo && c.reactions@[3].second == hi);
                    } else if lo == 1 && hi == 5 {
                        assert(c.reactions@[4].first == lo && c.reactions@[4].second == hi);
                    } else if lo == 2 && hi == 3 {
                        assert(c.reactions@[5].first == lo && c.reactions@[5].second == hi);
                    } else if lo == 2 && hi == 5 {
                        assert(c.reactions@[6].first == lo && c.reactions@[6].second == hi);
                    } else if lo == 3 && hi == 5 {
                        assert(c.reactions@[7].first == lo && c.reactions@[7].second == hi);
                    } else if lo == 4 && hi == 5 {
                        assert(c.reactions@[8].first == lo && c.reactions@[8].second == hi);
                    }
                    assert(has_rule(c, lo, hi));
                }
                assert(spec_combination(a, b) == inert_spec());
            }
        }
    }
    c
}

/// One row of the built-in reaction table.
fn table_entry(lo: usize, hi: usize) -> (r: ReactionEntry)
    requires
        lo <= hi < TOTAL_MOLECULE_TYPES,
        spec_combination(lo as int, hi as int).reacts,
    ensures
        r.first == lo,
        r.second == hi,
        view_reaction(r.info) == spec_combination(lo as int, hi as int),
        entry_wf(r, TOTAL_MOLECULE_TYPES as int),
{
    let info = valid_molecule_combination(lo, hi);
    proof {
        let v = view_reaction(info);
        assert(forall|i: int| 0 <= i < v.products.len() ==> (#[trigger] v.products[i]) < TOTAL_MOLECULE_TYPES);
    }
    ReactionEntry { first: lo, second: hi, info }
}

/// Range of boundary positions (permille) the launch tube may occupy on a
/// level's chamber.
pub fn get_launch_tube_limits(level: usize, reactor_id: usize) -> (r: Limits)
    ensures
        r == if level == 4 && reactor_id == 0 {
            Limits(625, 875)
        } else if level == 4 && reactor_id == 2 {
            Limits(125, 375)
        } else {
            Limits(1000, 1000)
        },
{
    if level == 4 && reactor_id == 0 {
        Limits(625, 875)
    } else if level == 4 && reactor_id == 2 {
        Limits(125, 375)
    } else {
        Limits(1000, 1000)
    }
}

} // verus!
