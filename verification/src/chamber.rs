//! Reactor chambers: rectangular or circular enclosures with an identity,
//! role flags, and live temperature/pressure conditions.

use vstd::prelude::*;
use crate::num::{iabs, tdiv, spec_clamp, isqrt_ceil, tdiv_i128, lemma_tdiv_mag, lemma_sq_bound,
    MAX_COORD, POS_LIMIT, PERMILLE};
use crate::vec2::{Vec2i, dist2, bounded};

verus! {

/// Geometry of a chamber: an axis-aligned rectangle or a circle, both given
/// by their center.
#[derive(Clone, Copy, Debug)]
pub enum Shape {
    Rectangle { origin: Vec2i, half_width: i64, half_height: i64 },
    Circle { origin: Vec2i, radius: i64 },
}

/// An enclosed reactor chamber. `id` and `shape` are fixed after creation;
/// temperature and pressure (permille of full scale) are set externally and
/// read every tick.
#[derive(Clone, Copy, Debug)]
pub struct Chamber {
    pub id: usize,
    pub shape: Shape,
    pub is_input: bool,
    pub is_product: bool,
    pub temperature: u32,
    pub pressure: u32,
}

/// A shape is well formed when its extents are positive and every point of it
/// lies within the `MAX_COORD` box.
pub open spec fn shape_wf(s: Shape) -> bool {
    match s {
        Shape::Rectangle { origin, half_width, half_height } => {
            &&& 0 < half_width
            &&& 0 < half_height
            &&& iabs(origin.x as int) + half_width <= MAX_COORD
            &&& iabs(origin.y as int) + half_height <= MAX_COORD
        },
        Shape::Circle { origin, radius } => {
            &&& 0 < radius
            &&& iabs(origin.x as int) + radius <= MAX_COORD
            &&& iabs(origin.y as int) + radius <= MAX_COORD
        },
    }
}

pub open spec fn chamber_wf(c: Chamber) -> bool {
    &&& shape_wf(c.shape)
    &&& c.temperature <= PERMILLE
    &&& c.pressure <= PERMILLE
}

/// A body of radius `r` can be placed somewhere inside the shape.
pub open spec fn fits(s: Shape, r: int) -> bool {
    match s {
        Shape::Rectangle { origin, half_width, half_height } => r <= half_width && r
            <= half_height,
        Shape::Circle { origin, radius } => r <= radius,
    }
}

/// A body of radius `r` centred at `p` lies entirely within the shape: for a
/// rectangle its centre is within half-extent minus radius on each axis, for
/// a circle within radius-minus-radius of the chamber centre.
pub open spec fn inside(s: Shape, p: Vec2i, r: int) -> bool {
    match s {
        Shape::Rectangle { origin, half_width, half_height } => {
            &&& iabs(p.x - origin.x) <= half_width - r
            &&& iabs(p.y - origin.y) <= half_height - r
        },
        Shape::Circle { origin, radius } => dist2(p, origin) <= (radius - r) * (radius - r),
    }
}

/// A point inside a well-formed shape lies within the `MAX_COORD` box.
pub proof fn lemma_inside_bounded(s: Shape, p: Vec2i, r: int)
    requires
        shape_wf(s),
        inside(s, p, r),
        fits(s, r),
        0 <= r,
    ensures
        bounded(p, MAX_COORD as int),
{
    match s {
        Shape::Rectangle { origin, half_width, half_height } => {},
        Shape::Circle { origin, radius } => {
            let dx = p.x - origin.x;
            let dy = p.y - origin.y;
            let k = radius - r;
            assert(dx * dx >= 0) by (nonlinear_arith);
            assert(dy * dy >= 0) by (nonlinear_arith);
            assert(dx * dx <= k * k);
            assert(dy * dy <= k * k);
            lemma_sq_bound(dx, k);
            lemma_sq_bound(dy, k);
        },
    }
}

/// Test whether a body of the given radius can be placed inside the shape.
pub fn radius_fits(s: &Shape, r: i64) -> (b: bool)
    ensures
        b == fits(*s, r as int),
{
    match s {
        Shape::Rectangle { origin, half_width, half_height } => r <= *half_width && r
            <= *half_height,
        Shape::Circle { origin, radius } => r <= *radius,
    }
}

/// Move a point the smallest representable amount needed to bring a body of
/// the given radius back inside the chamber; a point already inside is left
/// untouched. This is the corrective pass that guards against tunnelling.
pub fn clamp_to_chamber(s: &Shape, pos: Vec2i, radius: i64) -> (r: Vec2i)
    requires
        shape_wf(*s),
        1 <= radius,
        fits(*s, radius as int),
        bounded(pos, POS_LIMIT as int),
    ensures
        inside(*s, r, radius as int),
        inside(*s, pos, radius as int) ==> r == pos,
        bounded(r, MAX_COORD as int),
        (match *s {
            Shape::Rectangle { origin, half_width, half_height } => {
                &&& r.x == spec_clamp(
                    pos.x as int,
                    origin.x - (half_width - radius),
                    origin.x + (half_width - radius),
                )
                &&& r.y == spec_clamp(
                    pos.y as int,
                    origin.y - (half_height - radius),
                    origin.y + (half_height - radius),
                )
            },
            Shape::Circle { origin, radius: chamber_radius } => !inside(
                *s,
                pos,
                radius as int,
            ) ==> {
                let l = crate::num::sqrt_ceil(dist2(pos, origin));
                &&& r.x == origin.x + tdiv((pos.x - origin.x) * (chamber_radius - radius), l)
                &&& r.y == origin.y + tdiv((pos.y - origin.y) * (chamber_radius - radius), l)
            },
        }),
{
    match s {
        Shape::Rectangle { origin, half_width, half_height } => {
            let span_x: i64 = *half_width - radius;
            let span_y: i64 = *half_height - radius;
            let nx: i64 = if pos.x < origin.x - span_x {
                origin.x - span_x
            } else if pos.x > origin.x + span_x {
                origin.x + span_x
            } else {
                pos.x
            };
            let ny: i64 = if pos.y < origin.y - span_y {
                origin.y - span_y
            } else if pos.y > origin.y + span_y {
                origin.y + span_y
            } else {
                pos.y
            };
            Vec2i { x: nx, y: ny }
        },
        Shape::Circle { origin, radius: chamber_radius } => {
            let k: i64 = *chamber_radius - radius;
            let offx: i128 = pos.x as i128 - origin.x as i128;
            let offy: i128 = pos.y as i128 - origin.y as i128;
            proof {
                assert(-(MAX_COORD as int) <= origin.x <= MAX_COORD as int);
                assert(-(MAX_COORD as int) <= origin.y <= MAX_COORD as int);
                assert(-2_000_000_000_000_000 <= offx <= 2_000_000_000_000_000);
                assert(-2_000_000_000_000_000 <= offy <= 2_000_000_000_000_000);
                assert(0 <= offx * offx <= 4_000_000_000_000_000_000_000_000_000_000)
                    by (nonlinear_arith)
                    requires -2_000_000_000_000_000 <= offx <= 2_000_000_000_000_000;
                assert(0 <= offy * offy <= 4_000_000_000_000_000_000_000_000_000_000)
                    by (nonlinear_arith)
                    requires -2_000_000_000_000_000 <= offy <= 2_000_000_000_000_000;
            }
            let l2: i128 = offx * offx + offy * offy;
            proof {
                assert(0 <= k <= MAX_COORD);
                assert((k as int) * (k as int) <= 10_000_000_000_000_000) by (nonlinear_arith)
                    requires 0 <= k <= 100_000_000;
                assert(-1_000_000_000_000_000_000_000_000 <= offx * (k as int)
                    <= 1_000_000_000_000_000_000_000_000) by (nonlinear_arith)
                    requires
                        -2_000_000_000_000_000 <= offx <= 2_000_000_000_000_000,
                        0 <= k <= 100_000_000,
                ;
                assert(-1_000_000_000_000_000_000_000_000 <= offy * (k as int)
                    <= 1_000_000_000_000_000_000_000_000) by (nonlinear_arith)
                    requires
                        -2_000_000_000_000_000 <= offy <= 2_000_000_000_000_000,
                        0 <= k <= 100_000_000,
                ;
            }
            if l2 <= (k as i128) * (k as i128) {
                proof {
                    lemma_inside_bounded(*s, pos, radius as int);
                }
                pos
            } else {
                let lu_u: u128 = isqrt_ceil(l2 as u128);
                proof {
                    assert((k as i128) * (k as i128) >= 0) by (nonlinear_arith);
                    if lu_u == 0 {
                        assert(l2 <= 0);
                    }
                }
                let lu: i128 = lu_u as i128;
                proof {
                    crate::num::lemma_sqrt_ceil_is(l2 as int, lu as int);
                }
                let tx: i128 = tdiv_i128(offx * (k as i128), lu);
                let ty: i128 = tdiv_i128(offy * (k as i128), lu);
                proof {
                    crate::num::lemma_scaled_component(offx as int, k as int, lu as int, l2 as int);
                    crate::num::lemma_scaled_component(offy as int, k as int, lu as int, l2 as int);
                    crate::num::lemma_scaled_len(
                        offx as int,
                        offy as int,
                        k as int,
                        lu as int,
                        tx as int,
                        ty as int,
                    );
                }
                proof {
                    assert(iabs(tx as int) <= k);
                    assert(iabs(ty as int) <= k);
                }
                let nx: i64 = origin.x + (tx as i64);
                let ny: i64 = origin.y + (ty as i64);
                Vec2i { x: nx, y: ny }
            }
        },
    }
}

impl Chamber {
    /// Write new temperature and pressure, clamped to the unit range, as the
    /// external lever interface does every time it moves.
    pub fn set_conditions(&mut self, temperature: u32, pressure: u32)
        ensures
            final(self).temperature == spec_clamp(temperature as int, 0, PERMILLE as int),
            final(self).pressure == spec_clamp(pressure as int, 0, PERMILLE as int),
            final(self).id == old(self).id,
            final(self).shape == old(self).shape,
            final(self).is_input == old(self).is_input,
            final(self).is_product == old(self).is_product,
    {
        self.temperature = if temperature > PERMILLE {
            PERMILLE
        } else {
            temperature
        };
        self.pressure = if pressure > PERMILLE {
            PERMILLE
        } else {
            pressure
        };
    }
}

} // verus!
