//! Two-dimensional fixed-point vectors.

use vstd::prelude::*;

verus! {

/// A 2D vector with fixed-point integer components: positions in world
/// units, velocities in units per second.
#[derive(Clone, Copy, Debug, PartialEq, Eq, Structural)]
pub struct Vec2i {
    pub x: i64,
    pub y: i64,
}

/// Dot product, as a mathematical integer.
pub open spec fn dot(a: Vec2i, b: Vec2i) -> int {
    a.x * b.x + a.y * b.y
}

/// Squared Euclidean length, as a mathematical integer.
pub open spec fn len2(a: Vec2i) -> int {
    a.x * a.x + a.y * a.y
}

/// Both components lie within `[-m, m]`.
pub open spec fn bounded(a: Vec2i, m: int) -> bool {
    -m <= a.x <= m && -m <= a.y <= m
}

/// Squared distance between two points, as a mathematical integer.
pub open spec fn dist2(a: Vec2i, b: Vec2i) -> int {
    (a.x - b.x) * (a.x - b.x) + (a.y - b.y) * (a.y - b.y)
}

impl Vec2i {
    pub fn new(x: i64, y: i64) -> (r: Vec2i)
        ensures
            r.x == x,
            r.y == y,
    {
        Vec2i { x, y }
    }

    /// The zero vector.
    pub fn zero() -> (r: Vec2i)
        ensures
            r.x == 0,
            r.y == 0,
    {
        Vec2i { x: 0, y: 0 }
    }
}

/// Rescale a direction vector to the given length, rounding toward zero; a
/// zero direction falls back to the positive-y unit direction. The result
/// never exceeds the target length.
pub fn scale_to_length(dir: Vec2i, target: i64) -> (r: Vec2i)
    requires
        bounded(dir, crate::num::SPEED_LIMIT as int),
        0 <= target <= crate::num::SPEED_LIMIT,
    ensures
        len2(r) <= target * target,
        bounded(r, target as int),
        dir.x == 0 && dir.y == 0 ==> r == (Vec2i { x: 0, y: target }),
        !(dir.x == 0 && dir.y == 0) ==> {
            let l = crate::num::sqrt_ceil(len2(dir));
            r.x == crate::num::tdiv(dir.x * target, l) && r.y == crate::num::tdiv(
                dir.y * target,
                l,
            )
        },
{
    if dir.x == 0 && dir.y == 0 {
        proof {
            assert((target as int) * (target as int) >= 0) by (nonlinear_arith);
        }
        return Vec2i { x: 0, y: target };
    }
    proof {
        assert(0 <= (dir.x as int) * (dir.x as int) <= 1_000_000_000_000_000_000_000_000)
            by (nonlinear_arith)
            requires -1_000_000_000_000 <= dir.x as int <= 1_000_000_000_000;
        assert(0 <= (dir.y as int) * (dir.y as int) <= 1_000_000_000_000_000_000_000_000)
            by (nonlinear_arith)
            requires -1_000_000_000_000 <= dir.y as int <= 1_000_000_000_000;
    }
    let l2: i128 = (dir.x as i128) * (dir.x as i128) + (dir.y as i128) * (dir.y as i128);
    let lu_u: u128 = crate::num::isqrt_ceil(l2 as u128);
    proof {
        if lu_u == 0 {
            assert(l2 <= 0);
            assert((dir.x as int) * (dir.x as int) > 0 || (dir.y as int) * (dir.y as int) > 0)
                by (nonlinear_arith)
                requires !(dir.x == 0 && dir.y == 0);
        }
        crate::num::lemma_sqrt_ceil_is(l2 as int, lu_u as int);
    }
    let lu: i128 = lu_u as i128;
    proof {
        assert(-2_000_000_000_000_000_000_000_000 <= (dir.x as int) * (target as int)
            <= 2_000_000_000_000_000_000_000_000) by (nonlinear_arith)
            requires
                -1_000_000_000_000 <= dir.x as int <= 1_000_000_000_000,
                0 <= target as int <= 1_000_000_000_000,
        ;
        assert(-2_000_000_000_000_000_000_000_000 <= (dir.y as int) * (target as int)
            <= 2_000_000_000_000_000_000_000_000) by (nonlinear_arith)
            requires
                -1_000_000_000_000 <= dir.y as int <= 1_000_000_000_000,
                0 <= target as int <= 1_000_000_000_000,
        ;
    }
    let tx: i128 = crate::num::tdiv_i128((dir.x as i128) * (target as i128), lu);
    let ty: i128 = crate::num::tdiv_i128((dir.y as i128) * (target as i128), lu);
    proof {
        crate::num::lemma_scaled_component(dir.x as int, target as int, lu as int, l2 as int);
        crate::num::lemma_scaled_component(dir.y as int, target as int, lu as int, l2 as int);
        crate::num::lemma_scaled_len(
            dir.x as int,
            dir.y as int,
            target as int,
            lu as int,
            tx as int,
            ty as int,
        );
    }
    Vec2i { x: tx as i64, y: ty as i64 }
}

} // verus!
