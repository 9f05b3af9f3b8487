//! Randomness for the simulation: a small deterministic bit-stream generator
//! that the engine owns, seeded from the process entropy source, and the
//! derivation of velocity vectors of roughly a given speed from raw bits.
//!
//! Keeping the generator inside the library makes every run reproducible
//! from its seed; only the seed itself comes from the outside world.

use vstd::prelude::*;
use crate::num::{isqrt_floor, lemma_sq_bound, lemma_sq_monotone, SPEED_LIMIT};
use crate::vec2::{Vec2i, len2};

verus! {

/// Relies on rand::random, which draws a value of the requested type from
/// the thread-local generator; nothing can be promised of the result.
pub assume_specification<T>[ rand::random::<T> ]() -> (r: T)
    where
        rand::distributions::Standard: rand::distributions::Distribution<T>,
;

/// A fresh seed from the process entropy source.
pub fn entropy_seed() -> u64 {
    rand::random::<u64>()
}

/// One step of the 13/7/17 xorshift recurrence.
pub open spec fn xorshift_step(x: u64) -> u64 {
    let a = x ^ (x << 13);
    let b = a ^ (a >> 7);
    b ^ (b << 17)
}

/// A deterministic xorshift bit-stream generator. The simulation draws all
/// its random direction choices from one of these, so a run is reproducible
/// from the seed.
#[derive(Clone, Copy, Debug, PartialEq, Eq, Structural)]
pub struct SimRng {
    pub state: u64,
}

impl SimRng {
    /// A generator seeded with the given value; the low bit is forced so the
    /// all-zero fixed point of the shift register is never entered.
    pub fn new(seed: u64) -> (r: SimRng)
        ensures
            r.state != 0,
    {
        proof {
            assert(seed | 1 != 0) by (bit_vector);
        }
        SimRng { state: seed | 1 }
    }

    /// The next 64 raw bits of the stream: one step of the xorshift
    /// recurrence, which also becomes the new state.
    pub fn next_bits(&mut self) -> (r: u64)
        ensures
            r == xorshift_step(old(self).state),
            final(self).state == r,
    {
        let mut x = self.state;
        x = x ^ (x << 13);
        x = x ^ (x >> 7);
        x = x ^ (x << 17);
        self.state = x;
        x
    }
}

/// The abscissa a direction draw picks: the raw bits reduced onto
/// `[-speed, speed]`.
pub open spec fn dir_x_of(bits: u64, speed: int) -> int {
    (bits as int) % (2 * speed + 1) - speed
}

/// The matching ordinate: the rounded-down complement on the circle of the
/// given speed, signed by one further raw bit.
pub open spec fn dir_y_of(bits: u64, speed: int) -> int {
    let dx = dir_x_of(bits, speed);
    let m = crate::num::sqrt_floor(speed * speed - dx * dx);
    if (bits >> 32) & 1 == 1 {
        -m
    } else {
        m
    }
}

/// A velocity vector of magnitude at most `speed` — and, up to the rounding
/// of the square root, of magnitude `speed` — whose direction is derived
/// from the given raw bits.
pub fn dir_from_bits(bits: u64, speed: i64) -> (r: Vec2i)
    requires
        0 <= speed <= SPEED_LIMIT,
    ensures
        len2(r) <= speed * speed,
        speed >= 3 ==> len2(r) > (speed - 2) * (speed - 2),
        -speed <= r.x <= speed,
        -speed <= r.y <= speed,
        speed == 0 ==> r == (Vec2i { x: 0, y: 0 }),
        speed > 0 ==> r.x == dir_x_of(bits, speed as int) && r.y == dir_y_of(bits, speed as int),
{
    if speed == 0 {
        return Vec2i { x: 0, y: 0 };
    }
    let m: u64 = (2 * speed + 1) as u64;
    let t: u64 = bits % m;
    let dx: i64 = (t as i64) - speed;
    proof {
        assert(-speed <= dx < speed + 1);
        lemma_sq_monotone(if dx >= 0 { dx as int } else { -(dx as int) }, speed as int);
        assert((dx as int) * (dx as int) == (if dx >= 0 { dx as int } else { -(dx as int) }) * (
        if dx >= 0 { dx as int } else { -(dx as int) })) by (nonlinear_arith);
        assert(0 <= (speed as int) * (speed as int) <= 1_000_000_000_000_000_000)
            by (nonlinear_arith)
            requires 0 <= speed <= 1_000_000_000;
        assert(0 <= (dx as int) * (dx as int));
    }
    let d2: i64 = speed * speed - dx * dx;
    let dy_mag: u64 = isqrt_floor(d2 as u128) as u64;
    proof {
        lemma_sq_bound(dy_mag as int, speed as int);
        crate::num::lemma_sqrt_floor_is(d2 as int, dy_mag as int);
    }
    let dy: i64 = if (bits >> 32) & 1 == 1 {
        -(dy_mag as i64)
    } else {
        dy_mag as i64
    };
    proof {
        assert((dy as int) * (dy as int) == (dy_mag as int) * (dy_mag as int))
            by (nonlinear_arith)
            requires dy as int == dy_mag as int || dy as int == -(dy_mag as int);
        if speed >= 3 {
            // The floor root loses less than 2 * speed + 1 of the squared
            // magnitude.
            assert(d2 < ((dy_mag + 1) as int) * ((dy_mag + 1) as int));
            assert(((dy_mag + 1) as int) * ((dy_mag + 1) as int) == (dy_mag as int) * (
            dy_mag as int) + 2 * (dy_mag as int) + 1) by (nonlinear_arith);
            assert((speed - 2) * (speed - 2) <= speed * speed - 2 * speed - 1)
                by (nonlinear_arith)
                requires speed >= 3;
        }
    }
    Vec2i { x: dx, y: dy }
}

} // verus!
