//! Simulation core of a 2D particle "chemistry" sandbox: enclosed reactor
//! chambers in which circular molecules move, bounce off walls and each other,
//! react according to a combination table gated by per-chamber temperature and
//! pressure, decay on timers, and travel between chambers through filtered
//! connection ports.
//!
//! All quantities are fixed-point integers: lengths in world units, velocities
//! in units per second, time in milliseconds, temperature and pressure in
//! permille of full scale.

pub mod chamber;
pub mod collision;
pub mod config;
pub mod decay;
pub mod engine;
pub mod motion;
pub mod num;
pub mod particle;
pub mod rng;
pub mod transport;
pub mod vec2;
