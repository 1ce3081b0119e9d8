//! An animated firework display: explosions spawn, each made of many
//! fading light-trail sparkles drawn onto an offscreen surface checked
//! out from a fixed-capacity pool, and are reaped when fully faded.
//!
//! All quantities are fixed-point integers: times are in milliseconds,
//! coordinates are in thousandths of a drawing unit, and colour channels
//! and alpha values are in thousandths of full intensity ("permille").
//! The host render loop converts these to whatever its drawing back end
//! expects.
use vstd::prelude::*;

pub mod color;
pub mod explosion;
pub mod manager;
pub mod pool;
pub mod rng;
pub mod sparkle;
pub mod vector2d;

verus! {

/// Failures of spawning an explosion or acquiring a pool slot.
#[derive(Clone, Copy, Debug, PartialEq, Eq, Structural)]
pub enum FireworkError {
    /// The surface pool has no free slot left.
    Exhausted,
    /// The spawn parameters were rejected: zero lifetime, no sparkles,
    /// or a drawing surface too small for the spawn margin.
    InvalidConfiguration,
}

} // verus!
