//! A bounded-memory sparse set of signed 2D coordinates (a "spatial bitset"),
//! with a Morton (Z-order) codec to place coordinates into per-quadrant bit
//! arrays, a hexagonal neighbour rule, and a cellular-automaton step built on
//! top of them.

use vstd::prelude::*;

pub mod bits;
pub mod bitzet;
pub mod hex;
pub mod life;
pub mod math;
pub mod matrix;
pub mod os;
pub mod zorder;

verus! {

/// Errors reported by the mutating operations of the spatial bitset and by
/// the LED-matrix address translation.
#[derive(Clone, Copy, Debug, PartialEq, Eq, Structural)]
pub enum Error {
    /// A coordinate magnitude is too large for the Morton codec (>= 65536).
    OutOfDomain,
    /// A Morton index falls beyond the configured per-quadrant capacity.
    CapacityExceeded,
    /// A matrix position lies outside the physical panel.
    OutOfBounds,
}

} // verus!
