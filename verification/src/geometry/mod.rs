//! Tiling notation and lattices.

pub mod antwerp;
pub mod lattice;
pub mod notation;
pub mod poly2;
pub mod round_trip;
pub mod separated;

pub use antwerp::Configuration;
