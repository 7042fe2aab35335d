//! Numeric helpers.

pub mod characters;
pub mod decimal;
pub mod estimation;
pub mod primes;

pub use estimation::lerp;
