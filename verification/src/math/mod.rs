//! Algebra.

pub mod polynomial;
