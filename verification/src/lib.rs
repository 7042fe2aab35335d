//! Planar tilings: a notation for tiling configurations with its parser and
//! printer, the combinatorial part of lattice generation, and the number helpers
//! they use.

pub mod geometry;
pub mod math;
pub mod numerics;
