//! Hardware-conscious data structures and batch routines.

pub mod hardware_optimizations;
pub mod simd;
