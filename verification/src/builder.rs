//! Builders that put programs together instruction by instruction.

pub mod allocator;
pub mod raw;
pub mod steady;
pub mod tracking;
