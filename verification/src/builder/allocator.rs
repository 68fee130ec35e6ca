//! A builder that hands out the cells of the tape and compiles operations on them.

pub mod array;
pub mod cell;
pub mod cell_bool;
pub mod cell_u8;
pub mod ops;
pub mod semantics;
pub mod session;
