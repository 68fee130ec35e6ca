//! Operations between cells whose results are cells.

pub mod eq;
