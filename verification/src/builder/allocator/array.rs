//! Defines a cell that contains an array of cells.

use super::cell::IntoCell;
use vstd::prelude::*;

verus! {

/// An array of values that can be made into cells of one builder.
pub struct CellArray<const N: usize, const U: usize, T: IntoCell<N>> {
    data: [T; U],
}

} // verus!
