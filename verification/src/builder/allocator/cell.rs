//! Defines a trait from which arbitrary cells can be constructed.

use super::cell_bool::{bool_byte, CellBool};
use super::session::AllocatingBuilder;
use vstd::prelude::*;

verus! {

/// A trait that allows arbitrary values to be converted into cells.
pub trait IntoCell<const N: usize>: Sized {
    /// The output cell type, e.g. `CellBool` for a `bool`.
    type Output;

    /// Converts the value into a cell given an allocator.
    ///
    /// Takes one slot from `memory` and leaves the others as they are.
    fn into_cell(self, memory: &mut AllocatingBuilder<N>) -> (cell: Self::Output)
        requires
            old(memory).wf(),
            old(memory)@.free() > 0,
        ensures
            final(memory).wf(),
            final(memory).in_step_with(old(memory)),
            final(memory)@.free() == old(memory)@.free() - 1,
            final(memory)@.occupied == old(memory)@.occupied.update(
                old(memory)@.next_free() as int,
                true,
            ),
    ;
}

impl<const N: usize> IntoCell<N> for bool {
    type Output = CellBool<N>;

    /// Allocates a boolean cell and sets it to the value.
    fn into_cell(self, memory: &mut AllocatingBuilder<N>) -> (cell: CellBool<N>)
        ensures
            cell.slot() == old(memory)@.next_free(),
            cell.held_by(final(memory)),
            final(memory)@ == old(memory)@.fresh_value(bool_byte(self)),
    {
        memory.bool(self)
    }
}

} // verus!
