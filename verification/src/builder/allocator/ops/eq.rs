//! Provides traits for equality comparisons that evaluate to `CellBool`s rather than `bool`s.

use crate::builder::allocator::cell_bool::CellBool;
use crate::builder::allocator::cell_u8::CellU8;
use crate::builder::allocator::session::{AllocatingBuilder, Session};
use crate::builder::raw::sub_code;
use vstd::prelude::*;

verus! {

/// Trait for equality comparisons between two values whose answer is
/// computed when the program runs. The left hand side and right hand side
/// do not need to be of the same type, which is useful for comparing a cell
/// with a value.
pub trait PartialEq<const N: usize, Rhs = Self>: Sized {
    /// What a comparison asks of the builder and of the two sides: that the
    /// cells among them are its own, and that it has the free slots the
    /// comparison works with.
    spec fn comparable(&self, memory: &AllocatingBuilder<N>, other: &Rhs) -> bool;

    /// The session after the comparison; `for_equal` tells `eq` from `ne`.
    spec fn compared(&self, before: Session, other: &Rhs, for_equal: bool) -> Session;

    /// Checks if two values are equal, and outputs a `CellBool` containing the result, which is
    /// determined at runtime.
    fn eq(self, memory: &mut AllocatingBuilder<N>, other: Rhs) -> (answer: CellBool<N>)
        requires
            old(memory).wf(),
            self.comparable(old(memory), &other),
        ensures
            final(memory).wf(),
            final(memory).in_step_with(old(memory)),
            answer.held_by(final(memory)),
            final(memory)@ == self.compared(old(memory)@, &other, true),
    ;

    /// Checks if two values are not equal, and outputs a `CellBool` containing the result, which is
    /// determined at runtime.
    fn ne(self, memory: &mut AllocatingBuilder<N>, other: Rhs) -> (answer: CellBool<N>)
        requires
            old(memory).wf(),
            self.comparable(old(memory), &other),
        ensures
            final(memory).wf(),
            final(memory).in_step_with(old(memory)),
            answer.held_by(final(memory)),
            final(memory)@ == self.compared(old(memory)@, &other, false),
    ;
}

/// Marks a comparison that is an equivalence.
pub trait Eq<const N: usize, Rhs = Self>: PartialEq<N, Rhs> {

}

impl<const N: usize> PartialEq<N, u8> for CellU8<N> {
    open spec fn comparable(&self, memory: &AllocatingBuilder<N>, other: &u8) -> bool {
        self.held_by(memory) && memory@.free() > 0
    }

    open spec fn compared(&self, before: Session, other: &u8, for_equal: bool) -> Session {
        before.at(self.slot(), sub_code(*other)).test(self.slot(), for_equal)
    }

    fn eq(self, memory: &mut AllocatingBuilder<N>, other: u8) -> (answer: CellBool<N>) {
        self.equals_value(memory, other)
    }

    fn ne(self, memory: &mut AllocatingBuilder<N>, other: u8) -> (answer: CellBool<N>) {
        self.differs_value(memory, other)
    }
}

impl<const N: usize> Eq<N, u8> for CellU8<N> {

}

impl<const N: usize> PartialEq<N> for CellU8<N> {
    open spec fn comparable(&self, memory: &AllocatingBuilder<N>, other: &CellU8<N>) -> bool {
        self.held_by(memory) && other.held_by(memory) && self.slot() != other.slot()
            && memory@.free() > 0
    }

    open spec fn compared(&self, before: Session, other: &CellU8<N>, for_equal: bool) -> Session {
        before.sub_cell(self.slot(), other.slot()).test(self.slot(), for_equal)
    }

    fn eq(self, memory: &mut AllocatingBuilder<N>, other: CellU8<N>) -> (answer: CellBool<N>) {
        self.equals(memory, other)
    }

    fn ne(self, memory: &mut AllocatingBuilder<N>, other: CellU8<N>) -> (answer: CellBool<N>) {
        self.differs(memory, other)
    }
}

impl<const N: usize> Eq<N> for CellU8<N> {

}

impl<'a, const N: usize> PartialEq<N, &'a CellU8<N>> for CellU8<N> {
    open spec fn comparable(&self, memory: &AllocatingBuilder<N>, other: &&'a CellU8<N>) -> bool {
        self.held_by(memory) && other.held_by(memory) && memory@.free() > 2
    }

    open spec fn compared(
        &self,
        before: Session,
        other: &&'a CellU8<N>,
        for_equal: bool,
    ) -> Session {
        before.duplicate(self.slot()).sub_ref(before.next_free(), other.slot()).test(
            before.next_free(),
            for_equal,
        ).release(self.slot())
    }

    fn eq(self, memory: &mut AllocatingBuilder<N>, other: &'a CellU8<N>) -> (answer: CellBool<N>) {
        self.equals_ref(memory, other)
    }

    fn ne(self, memory: &mut AllocatingBuilder<N>, other: &'a CellU8<N>) -> (answer: CellBool<N>) {
        self.differs_ref(memory, other)
    }
}

impl<'a, const N: usize> Eq<N, &'a CellU8<N>> for CellU8<N> {

}

impl<'a, const N: usize> PartialEq<N, u8> for &'a CellU8<N> {
    open spec fn comparable(&self, memory: &AllocatingBuilder<N>, other: &u8) -> bool {
        self.held_by(memory) && memory@.free() > 1
    }

    open spec fn compared(&self, before: Session, other: &u8, for_equal: bool) -> Session {
        before.duplicate(self.slot()).at(before.next_free(), sub_code(*other)).test(
            before.next_free(),
            for_equal,
        )
    }

    fn eq(self, memory: &mut AllocatingBuilder<N>, other: u8) -> (answer: CellBool<N>) {
        self.ref_equals_value(memory, other)
    }

    fn ne(self, memory: &mut AllocatingBuilder<N>, other: u8) -> (answer: CellBool<N>) {
        self.ref_differs_value(memory, other)
    }
}

impl<'a, const N: usize> Eq<N, u8> for &'a CellU8<N> {

}

impl<'a, const N: usize> PartialEq<N> for &'a CellU8<N> {
    open spec fn comparable(&self, memory: &AllocatingBuilder<N>, other: &&'a CellU8<N>) -> bool {
        self.held_by(memory) && other.held_by(memory) && memory@.free() > 2
    }

    open spec fn compared(
        &self,
        before: Session,
        other: &&'a CellU8<N>,
        for_equal: bool,
    ) -> Session {
        before.duplicate(self.slot()).sub_ref(before.next_free(), other.slot()).test(
            before.next_free(),
            for_equal,
        )
    }

    fn eq(self, memory: &mut AllocatingBuilder<N>, other: &'a CellU8<N>) -> (answer: CellBool<N>) {
        self.ref_equals_ref(memory, other)
    }

    fn ne(self, memory: &mut AllocatingBuilder<N>, other: &'a CellU8<N>) -> (answer: CellBool<N>) {
        self.ref_differs_ref(memory, other)
    }
}

impl<'a, const N: usize> Eq<N> for &'a CellU8<N> {

}

impl<'a, const N: usize> PartialEq<N, CellU8<N>> for &'a CellU8<N> {
    open spec fn comparable(&self, memory: &AllocatingBuilder<N>, other: &CellU8<N>) -> bool {
        self.held_by(memory) && other.held_by(memory) && memory@.free() > 1
    }

    open spec fn compared(&self, before: Session, other: &CellU8<N>, for_equal: bool) -> Session {
        before.sub_ref(other.slot(), self.slot()).test(other.slot(), for_equal)
    }

    fn eq(self, memory: &mut AllocatingBuilder<N>, other: CellU8<N>) -> (answer: CellBool<N>) {
        self.ref_equals(memory, other)
    }

    fn ne(self, memory: &mut AllocatingBuilder<N>, other: CellU8<N>) -> (answer: CellBool<N>) {
        self.ref_differs(memory, other)
    }
}

impl<'a, const N: usize> Eq<N, CellU8<N>> for &'a CellU8<N> {

}

} // verus!
