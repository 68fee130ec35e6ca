//! A cell that holds a boolean value when the program runs.

use super::cell_u8::CellU8;
use super::session::{AllocatingBuilder, Session};
use crate::builder::tracking::{set_code, zero_code};
use vstd::prelude::*;

verus! {

/// The byte that stands for a boolean: 1 for true, 0 for false.
pub open spec fn bool_byte(value: bool) -> u8 {
    if value {
        1
    } else {
        0
    }
}

impl Session {
    /// The session after the boolean at `target` was negated: a copy of it is
    /// subtracted from one.
    pub open spec fn negate(self, target: nat) -> Session {
        self.duplicate(target).at(target, set_code(1)).sub_cell(target, self.next_free())
    }

    /// The session after `target` became `target` or `other`, and `other` was
    /// given back: `target` is added into `other`, and where that is not
    /// zero `target` is set to one.
    pub open spec fn or_cell(self, target: nat, other: nat) -> Session {
        self.drain(other, target, seq!['+']).at(other, seq!['[']).at(target, seq!['+']).at(
            other,
            zero_code(),
        ).at(other, seq![']']).release(other)
    }

    /// The session after `target` became `target` or a copy of `other`.
    pub open spec fn or_ref(self, target: nat, other: nat) -> Session {
        self.duplicate(other).or_cell(target, self.next_free())
    }

    /// The session after `target` became `target` or `value`.
    pub open spec fn or_value(self, target: nat, value: bool) -> Session {
        if value {
            self.at(target, set_code(1))
        } else {
            self
        }
    }

    /// The session after `target` became `target` and `other`, and `other`
    /// was given back: `other` is decremented, and where that is not zero
    /// `target` is cleared.
    pub open spec fn and_cell(self, target: nat, other: nat) -> Session {
        self.at(other, seq!['-']).at(other, seq!['[']).at(other, seq!['+']).at(
            target,
            set_code(0),
        ).at(other, seq![']']).release(other)
    }

    /// The session after `target` became `target` and a copy of `other`.
    pub open spec fn and_ref(self, target: nat, other: nat) -> Session {
        self.duplicate(other).and_cell(target, self.next_free())
    }

    /// The session after `target` became `target` and `value`.
    pub open spec fn and_value(self, target: nat, value: bool) -> Session {
        if value {
            self
        } else {
            self.at(target, set_code(0))
        }
    }

    /// The session after `target` became `target` xor `other`, and `other`
    /// was given back: where `other` is true, `target` is negated.
    pub open spec fn xor_cell(self, target: nat, other: nat) -> Session {
        self.at(other, seq!['[']).negate(target).at(other, zero_code()).at(
            other,
            seq![']'],
        ).release(other)
    }

    /// The session after `target` became `target` xor a copy of `other`.
    pub open spec fn xor_ref(self, target: nat, other: nat) -> Session {
        self.duplicate(other).xor_cell(target, self.next_free())
    }

    /// The session after `target` became `target` xor `value`.
    pub open spec fn xor_value(self, target: nat, value: bool) -> Session {
        if value {
            self.negate(target)
        } else {
            self
        }
    }
}

/// A cell containing a boolean value: its slot holds zero or one whenever
/// one of its operations begins or has ended.
#[derive(Debug)]
pub struct CellBool<const N: usize>(CellU8<N>);

impl<const N: usize> AllocatingBuilder<N> {
    /// Allocates an uninitialized `bool` value. Its value is not guaranteed to be false, or even to
    /// be a valid boolean.
    pub fn bool_uninit(&mut self) -> (cell: CellBool<N>)
        requires
            old(self).wf(),
            old(self)@.free() > 0,
        ensures
            final(self).wf(),
            final(self).in_step_with(old(self)),
            cell.slot() == old(self)@.next_free(),
            !old(self)@.occupied[cell.slot() as int],
            cell.held_by(final(self)),
            final(self)@ == old(self)@.take(cell.slot()),
            final(self)@.free() == old(self)@.free() - 1,
    {
        CellBool(self.u8_uninit())
    }

    /// Allocates a `bool` and gives it a defined value.
    pub fn bool(&mut self, value: bool) -> (cell: CellBool<N>)
        requires
            old(self).wf(),
            old(self)@.free() > 0,
        ensures
            final(self).wf(),
            final(self).in_step_with(old(self)),
            cell.slot() == old(self)@.next_free(),
            !old(self)@.occupied[cell.slot() as int],
            cell.held_by(final(self)),
            final(self)@ == old(self)@.fresh_value(bool_byte(value)),
            final(self)@.free() == old(self)@.free() - 1,
    {
        let mut cell = self.bool_uninit();
        cell.set(self, value);
        cell
    }
}

impl<const N: usize> CellBool<N> {
    /// The slot of the tape that the cell stands for.
    pub closed spec fn slot(&self) -> nat {
        self.0.slot()
    }

    /// The cell's slot is one of `memory`, and is marked as taken there.
    pub open spec fn held_by(&self, memory: &AllocatingBuilder<N>) -> bool {
        self.slot() < N && memory@.occupied.len() == N && memory@.occupied[self.slot() as int]
    }

    /// The slot of the tape that the cell stands for.
    pub fn location(&self) -> (location: usize)
        ensures
            location == self.slot(),
    {
        self.0.location()
    }

    /// Takes a byte cell for a boolean one. Whoever calls this sees to it
    /// that the cell holds zero or one when the program runs.
    pub fn from_u8(cell: CellU8<N>) -> (flag: Self)
        ensures
            flag.slot() == cell.slot(),
    {
        CellBool(cell)
    }

    /// Gives the byte cell that holds the boolean.
    pub fn into_u8(self) -> (cell: CellU8<N>)
        ensures
            cell.slot() == self.slot(),
    {
        self.0
    }

    /// Hands the cell's slot back to `memory`.
    pub fn release(self, memory: &mut AllocatingBuilder<N>)
        requires
            old(memory).wf(),
            self.held_by(old(memory)),
        ensures
            final(memory).wf(),
            final(memory).in_step_with(old(memory)),
            final(memory)@ == old(memory)@.release(self.slot()),
            final(memory)@.occupied == old(memory)@.occupied.update(self.slot() as int, false),
            final(memory)@.free() == old(memory)@.free() + 1,
    {
        self.0.release(memory);
    }

    /// Sets the value of this cell.
    pub fn set(&mut self, memory: &mut AllocatingBuilder<N>, value: bool)
        requires
            old(memory).wf(),
            old(self).held_by(old(memory)),
        ensures
            final(memory).wf(),
            final(memory).in_step_with(old(memory)),
            final(self).slot() == old(self).slot(),
            final(memory)@ == old(memory)@.at(old(self).slot(), set_code(bool_byte(value))),
    {
        self.0.set(memory, if value { 1 } else { 0 });
    }
    /// Executes code while this cell is true.
    ///
    /// The text grows by the way to this cell and an opening bracket, what
    /// `f` adds, and the way back to this cell and a closing bracket. Where
    /// `memory` was sound and `f` leaves it sound, with the anchors it
    /// found, `memory` is sound again.
    pub fn while_true<F: FnOnce(&mut AllocatingBuilder<N>, &Self)>(
        &self,
        memory: &mut AllocatingBuilder<N>,
        f: F,
    )
        requires
            old(memory).wf(),
            self.held_by(old(memory)),
            forall|b: &mut AllocatingBuilder<N>|
                b.opened_at(old(memory), self.slot()) ==> #[trigger] call_requires(f, (b, self)),
            forall|b: &mut AllocatingBuilder<N>|
                b.opened_at(old(memory), self.slot()) && #[trigger] call_ensures(f, (b, self), ())
                    ==> final(b).wf(),
        ensures
            final(memory).wf(),
            exists|b: &mut AllocatingBuilder<N>|
                b.opened_at(old(memory), self.slot())
                    && #[trigger] call_ensures(f, (b, self), ())
                    && final(memory)@ == final(b)@.at(self.slot(), seq![']'])
                    && (final(b).in_step_with(b) ==> final(memory).in_step_with(old(memory))),
    {
        let location = self.location();
        memory.goto(location);
        memory.open_loop();
        assert(memory.opened_at(old(memory), self.slot()));
        f(memory, self);
        memory.goto(location);
        memory.close_loop();
        proof {
            let found = old(memory).anchors();
            assert(found.push(location as int).drop_last() =~= found);
        }
    }

    /// Executes code while this cell is true; `f` gets the cell to work on.
    ///
    /// The text grows by the way to this cell and an opening bracket, what
    /// `f` adds, and the way back to this cell and a closing bracket. Where
    /// `memory` was sound and `f` leaves it sound, with the anchors it
    /// found, `memory` is sound again.
    pub fn while_true_mut<F: FnOnce(&mut AllocatingBuilder<N>, &mut Self)>(
        &mut self,
        memory: &mut AllocatingBuilder<N>,
        f: F,
    )
        requires
            old(memory).wf(),
            old(self).held_by(old(memory)),
            forall|b: &mut AllocatingBuilder<N>, c: &mut Self|
                b.opened_at(old(memory), old(self).slot()) && c.slot() == old(self).slot()
                    ==> #[trigger] call_requires(f, (b, c)),
            forall|b: &mut AllocatingBuilder<N>, c: &mut Self|
                b.opened_at(old(memory), old(self).slot()) && c.slot() == old(self).slot()
                    && #[trigger] call_ensures(f, (b, c), ()) ==> final(b).wf()
                    && final(c).slot() == c.slot(),
        ensures
            final(memory).wf(),
            final(self).slot() == old(self).slot(),
            exists|b: &mut AllocatingBuilder<N>, c: &mut Self|
                b.opened_at(old(memory), old(self).slot()) && c.slot() == old(self).slot()
                    && #[trigger] call_ensures(f, (b, c), ())
                    && final(memory)@ == final(b)@.at(old(self).slot(), seq![']'])
                    && (final(b).in_step_with(b) ==> final(memory).in_step_with(old(memory))),
    {
        let location = self.location();
        memory.goto(location);
        memory.open_loop();
        assert(memory.opened_at(old(memory), self.slot()));
        f(memory, self);
        memory.goto(location);
        memory.close_loop();
        proof {
            let found = old(memory).anchors();
            assert(found.push(location as int).drop_last() =~= found);
        }
    }

    /// Executes code if this cell is true. The cell is cleared where the
    /// code ran, and given back.
    ///
    /// `f` has to leave the cell's slot taken. Where `memory` was sound and
    /// `f` leaves it sound, with the anchors it found, `memory` is sound
    /// again.
    pub fn if_true<F: FnOnce(&mut AllocatingBuilder<N>)>(
        self,
        memory: &mut AllocatingBuilder<N>,
        f: F,
    )
        requires
            old(memory).wf(),
            self.held_by(old(memory)),
            forall|b: &mut AllocatingBuilder<N>|
                b.opened_at(old(memory), self.slot()) ==> #[trigger] call_requires(f, (b,)),
            forall|b: &mut AllocatingBuilder<N>|
                b.opened_at(old(memory), self.slot()) && #[trigger] call_ensures(f, (b,), ())
                    ==> final(b).wf() && self.held_by(final(b)),
        ensures
            final(memory).wf(),
            exists|b: &mut AllocatingBuilder<N>|
                b.opened_at(old(memory), self.slot()) && #[trigger] call_ensures(f, (b,), ())
                    && final(memory)@ == final(b)@.at(self.slot(), zero_code()).at(
                    self.slot(),
                    seq![']'],
                ).release(self.slot()) && (final(b).in_step_with(b)
                    ==> final(memory).in_step_with(old(memory))),
    {
        let mut this = self;
        let location = this.location();
        memory.goto(location);
        memory.open_loop();
        assert(memory.opened_at(old(memory), self.slot()));
        f(memory);
        this.0.zero(memory);
        memory.goto(location);
        memory.close_loop();
        this.release(memory);
        proof {
            let found = old(memory).anchors();
            assert(found.push(location as int).drop_last() =~= found);
        }
    }

    /// Negates the value contained in this cell.
    ///
    /// Needs two free slots while it works.
    pub fn negate(&mut self, memory: &mut AllocatingBuilder<N>)
        requires
            old(memory).wf(),
            old(self).held_by(old(memory)),
            old(memory)@.free() > 1,
        ensures
            final(memory).wf(),
            final(memory).in_step_with(old(memory)),
            final(self).slot() == old(self).slot(),
            final(memory)@ == old(memory)@.negate(old(self).slot()),
            final(memory)@.occupied == old(memory)@.occupied,
    {
        let temp = self.0.clone(memory);
        self.0.set(memory, 1);
        self.0.sub_assign(memory, temp);
        proof {
            assert(memory@.occupied =~= old(memory)@.occupied);
        }
    }

    /// Moves the value of this cell into another cell, leaving a `false` behind in this cell.
    pub fn move_into(&mut self, memory: &mut AllocatingBuilder<N>, other: &mut CellBool<N>)
        requires
            old(memory).wf(),
            old(self).held_by(old(memory)),
            old(other).held_by(old(memory)),
        ensures
            final(memory).wf(),
            final(memory).in_step_with(old(memory)),
            final(self).slot() == old(self).slot(),
            final(other).slot() == old(other).slot(),
            final(memory)@ == old(memory)@.fan_out(old(self).slot(), seq![old(other).slot()]),
            final(memory)@.occupied == old(memory)@.occupied,
    {
        self.0.move_into(memory, &mut other.0);
    }

    /// Moves the value of another cell into this cell, leaving a `false` behind in the other cell.
    pub fn move_from(&mut self, memory: &mut AllocatingBuilder<N>, other: &mut CellBool<N>)
        requires
            old(memory).wf(),
            old(self).held_by(old(memory)),
            old(other).held_by(old(memory)),
        ensures
            final(memory).wf(),
            final(memory).in_step_with(old(memory)),
            final(self).slot() == old(self).slot(),
            final(other).slot() == old(other).slot(),
            final(memory)@ == old(memory)@.fan_out(old(other).slot(), seq![old(self).slot()]),
            final(memory)@.occupied == old(memory)@.occupied,
    {
        self.0.move_from(memory, &mut other.0);
    }

    /// Copies the value of this cell into another cell.
    ///
    /// Needs one free slot while it works.
    pub fn copy_into(&self, memory: &mut AllocatingBuilder<N>, other: &mut CellBool<N>)
        requires
            old(memory).wf(),
            self.held_by(old(memory)),
            old(other).held_by(old(memory)),
            old(memory)@.free() > 0,
        ensures
            final(memory).wf(),
            final(memory).in_step_with(old(memory)),
            final(other).slot() == old(other).slot(),
            final(memory)@ == old(memory)@.copy(self.slot(), old(other).slot()),
            final(memory)@.occupied == old(memory)@.occupied,
    {
        self.0.copy_into(memory, &mut other.0);
    }

    /// Copies the value of another cell into this cell.
    ///
    /// Needs one free slot while it works.
    pub fn copy_from(&mut self, memory: &mut AllocatingBuilder<N>, other: &CellBool<N>)
        requires
            old(memory).wf(),
            old(self).held_by(old(memory)),
            other.held_by(old(memory)),
            old(memory)@.free() > 0,
        ensures
            final(memory).wf(),
            final(memory).in_step_with(old(memory)),
            final(self).slot() == old(self).slot(),
            final(memory)@ == old(memory)@.copy(other.slot(), old(self).slot()),
            final(memory)@.occupied == old(memory)@.occupied,
    {
        self.0.copy_from(memory, &other.0);
    }

    /// Allocates a new cell and copies the value of this cell into it.
    ///
    /// Needs two free slots: one for the new cell and one while it works.
    pub fn clone(&self, memory: &mut AllocatingBuilder<N>) -> (fresh: CellBool<N>)
        requires
            old(memory).wf(),
            self.held_by(old(memory)),
            old(memory)@.free() > 1,
        ensures
            final(memory).wf(),
            final(memory).in_step_with(old(memory)),
            fresh.slot() == old(memory)@.next_free(),
            fresh.held_by(final(memory)),
            final(memory)@.occupied == old(memory)@.occupied.update(fresh.slot() as int, true),
            final(memory)@.free() == old(memory)@.free() - 1,
            !old(memory)@.occupied[fresh.slot() as int],
            final(memory)@ == old(memory)@.duplicate(self.slot()),
    {
        let mut output = memory.bool_uninit();
        self.copy_into(memory, &mut output);
        output
    }

    /// Copies the value of `source` into this cell.
    ///
    /// Needs one free slot while it works.
    pub fn clone_from(&mut self, memory: &mut AllocatingBuilder<N>, source: &CellBool<N>)
        requires
            old(memory).wf(),
            old(self).held_by(old(memory)),
            source.held_by(old(memory)),
            old(memory)@.free() > 0,
        ensures
            final(memory).wf(),
            final(memory).in_step_with(old(memory)),
            final(self).slot() == old(self).slot(),
            final(memory)@ == old(memory)@.copy(source.slot(), old(self).slot()),
            final(memory)@.occupied == old(memory)@.occupied,
    {
        source.copy_into(memory, self);
    }

    /// This cell, negated.
    ///
    /// Needs two free slots while it works.
    pub fn not(self, memory: &mut AllocatingBuilder<N>) -> (fresh: CellBool<N>)
        requires
            old(memory).wf(),
            self.held_by(old(memory)),
            old(memory)@.free() > 1,
        ensures
            final(memory).wf(),
            final(memory).in_step_with(old(memory)),
            fresh.slot() == self.slot(),
            final(memory)@ == old(memory)@.negate(self.slot()),
            final(memory)@.occupied == old(memory)@.occupied,
    {
        let mut this = self;
        this.negate(memory);
        this
    }

    /// A fresh cell that holds the negation of this cell: one minus its value.
    ///
    /// Needs three free slots while it works.
    pub fn ref_not(&self, memory: &mut AllocatingBuilder<N>) -> (fresh: CellBool<N>)
        requires
            old(memory).wf(),
            self.held_by(old(memory)),
            old(memory)@.free() > 2,
        ensures
            final(memory).wf(),
            final(memory).in_step_with(old(memory)),
            fresh.slot() == old(memory)@.next_free(),
            fresh.held_by(final(memory)),
            final(memory)@.occupied == old(memory)@.occupied.update(fresh.slot() as int, true),
            final(memory)@.free() == old(memory)@.free() - 1,
            final(memory)@ == old(memory)@.fresh_value(1)
                .sub_ref(old(memory)@.next_free(), self.slot()),
    {
        let mut temp = memory.bool(true);
        temp.0.sub_assign_ref(memory, &self.0);
        temp
    }

    /// Makes this cell `self | rhs`; `rhs` is given back.
    pub fn bitor_assign(&mut self, memory: &mut AllocatingBuilder<N>, rhs: CellBool<N>)
        requires
            old(memory).wf(),
            old(self).held_by(old(memory)),
            rhs.held_by(old(memory)),
            old(self).slot() != rhs.slot(),
        ensures
            final(memory).wf(),
            final(memory).in_step_with(old(memory)),
            final(self).slot() == old(self).slot(),
            final(memory)@ == old(memory)@.or_cell(old(self).slot(), rhs.slot()),
            final(memory)@.occupied == old(memory)@.occupied.update(rhs.slot() as int, false),
            final(memory)@.free() == old(memory)@.free() + 1,
    {
        let mut rhs = rhs;
        rhs.0.add_and_zero(memory, &mut self.0);
        let location = rhs.location();
        memory.goto(location);
        memory.open_loop();
        self.0.inc(memory);
        rhs.0.zero(memory);
        memory.goto(location);
        memory.close_loop();
        proof {
            let found = old(memory).anchors();
            assert(found.push(location as int).drop_last() =~= found);
        }
        rhs.release(memory);
    }

    /// Makes this cell `self & rhs`; `rhs` is given back.
    pub fn bitand_assign(&mut self, memory: &mut AllocatingBuilder<N>, rhs: CellBool<N>)
        requires
            old(memory).wf(),
            old(self).held_by(old(memory)),
            rhs.held_by(old(memory)),
            old(self).slot() != rhs.slot(),
        ensures
            final(memory).wf(),
            final(memory).in_step_with(old(memory)),
            final(self).slot() == old(self).slot(),
            final(memory)@ == old(memory)@.and_cell(old(self).slot(), rhs.slot()),
            final(memory)@.occupied == old(memory)@.occupied.update(rhs.slot() as int, false),
            final(memory)@.free() == old(memory)@.free() + 1,
    {
        let mut rhs = rhs.into_u8();
        rhs.dec(memory);
        let location = rhs.location();
        memory.goto(location);
        memory.open_loop();
        rhs.inc(memory);
        self.set(memory, false);
        memory.goto(location);
        memory.close_loop();
        proof {
            let found = old(memory).anchors();
            assert(found.push(location as int).drop_last() =~= found);
        }
        rhs.release(memory);
    }

    /// Makes this cell `self ^ rhs`; `rhs` is given back.
    ///
    /// Needs two free slots while it works.
    pub fn bitxor_assign(&mut self, memory: &mut AllocatingBuilder<N>, rhs: CellBool<N>)
        requires
            old(memory).wf(),
            old(self).held_by(old(memory)),
            rhs.held_by(old(memory)),
            old(self).slot() != rhs.slot(),
            old(memory)@.free() > 1,
        ensures
            final(memory).wf(),
            final(memory).in_step_with(old(memory)),
            final(self).slot() == old(self).slot(),
            final(memory)@ == old(memory)@.xor_cell(old(self).slot(), rhs.slot()),
            final(memory)@.occupied == old(memory)@.occupied.update(rhs.slot() as int, false),
            final(memory)@.free() == old(memory)@.free() + 1,
    {
        let mut rhs = rhs;
        let location = rhs.location();
        memory.goto(location);
        memory.open_loop();
        self.negate(memory);
        rhs.0.zero(memory);
        memory.goto(location);
        memory.close_loop();
        proof {
            let found = old(memory).anchors();
            assert(found.push(location as int).drop_last() =~= found);
        }
        rhs.release(memory);
    }

    /// Makes this cell `self | rhs`; `rhs` keeps its value.
    ///
    /// Needs two free slots while it works.
    pub fn bitor_assign_ref(&mut self, memory: &mut AllocatingBuilder<N>, rhs: &CellBool<N>)
        requires
            old(memory).wf(),
            old(self).held_by(old(memory)),
            rhs.held_by(old(memory)),
            old(memory)@.free() > 1,
        ensures
            final(memory).wf(),
            final(memory).in_step_with(old(memory)),
            final(self).slot() == old(self).slot(),
            final(memory)@ == old(memory)@.or_ref(old(self).slot(), rhs.slot()),
            final(memory)@.occupied == old(memory)@.occupied,
    {
        let temp = rhs.clone(memory);
        self.bitor_assign(memory, temp);
        proof {
            assert(memory@.occupied =~= old(memory)@.occupied);
        }
    }

    /// Makes this cell `self | rhs`.
    pub fn bitor_assign_value(&mut self, memory: &mut AllocatingBuilder<N>, rhs: bool)
        requires
            old(memory).wf(),
            old(self).held_by(old(memory)),
        ensures
            final(memory).wf(),
            final(memory).in_step_with(old(memory)),
            final(self).slot() == old(self).slot(),
            final(memory)@ == old(memory)@.or_value(old(self).slot(), rhs),
            final(memory)@.occupied == old(memory)@.occupied,
    {
        if rhs {
            self.set(memory, true);
        }
    }

    /// A fresh cell that holds `self | rhs`; both keep their values.
    ///
    /// Needs three free slots while it works.
    pub fn ref_bitor_ref(
        &self,
        memory: &mut AllocatingBuilder<N>,
        rhs: &CellBool<N>,
    ) -> (fresh: CellBool<N>)
        requires
            old(memory).wf(),
            self.held_by(old(memory)),
            rhs.held_by(old(memory)),
            old(memory)@.free() > 2,
        ensures
            final(memory).wf(),
            final(memory).in_step_with(old(memory)),
            fresh.slot() == old(memory)@.next_free(),
            fresh.held_by(final(memory)),
            final(memory)@.occupied == old(memory)@.occupied.update(fresh.slot() as int, true),
            final(memory)@.free() == old(memory)@.free() - 1,
            final(memory)@ == old(memory)@.duplicate(self.slot())
                .or_ref(old(memory)@.next_free(), rhs.slot()),
    {
        let mut output = self.clone(memory);
        output.bitor_assign_ref(memory, rhs);
        output
    }

    /// `rhs`, made `rhs | self`; this cell keeps its value.
    ///
    /// Needs two free slots while it works.
    pub fn ref_bitor(
        &self,
        memory: &mut AllocatingBuilder<N>,
        rhs: CellBool<N>,
    ) -> (fresh: CellBool<N>)
        requires
            old(memory).wf(),
            self.held_by(old(memory)),
            rhs.held_by(old(memory)),
            old(memory)@.free() > 1,
        ensures
            final(memory).wf(),
            final(memory).in_step_with(old(memory)),
            fresh.slot() == rhs.slot(),
            final(memory)@ == old(memory)@.or_ref(rhs.slot(), self.slot()),
            final(memory)@.occupied == old(memory)@.occupied,
    {
        let mut rhs = rhs;
        rhs.bitor_assign_ref(memory, self);
        rhs
    }

    /// This cell, made `self | rhs`; `rhs` keeps its value.
    ///
    /// Needs two free slots while it works.
    pub fn bitor_ref(
        self,
        memory: &mut AllocatingBuilder<N>,
        rhs: &CellBool<N>,
    ) -> (fresh: CellBool<N>)
        requires
            old(memory).wf(),
            self.held_by(old(memory)),
            rhs.held_by(old(memory)),
            old(memory)@.free() > 1,
        ensures
            final(memory).wf(),
            final(memory).in_step_with(old(memory)),
            fresh.slot() == self.slot(),
            final(memory)@ == old(memory)@.or_ref(self.slot(), rhs.slot()),
            final(memory)@.occupied == old(memory)@.occupied,
    {
        let mut this = self;
        this.bitor_assign_ref(memory, rhs);
        this
    }

    /// `rhs`, made `rhs | self`; this cell is given back.
    pub fn bitor(self, memory: &mut AllocatingBuilder<N>, rhs: CellBool<N>) -> (fresh: CellBool<N>)
        requires
            old(memory).wf(),
            self.held_by(old(memory)),
            rhs.held_by(old(memory)),
            self.slot() != rhs.slot(),
        ensures
            final(memory).wf(),
            final(memory).in_step_with(old(memory)),
            fresh.slot() == rhs.slot(),
            final(memory)@ == old(memory)@.or_cell(rhs.slot(), self.slot()),
            final(memory)@.occupied == old(memory)@.occupied.update(self.slot() as int, false),
            final(memory)@.free() == old(memory)@.free() + 1,
    {
        let mut rhs = rhs;
        rhs.bitor_assign(memory, self);
        rhs
    }

    /// This cell, made `self | rhs`.
    pub fn bitor_value(self, memory: &mut AllocatingBuilder<N>, rhs: bool) -> (fresh: CellBool<N>)
        requires
            old(memory).wf(),
            self.held_by(old(memory)),
        ensures
            final(memory).wf(),
            final(memory).in_step_with(old(memory)),
            fresh.slot() == self.slot(),
            final(memory)@ == old(memory)@.or_value(self.slot(), rhs),
            final(memory)@.occupied == old(memory)@.occupied,
    {
        let mut this = self;
        this.bitor_assign_value(memory, rhs);
        this
    }

    /// A fresh cell that holds `self | rhs`.
    ///
    /// Needs two free slots while it works.
    pub fn ref_bitor_value(
        &self,
        memory: &mut AllocatingBuilder<N>,
        rhs: bool,
    ) -> (fresh: CellBool<N>)
        requires
            old(memory).wf(),
            self.held_by(old(memory)),
            old(memory)@.free() > 1,
        ensures
            final(memory).wf(),
            final(memory).in_step_with(old(memory)),
            fresh.slot() == old(memory)@.next_free(),
            fresh.held_by(final(memory)),
            final(memory)@.occupied == old(memory)@.occupied.update(fresh.slot() as int, true),
            final(memory)@.free() == old(memory)@.free() - 1,
            final(memory)@ == old(memory)@.duplicate(self.slot())
                .or_value(old(memory)@.next_free(), rhs),
    {
        let output = self.clone(memory);
        output.bitor_value(memory, rhs)
    }

    /// Makes this cell `self & rhs`; `rhs` keeps its value.
    ///
    /// Needs two free slots while it works.
    pub fn bitand_assign_ref(&mut self, memory: &mut AllocatingBuilder<N>, rhs: &CellBool<N>)
        requires
            old(memory).wf(),
            old(self).held_by(old(memory)),
            rhs.held_by(old(memory)),
            old(memory)@.free() > 1,
        ensures
            final(memory).wf(),
            final(memory).in_step_with(old(memory)),
            final(self).slot() == old(self).slot(),
            final(memory)@ == old(memory)@.and_ref(old(self).slot(), rhs.slot()),
            final(memory)@.occupied == old(memory)@.occupied,
    {
        let temp = rhs.clone(memory);
        self.bitand_assign(memory, temp);
        proof {
            assert(memory@.occupied =~= old(memory)@.occupied);
        }
    }

    /// Makes this cell `self & rhs`.
    pub fn bitand_assign_value(&mut self, memory: &mut AllocatingBuilder<N>, rhs: bool)
        requires
            old(memory).wf(),
            old(self).held_by(old(memory)),
        ensures
            final(memory).wf(),
            final(memory).in_step_with(old(memory)),
            final(self).slot() == old(self).slot(),
            final(memory)@ == old(memory)@.and_value(old(self).slot(), rhs),
            final(memory)@.occupied == old(memory)@.occupied,
    {
        if !rhs {
            self.set(memory, false);
        }
    }

    /// A fresh cell that holds `self & rhs`; both keep their values.
    ///
    /// Needs three free slots while it works.
    pub fn ref_bitand_ref(
        &self,
        memory: &mut AllocatingBuilder<N>,
        rhs: &CellBool<N>,
    ) -> (fresh: CellBool<N>)
        requires
            old(memory).wf(),
            self.held_by(old(memory)),
            rhs.held_by(old(memory)),
            old(memory)@.free() > 2,
        ensures
            final(memory).wf(),
            final(memory).in_step_with(old(memory)),
            fresh.slot() == old(memory)@.next_free(),
            fresh.held_by(final(memory)),
            final(memory)@.occupied == old(memory)@.occupied.update(fresh.slot() as int, true),
            final(memory)@.free() == old(memory)@.free() - 1,
            final(memory)@ == old(memory)@.duplicate(self.slot())
                .and_ref(old(memory)@.next_free(), rhs.slot()),
    {
        let mut output = self.clone(memory);
        output.bitand_assign_ref(memory, rhs);
        output
    }

    /// `rhs`, made `rhs & self`; this cell keeps its value.
    ///
    /// Needs two free slots while it works.
    pub fn ref_bitand(
        &self,
        memory: &mut AllocatingBuilder<N>,
        rhs: CellBool<N>,
    ) -> (fresh: CellBool<N>)
        requires
            old(memory).wf(),
            self.held_by(old(memory)),
            rhs.held_by(old(memory)),
            old(memory)@.free() > 1,
        ensures
            final(memory).wf(),
            final(memory).in_step_with(old(memory)),
            fresh.slot() == rhs.slot(),
            final(memory)@ == old(memory)@.and_ref(rhs.slot(), self.slot()),
            final(memory)@.occupied == old(memory)@.occupied,
    {
        let mut rhs = rhs;
        rhs.bitand_assign_ref(memory, self);
        rhs
    }

    /// This cell, made `self & rhs`; `rhs` keeps its value.
    ///
    /// Needs two free slots while it works.
    pub fn bitand_ref(
        self,
        memory: &mut AllocatingBuilder<N>,
        rhs: &CellBool<N>,
    ) -> (fresh: CellBool<N>)
        requires
            old(memory).wf(),
            self.held_by(old(memory)),
            rhs.held_by(old(memory)),
            old(memory)@.free() > 1,
        ensures
            final(memory).wf(),
            final(memory).in_step_with(old(memory)),
            fresh.slot() == self.slot(),
            final(memory)@ == old(memory)@.and_ref(self.slot(), rhs.slot()),
            final(memory)@.occupied == old(memory)@.occupied,
    {
        let mut this = self;
        this.bitand_assign_ref(memory, rhs);
        this
    }

    /// This cell, made `self & rhs`; `rhs` is given back.
    pub fn bitand(self, memory: &mut AllocatingBuilder<N>, rhs: CellBool<N>) -> (fresh: CellBool<N>)
        requires
            old(memory).wf(),
            self.held_by(old(memory)),
            rhs.held_by(old(memory)),
            self.slot() != rhs.slot(),
        ensures
            final(memory).wf(),
            final(memory).in_step_with(old(memory)),
            fresh.slot() == self.slot(),
            final(memory)@ == old(memory)@.and_cell(self.slot(), rhs.slot()),
            final(memory)@.occupied == old(memory)@.occupied.update(rhs.slot() as int, false),
            final(memory)@.free() == old(memory)@.free() + 1,
    {
        let mut this = self;
        this.bitand_assign(memory, rhs);
        this
    }

    /// This cell, made `self & rhs`.
    pub fn bitand_value(self, memory: &mut AllocatingBuilder<N>, rhs: bool) -> (fresh: CellBool<N>)
        requires
            old(memory).wf(),
            self.held_by(old(memory)),
        ensures
            final(memory).wf(),
            final(memory).in_step_with(old(memory)),
            fresh.slot() == self.slot(),
            final(memory)@ == old(memory)@.and_value(self.slot(), rhs),
            final(memory)@.occupied == old(memory)@.occupied,
    {
        let mut this = self;
        this.bitand_assign_value(memory, rhs);
        this
    }

    /// A fresh cell that holds `self & rhs`.
    ///
    /// Needs two free slots while it works.
    pub fn ref_bitand_value(
        &self,
        memory: &mut AllocatingBuilder<N>,
        rhs: bool,
    ) -> (fresh: CellBool<N>)
        requires
            old(memory).wf(),
            self.held_by(old(memory)),
            old(memory)@.free() > 1,
        ensures
            final(memory).wf(),
            final(memory).in_step_with(old(memory)),
            fresh.slot() == old(memory)@.next_free(),
            fresh.held_by(final(memory)),
            final(memory)@.occupied == old(memory)@.occupied.update(fresh.slot() as int, true),
            final(memory)@.free() == old(memory)@.free() - 1,
            final(memory)@ == old(memory)@.duplicate(self.slot())
                .and_value(old(memory)@.next_free(), rhs),
    {
        let output = self.clone(memory);
        output.bitand_value(memory, rhs)
    }

    /// Makes this cell `self ^ rhs`; `rhs` keeps its value.
    ///
    /// Needs three free slots while it works.
    pub fn bitxor_assign_ref(&mut self, memory: &mut AllocatingBuilder<N>, rhs: &CellBool<N>)
        requires
            old(memory).wf(),
            old(self).held_by(old(memory)),
            rhs.held_by(old(memory)),
            old(memory)@.free() > 2,
        ensures
            final(memory).wf(),
            final(memory).in_step_with(old(memory)),
            final(self).slot() == old(self).slot(),
            final(memory)@ == old(memory)@.xor_ref(old(self).slot(), rhs.slot()),
            final(memory)@.occupied == old(memory)@.occupied,
    {
        let temp = rhs.clone(memory);
        self.bitxor_assign(memory, temp);
        proof {
            assert(memory@.occupied =~= old(memory)@.occupied);
        }
    }

    /// Makes this cell `self ^ rhs`.
    ///
    /// Needs two free slots while it works.
    pub fn bitxor_assign_value(&mut self, memory: &mut AllocatingBuilder<N>, rhs: bool)
        requires
            old(memory).wf(),
            old(self).held_by(old(memory)),
            old(memory)@.free() > 1,
        ensures
            final(memory).wf(),
            final(memory).in_step_with(old(memory)),
            final(self).slot() == old(self).slot(),
            final(memory)@ == old(memory)@.xor_value(old(self).slot(), rhs),
            final(memory)@.occupied == old(memory)@.occupied,
    {
        if rhs {
            self.negate(memory);
        }
    }

    /// A fresh cell that holds `self ^ rhs`; both keep their values.
    ///
    /// Needs four free slots while it works.
    pub fn ref_bitxor_ref(
        &self,
        memory: &mut AllocatingBuilder<N>,
        rhs: &CellBool<N>,
    ) -> (fresh: CellBool<N>)
        requires
            old(memory).wf(),
            self.held_by(old(memory)),
            rhs.held_by(old(memory)),
            old(memory)@.free() > 3,
        ensures
            final(memory).wf(),
            final(memory).in_step_with(old(memory)),
            fresh.slot() == old(memory)@.next_free(),
            fresh.held_by(final(memory)),
            final(memory)@.occupied == old(memory)@.occupied.update(fresh.slot() as int, true),
            final(memory)@.free() == old(memory)@.free() - 1,
            final(memory)@ == old(memory)@.duplicate(self.slot())
                .xor_ref(old(memory)@.next_free(), rhs.slot()),
    {
        let mut output = self.clone(memory);
        output.bitxor_assign_ref(memory, rhs);
        output
    }

    /// `rhs`, made `rhs ^ self`; this cell keeps its value.
    ///
    /// Needs three free slots while it works.
    pub fn ref_bitxor(
        &self,
        memory: &mut AllocatingBuilder<N>,
        rhs: CellBool<N>,
    ) -> (fresh: CellBool<N>)
        requires
            old(memory).wf(),
            self.held_by(old(memory)),
            rhs.held_by(old(memory)),
            old(memory)@.free() > 2,
        ensures
            final(memory).wf(),
            final(memory).in_step_with(old(memory)),
            fresh.slot() == rhs.slot(),
            final(memory)@ == old(memory)@.xor_ref(rhs.slot(), self.slot()),
            final(memory)@.occupied == old(memory)@.occupied,
    {
        let mut rhs = rhs;
        rhs.bitxor_assign_ref(memory, self);
        rhs
    }

    /// This cell, made `self ^ rhs`; `rhs` keeps its value.
    ///
    /// Needs three free slots while it works.
    pub fn bitxor_ref(
        self,
        memory: &mut AllocatingBuilder<N>,
        rhs: &CellBool<N>,
    ) -> (fresh: CellBool<N>)
        requires
            old(memory).wf(),
            self.held_by(old(memory)),
            rhs.held_by(old(memory)),
            old(memory)@.free() > 2,
        ensures
            final(memory).wf(),
            final(memory).in_step_with(old(memory)),
            fresh.slot() == self.slot(),
            final(memory)@ == old(memory)@.xor_ref(self.slot(), rhs.slot()),
            final(memory)@.occupied == old(memory)@.occupied,
    {
        let mut this = self;
        this.bitxor_assign_ref(memory, rhs);
        this
    }

    /// This cell, made `self ^ rhs`; `rhs` is given back.
    ///
    /// Needs two free slots while it works.
    pub fn bitxor(self, memory: &mut AllocatingBuilder<N>, rhs: CellBool<N>) -> (fresh: CellBool<N>)
        requires
            old(memory).wf(),
            self.held_by(old(memory)),
            rhs.held_by(old(memory)),
            self.slot() != rhs.slot(),
            old(memory)@.free() > 1,
        ensures
            final(memory).wf(),
            final(memory).in_step_with(old(memory)),
            fresh.slot() == self.slot(),
            final(memory)@ == old(memory)@.xor_cell(self.slot(), rhs.slot()),
            final(memory)@.occupied == old(memory)@.occupied.update(rhs.slot() as int, false),
            final(memory)@.free() == old(memory)@.free() + 1,
    {
        let mut this = self;
        this.bitxor_assign(memory, rhs);
        this
    }

    /// This cell, made `self ^ rhs`.
    ///
    /// Needs two free slots while it works.
    pub fn bitxor_value(self, memory: &mut AllocatingBuilder<N>, rhs: bool) -> (fresh: CellBool<N>)
        requires
            old(memory).wf(),
            self.held_by(old(memory)),
            old(memory)@.free() > 1,
        ensures
            final(memory).wf(),
            final(memory).in_step_with(old(memory)),
            fresh.slot() == self.slot(),
            final(memory)@ == old(memory)@.xor_value(self.slot(), rhs),
            final(memory)@.occupied == old(memory)@.occupied,
    {
        let mut this = self;
        this.bitxor_assign_value(memory, rhs);
        this
    }

    /// A fresh cell that holds `self ^ rhs`.
    ///
    /// Needs three free slots while it works.
    pub fn ref_bitxor_value(
        &self,
        memory: &mut AllocatingBuilder<N>,
        rhs: bool,
    ) -> (fresh: CellBool<N>)
        requires
            old(memory).wf(),
            self.held_by(old(memory)),
            old(memory)@.free() > 2,
        ensures
            final(memory).wf(),
            final(memory).in_step_with(old(memory)),
            fresh.slot() == old(memory)@.next_free(),
            fresh.held_by(final(memory)),
            final(memory)@.occupied == old(memory)@.occupied.update(fresh.slot() as int, true),
            final(memory)@.free() == old(memory)@.free() - 1,
            final(memory)@ == old(memory)@.duplicate(self.slot())
                .xor_value(old(memory)@.next_free(), rhs),
    {
        let output = self.clone(memory);
        output.bitxor_value(memory, rhs)
    }

    /// `rhs`, made `lhs | rhs`.
    pub fn value_bitor(
        memory: &mut AllocatingBuilder<N>,
        lhs: bool,
        rhs: CellBool<N>,
    ) -> (fresh: CellBool<N>)
        requires
            old(memory).wf(),
            rhs.held_by(old(memory)),
        ensures
            final(memory).wf(),
            final(memory).in_step_with(old(memory)),
            fresh.slot() == rhs.slot(),
            final(memory)@ == old(memory)@.or_value(rhs.slot(), lhs),
            final(memory)@.occupied == old(memory)@.occupied,
    {
        rhs.bitor_value(memory, lhs)
    }

    /// A fresh cell that holds `lhs | rhs`.
    ///
    /// Needs two free slots while it works.
    pub fn value_bitor_ref(
        memory: &mut AllocatingBuilder<N>,
        lhs: bool,
        rhs: &CellBool<N>,
    ) -> (fresh: CellBool<N>)
        requires
            old(memory).wf(),
            rhs.held_by(old(memory)),
            old(memory)@.free() > 1,
        ensures
            final(memory).wf(),
            final(memory).in_step_with(old(memory)),
            fresh.slot() == old(memory)@.next_free(),
            fresh.held_by(final(memory)),
            final(memory)@.occupied == old(memory)@.occupied.update(fresh.slot() as int, true),
            final(memory)@.free() == old(memory)@.free() - 1,
            final(memory)@ == old(memory)@.duplicate(rhs.slot())
                .or_value(old(memory)@.next_free(), lhs),
    {
        rhs.ref_bitor_value(memory, lhs)
    }

    /// `rhs`, made `lhs & rhs`.
    pub fn value_bitand(
        memory: &mut AllocatingBuilder<N>,
        lhs: bool,
        rhs: CellBool<N>,
    ) -> (fresh: CellBool<N>)
        requires
            old(memory).wf(),
            rhs.held_by(old(memory)),
        ensures
            final(memory).wf(),
            final(memory).in_step_with(old(memory)),
            fresh.slot() == rhs.slot(),
            final(memory)@ == old(memory)@.and_value(rhs.slot(), lhs),
            final(memory)@.occupied == old(memory)@.occupied,
    {
        rhs.bitand_value(memory, lhs)
    }

    /// A fresh cell that holds `lhs & rhs`.
    ///
    /// Needs two free slots while it works.
    pub fn value_bitand_ref(
        memory: &mut AllocatingBuilder<N>,
        lhs: bool,
        rhs: &CellBool<N>,
    ) -> (fresh: CellBool<N>)
        requires
            old(memory).wf(),
            rhs.held_by(old(memory)),
            old(memory)@.free() > 1,
        ensures
            final(memory).wf(),
            final(memory).in_step_with(old(memory)),
            fresh.slot() == old(memory)@.next_free(),
            fresh.held_by(final(memory)),
            final(memory)@.occupied == old(memory)@.occupied.update(fresh.slot() as int, true),
            final(memory)@.free() == old(memory)@.free() - 1,
            final(memory)@ == old(memory)@.duplicate(rhs.slot())
                .and_value(old(memory)@.next_free(), lhs),
    {
        rhs.ref_bitand_value(memory, lhs)
    }

    /// `rhs`, made `lhs ^ rhs`.
    ///
    /// Needs two free slots while it works.
    pub fn value_bitxor(
        memory: &mut AllocatingBuilder<N>,
        lhs: bool,
        rhs: CellBool<N>,
    ) -> (fresh: CellBool<N>)
        requires
            old(memory).wf(),
            rhs.held_by(old(memory)),
            old(memory)@.free() > 1,
        ensures
            final(memory).wf(),
            final(memory).in_step_with(old(memory)),
            fresh.slot() == rhs.slot(),
            final(memory)@ == old(memory)@.xor_value(rhs.slot(), lhs),
            final(memory)@.occupied == old(memory)@.occupied,
    {
        rhs.bitxor_value(memory, lhs)
    }

    /// A fresh cell that holds `lhs ^ rhs`.
    ///
    /// Needs three free slots while it works.
    pub fn value_bitxor_ref(
        memory: &mut AllocatingBuilder<N>,
        lhs: bool,
        rhs: &CellBool<N>,
    ) -> (fresh: CellBool<N>)
        requires
            old(memory).wf(),
            rhs.held_by(old(memory)),
            old(memory)@.free() > 2,
        ensures
            final(memory).wf(),
            final(memory).in_step_with(old(memory)),
            fresh.slot() == old(memory)@.next_free(),
            fresh.held_by(final(memory)),
            final(memory)@.occupied == old(memory)@.occupied.update(fresh.slot() as int, true),
            final(memory)@.free() == old(memory)@.free() - 1,
            final(memory)@ == old(memory)@.duplicate(rhs.slot())
                .xor_value(old(memory)@.next_free(), lhs),
    {
        rhs.ref_bitxor_value(memory, lhs)
    }
}

} // verus!
