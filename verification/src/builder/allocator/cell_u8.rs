//! A cell that holds an unsigned 8-bit value when the program runs.

use super::cell_bool::CellBool;
use super::session::{AllocatingBuilder, Session};
use crate::builder::raw::{add_code, sub_code};
use super::cell_bool::bool_byte;
use crate::builder::tracking::{set_code, zero_code};
use vstd::prelude::*;

verus! {

impl Session {
    /// The session after each of `targets` was brought to zero, in order.
    pub open spec fn fan_zero(self, targets: Seq<nat>) -> Session
        decreases targets.len(),
    {
        if targets.len() == 0 {
            self
        } else {
            self.fan_zero(targets.drop_last()).at(targets.last(), zero_code())
        }
    }

    /// The session after each of `targets` was incremented, in order.
    pub open spec fn fan_inc(self, targets: Seq<nat>) -> Session
        decreases targets.len(),
    {
        if targets.len() == 0 {
            self
        } else {
            self.fan_inc(targets.drop_last()).at(targets.last(), seq!['+'])
        }
    }

    /// The session after a move of `source` into all of `targets`: each
    /// target is zeroed, then one loop at `source` decrements it and
    /// increments every target.
    pub open spec fn fan_out(self, source: nat, targets: Seq<nat>) -> Session {
        self.fan_zero(targets).at(source, seq!['[']).emit(seq!['-']).fan_inc(targets).at(
            source,
            seq![']'],
        )
    }

    /// The session after `source` was copied into `target` by way of the
    /// next free slot.
    pub open spec fn copy(self, source: nat, target: nat) -> Session {
        let temp = self.next_free();
        self.take(temp).fan_out(source, seq![temp]).fan_out(temp, seq![source, target]).release(
            temp,
        )
    }

    /// The session after a loop at `other` that decrements it and puts
    /// `step` on `target` each time.
    pub open spec fn drain(self, target: nat, other: nat, step: Seq<char>) -> Session {
        self.at(other, seq!['[']).at(target, step).at(other, seq!['-']).at(other, seq![']'])
    }

    /// The session after a fresh cell was allocated and set to `value`.
    pub open spec fn fresh_value(self, value: u8) -> Session {
        let fresh = self.next_free();
        self.take(fresh).at(fresh, set_code(value))
    }

    /// The session after `other` was added to `target` and given back.
    pub open spec fn add_cell(self, target: nat, other: nat) -> Session {
        self.drain(target, other, seq!['+']).release(other)
    }

    /// The session after `other` was subtracted from `target` and given back.
    pub open spec fn sub_cell(self, target: nat, other: nat) -> Session {
        self.drain(target, other, seq!['-']).release(other)
    }

    /// The session after a copy of `other` was added to `target`.
    pub open spec fn add_ref(self, target: nat, other: nat) -> Session {
        self.duplicate(other).add_cell(target, self.next_free())
    }

    /// The session after a copy of `other` was subtracted from `target`.
    pub open spec fn sub_ref(self, target: nat, other: nat) -> Session {
        self.duplicate(other).sub_cell(target, self.next_free())
    }

    /// The session after `source` was tested and given back: a fresh cell
    /// starts at the answer for zero and is changed by one in a loop that
    /// runs if `source` is not zero and zeroes it.
    pub open spec fn test(self, source: nat, for_zero: bool) -> Session {
        let answer = self.next_free();
        self.fresh_value(bool_byte(for_zero)).at(source, seq!['[']).at(source, zero_code()).at(
            answer,
            if for_zero {
                seq!['-']
            } else {
                seq!['+']
            },
        ).at(source, seq![']']).release(source)
    }

    /// The session after `target` was multiplied by `other`, and `other`
    /// given back: `target` is moved to a fresh counter, and one loop at the
    /// counter decrements it and adds a copy of `other` to `target`.
    pub open spec fn multiply(self, target: nat, other: nat) -> Session {
        let counter = self.next_free();
        self.take(counter).fan_out(target, seq![counter]).at(counter, seq!['[']).at(
            counter,
            seq!['-'],
        ).add_ref(target, other).at(counter, seq![']']).release(counter).release(other)
    }

    /// The session after a fresh cell was made a copy of `source`.
    pub open spec fn duplicate(self, source: nat) -> Session {
        let fresh = self.next_free();
        self.take(fresh).copy(source, fresh)
    }
}

/// A cell containing an unsigned 8-bit value.
///
/// The cell stands for one slot of the tape. It is made by an allocating
/// builder and handed back to it with `release`.
#[derive(Debug)]
pub struct CellU8<const N: usize> {
    location: usize,
}

impl<const N: usize> AllocatingBuilder<N> {
    /// Allocates an uninitialized `u8` value. Its value is not guaranteed to be zero.
    pub fn u8_uninit(&mut self) -> (cell: CellU8<N>)
        requires
            old(self).wf(),
            old(self)@.free() > 0,
        ensures
            final(self).wf(),
            final(self).in_step_with(old(self)),
            cell.slot() == old(self)@.next_free(),
            !old(self)@.occupied[cell.slot() as int],
            cell.held_by(final(self)),
            final(self)@ == old(self)@.take(cell.slot()),
            final(self)@.free() == old(self)@.free() - 1,
    {
        let location = self.allocate();
        CellU8 { location }
    }

    /// Allocates a `u8` and gives it a defined value.
    pub fn u8(&mut self, value: u8) -> (cell: CellU8<N>)
        requires
            old(self).wf(),
            old(self)@.free() > 0,
        ensures
            final(self).wf(),
            final(self).in_step_with(old(self)),
            cell.slot() == old(self)@.next_free(),
            !old(self)@.occupied[cell.slot() as int],
            cell.held_by(final(self)),
            final(self)@ == old(self)@.fresh_value(value),
            final(self)@.free() == old(self)@.free() - 1,
    {
        let mut cell = self.u8_uninit();
        cell.set(self, value);
        cell
    }
}

impl<const N: usize> CellU8<N> {
    /// The slot of the tape that the cell stands for.
    pub closed spec fn slot(&self) -> nat {
        self.location as nat
    }

    /// The cell's slot is one of `memory`, and is marked as taken there.
    pub open spec fn held_by(&self, memory: &AllocatingBuilder<N>) -> bool {
        self.slot() < N && memory@.occupied.len() == N && memory@.occupied[self.slot() as int]
    }

    /// The slot of the tape that the cell stands for.
    pub fn location(&self) -> (location: usize)
        ensures
            location == self.slot(),
    {
        self.location
    }

    /// Hands the cell's slot back to `memory`.
    pub fn release(self, memory: &mut AllocatingBuilder<N>)
        requires
            old(memory).wf(),
            self.held_by(old(memory)),
        ensures
            final(memory).wf(),
            final(memory).in_step_with(old(memory)),
            final(memory)@ == old(memory)@.release(self.slot()),
            final(memory)@.occupied == old(memory)@.occupied.update(self.slot() as int, false),
            final(memory)@.free() == old(memory)@.free() + 1,
    {
        memory.deallocate(self.location);
    }

    /// Reads a value from input into this cell.
    pub fn read(&mut self, memory: &mut AllocatingBuilder<N>)
        requires
            old(memory).wf(),
            old(self).held_by(old(memory)),
        ensures
            final(memory).wf(),
            final(memory).in_step_with(old(memory)),
            final(self).slot() == old(self).slot(),
            final(memory)@ == old(memory)@.at(old(self).slot(), seq![',']),
    {
        memory.goto(self.location);
        memory.read();
    }

    /// Writes the value from this cell into output.
    pub fn write(&self, memory: &mut AllocatingBuilder<N>)
        requires
            old(memory).wf(),
            self.held_by(old(memory)),
        ensures
            final(memory).wf(),
            final(memory).in_step_with(old(memory)),
            final(memory)@ == old(memory)@.at(self.slot(), seq!['.']),
    {
        memory.goto(self.location);
        memory.write();
    }

    /// Sets the value of this cell to zero.
    pub fn zero(&mut self, memory: &mut AllocatingBuilder<N>)
        requires
            old(memory).wf(),
            old(self).held_by(old(memory)),
        ensures
            final(memory).wf(),
            final(memory).in_step_with(old(memory)),
            final(self).slot() == old(self).slot(),
            final(memory)@ == old(memory)@.at(old(self).slot(), zero_code()),
    {
        memory.goto(self.location);
        memory.zero();
    }

    /// Sets the value of this cell to a `u8` value.
    pub fn set(&mut self, memory: &mut AllocatingBuilder<N>, value: u8)
        requires
            old(memory).wf(),
            old(self).held_by(old(memory)),
        ensures
            final(memory).wf(),
            final(memory).in_step_with(old(memory)),
            final(self).slot() == old(self).slot(),
            final(memory)@ == old(memory)@.at(old(self).slot(), set_code(value)),
    {
        memory.goto(self.location);
        memory.set(value);
    }

    /// Increments the value of this cell.
    pub fn inc(&mut self, memory: &mut AllocatingBuilder<N>)
        requires
            old(memory).wf(),
            old(self).held_by(old(memory)),
        ensures
            final(memory).wf(),
            final(memory).in_step_with(old(memory)),
            final(self).slot() == old(self).slot(),
            final(memory)@ == old(memory)@.at(old(self).slot(), seq!['+']),
    {
        memory.goto(self.location);
        memory.inc();
    }

    /// Increments the value of this cell by a `u8` value.
    pub fn inc_by(&mut self, memory: &mut AllocatingBuilder<N>, value: u8)
        requires
            old(memory).wf(),
            old(self).held_by(old(memory)),
        ensures
            final(memory).wf(),
            final(memory).in_step_with(old(memory)),
            final(self).slot() == old(self).slot(),
            final(memory)@ == old(memory)@.at(old(self).slot(), add_code(value)),
    {
        memory.goto(self.location);
        memory.inc_by(value);
    }

    /// Decrements the value of this cell.
    pub fn dec(&mut self, memory: &mut AllocatingBuilder<N>)
        requires
            old(memory).wf(),
            old(self).held_by(old(memory)),
        ensures
            final(memory).wf(),
            final(memory).in_step_with(old(memory)),
            final(self).slot() == old(self).slot(),
            final(memory)@ == old(memory)@.at(old(self).slot(), seq!['-']),
    {
        memory.goto(self.location);
        memory.dec();
    }

    /// Decrements the value of this cell by a `u8` value.
    pub fn dec_by(&mut self, memory: &mut AllocatingBuilder<N>, value: u8)
        requires
            old(memory).wf(),
            old(self).held_by(old(memory)),
        ensures
            final(memory).wf(),
            final(memory).in_step_with(old(memory)),
            final(self).slot() == old(self).slot(),
            final(memory)@ == old(memory)@.at(old(self).slot(), sub_code(value)),
    {
        memory.goto(self.location);
        memory.dec_by(value);
    }

    /// Creates a loop while this cell value is nonzero.
    ///
    /// The text grows by the way to this cell and an opening bracket, what
    /// `f` adds, and the way back to this cell and a closing bracket. Where
    /// `memory` was sound and `f` leaves it sound, with the anchors it
    /// found, `memory` is sound again.
    pub fn while_nonzero<F: FnOnce(&mut AllocatingBuilder<N>, &Self)>(
        &self,
        memory: &mut AllocatingBuilder<N>,
        f: F,
    )
        requires
            old(memory).wf(),
            self.held_by(old(memory)),
            forall|b: &mut AllocatingBuilder<N>|
                b.opened_at(old(memory), self.slot()) ==> #[trigger] call_requires(f, (b, self)),
            forall|b: &mut AllocatingBuilder<N>|
                b.opened_at(old(memory), self.slot()) && #[trigger] call_ensures(f, (b, self), ())
                    ==> final(b).wf(),
        ensures
            final(memory).wf(),
            exists|b: &mut AllocatingBuilder<N>|
                b.opened_at(old(memory), self.slot())
                    && #[trigger] call_ensures(f, (b, self), ())
                    && final(memory)@ == final(b)@.at(self.slot(), seq![']'])
                    && (final(b).in_step_with(b) ==> final(memory).in_step_with(old(memory))),
    {
        let location = self.location();
        memory.goto(location);
        memory.open_loop();
        assert(memory.opened_at(old(memory), self.slot()));
        f(memory, self);
        memory.goto(location);
        memory.close_loop();
        proof {
            let found = old(memory).anchors();
            assert(found.push(location as int).drop_last() =~= found);
        }
    }

    /// Creates a loop while this cell value is nonzero; `f` gets the cell to work on.
    ///
    /// The text grows by the way to this cell and an opening bracket, what
    /// `f` adds, and the way back to this cell and a closing bracket. Where
    /// `memory` was sound and `f` leaves it sound, with the anchors it
    /// found, `memory` is sound again.
    pub fn while_nonzero_mut<F: FnOnce(&mut AllocatingBuilder<N>, &mut Self)>(
        &mut self,
        memory: &mut AllocatingBuilder<N>,
        f: F,
    )
        requires
            old(memory).wf(),
            old(self).held_by(old(memory)),
            forall|b: &mut AllocatingBuilder<N>, c: &mut Self|
                b.opened_at(old(memory), old(self).slot()) && c.slot() == old(self).slot()
                    ==> #[trigger] call_requires(f, (b, c)),
            forall|b: &mut AllocatingBuilder<N>, c: &mut Self|
                b.opened_at(old(memory), old(self).slot()) && c.slot() == old(self).slot()
                    && #[trigger] call_ensures(f, (b, c), ()) ==> final(b).wf()
                    && final(c).slot() == c.slot(),
        ensures
            final(memory).wf(),
            final(self).slot() == old(self).slot(),
            exists|b: &mut AllocatingBuilder<N>, c: &mut Self|
                b.opened_at(old(memory), old(self).slot()) && c.slot() == old(self).slot()
                    && #[trigger] call_ensures(f, (b, c), ())
                    && final(memory)@ == final(b)@.at(old(self).slot(), seq![']'])
                    && (final(b).in_step_with(b) ==> final(memory).in_step_with(old(memory))),
    {
        let location = self.location();
        memory.goto(location);
        memory.open_loop();
        assert(memory.opened_at(old(memory), self.slot()));
        f(memory, self);
        memory.goto(location);
        memory.close_loop();
        proof {
            let found = old(memory).anchors();
            assert(found.push(location as int).drop_last() =~= found);
        }
    }

    /// Moves the value of this cell into the slots `others`, leaving a `0`
    /// behind in this cell.
    fn move_into_all_locations(&self, memory: &mut AllocatingBuilder<N>, others: &[usize])
        requires
            old(memory).wf(),
            self.slot() < N,
            forall|i: int| 0 <= i < others@.len() ==> others@[i] < N,
        ensures
            final(memory).wf(),
            final(memory).in_step_with(old(memory)),
            final(memory)@ == old(memory)@.fan_out(
                self.slot(),
                others@.map_values(|slot: usize| slot as nat),
            ),
            final(memory)@.occupied == old(memory)@.occupied,
    {
        let ghost targets = others@.map_values(|slot: usize| slot as nat);
        let mut i: usize = 0;
        while i < others.len()
            invariant
                i <= others@.len(),
                memory.wf(),
                targets == others@.map_values(|slot: usize| slot as nat),
                forall|i: int| 0 <= i < others@.len() ==> others@[i] < N,
                memory@ == old(memory)@.fan_zero(targets.take(i as int)),
                memory@.occupied == old(memory)@.occupied,
                memory.in_step_with(old(memory)),
            decreases others@.len() - i,
        {
            proof {
                assert(targets.take(i as int + 1).drop_last() =~= targets.take(i as int));
            }
            memory.goto(others[i]);
            memory.zero();
            i = i + 1;
        }
        proof {
            assert(targets.take(others@.len() as int) =~= targets);
        }
        memory.goto(self.location);
        memory.open_loop();
        memory.dec();
        let ghost opened = memory@;
        let mut i: usize = 0;
        while i < others.len()
            invariant
                i <= others@.len(),
                memory.wf(),
                targets == others@.map_values(|slot: usize| slot as nat),
                forall|i: int| 0 <= i < others@.len() ==> others@[i] < N,
                memory@ == opened.fan_inc(targets.take(i as int)),
                memory@.occupied == old(memory)@.occupied,
                old(memory).sound() ==> memory.sound() && memory.anchors() == old(memory)
                    .anchors().push(self.slot() as int),
            decreases others@.len() - i,
        {
            proof {
                assert(targets.take(i as int + 1).drop_last() =~= targets.take(i as int));
            }
            memory.goto(others[i]);
            memory.inc();
            i = i + 1;
        }
        proof {
            assert(targets.take(others@.len() as int) =~= targets);
        }
        memory.goto(self.location);
        memory.close_loop();
        proof {
            let found = old(memory).anchors();
            assert(found.push(self.slot() as int).drop_last() =~= found);
        }
    }

    /// Moves the value of this cell into another cell, leaving a `0` behind in this cell.
    pub fn move_into(&mut self, memory: &mut AllocatingBuilder<N>, other: &mut CellU8<N>)
        requires
            old(memory).wf(),
            old(self).held_by(old(memory)),
            old(other).held_by(old(memory)),
        ensures
            final(memory).wf(),
            final(memory).in_step_with(old(memory)),
            final(self).slot() == old(self).slot(),
            final(other).slot() == old(other).slot(),
            final(memory)@ == old(memory)@.fan_out(old(self).slot(), seq![old(other).slot()]),
            final(memory)@.occupied == old(memory)@.occupied,
    {
        let others = [other.location];
        proof {
            assert(others@.map_values(|slot: usize| slot as nat) =~= seq![other.slot()]);
        }
        self.move_into_all_locations(memory, others.as_slice());
    }

    /// Moves the value of another cell into this cell, leaving a `0` behind in the other cell.
    pub fn move_from(&mut self, memory: &mut AllocatingBuilder<N>, other: &mut CellU8<N>)
        requires
            old(memory).wf(),
            old(self).held_by(old(memory)),
            old(other).held_by(old(memory)),
        ensures
            final(memory).wf(),
            final(memory).in_step_with(old(memory)),
            final(self).slot() == old(self).slot(),
            final(other).slot() == old(other).slot(),
            final(memory)@ == old(memory)@.fan_out(old(other).slot(), seq![old(self).slot()]),
            final(memory)@.occupied == old(memory)@.occupied,
    {
        other.move_into(memory, self);
    }

    /// Copies the value of this cell into another cell.
    ///
    /// Uses one free slot while it works and gives it back.
    pub fn copy_into(&self, memory: &mut AllocatingBuilder<N>, other: &mut CellU8<N>)
        requires
            old(memory).wf(),
            self.held_by(old(memory)),
            old(other).held_by(old(memory)),
            old(memory)@.free() > 0,
        ensures
            final(memory).wf(),
            final(memory).in_step_with(old(memory)),
            final(other).slot() == old(other).slot(),
            final(memory)@ == old(memory)@.copy(self.slot(), old(other).slot()),
            final(memory)@.occupied == old(memory)@.occupied,
    {
        let temp = memory.u8_uninit();
        let first = [temp.location];
        let second = [self.location, other.location];
        proof {
            assert(first@.map_values(|slot: usize| slot as nat) =~= seq![temp.slot()]);
            assert(second@.map_values(|slot: usize| slot as nat) =~= seq![
                self.slot(),
                other.slot(),
            ]);
        }
        self.move_into_all_locations(memory, first.as_slice());
        temp.move_into_all_locations(memory, second.as_slice());
        temp.release(memory);
        proof {
            assert(memory@.occupied =~= old(memory)@.occupied);
        }
    }

    /// Copies the value of another cell into this cell.
    pub fn copy_from(&mut self, memory: &mut AllocatingBuilder<N>, other: &CellU8<N>)
        requires
            old(memory).wf(),
            old(self).held_by(old(memory)),
            other.held_by(old(memory)),
            old(memory)@.free() > 0,
        ensures
            final(memory).wf(),
            final(memory).in_step_with(old(memory)),
            final(self).slot() == old(self).slot(),
            final(memory)@ == old(memory)@.copy(other.slot(), old(self).slot()),
            final(memory)@.occupied == old(memory)@.occupied,
    {
        other.copy_into(memory, self);
    }

    /// Adds the value of `other` into `self`, zeroing `other` in the process.
    pub fn add_and_zero(&mut self, memory: &mut AllocatingBuilder<N>, other: &mut CellU8<N>)
        requires
            old(memory).wf(),
            old(self).held_by(old(memory)),
            old(other).held_by(old(memory)),
        ensures
            final(memory).wf(),
            final(memory).in_step_with(old(memory)),
            final(self).slot() == old(self).slot(),
            final(other).slot() == old(other).slot(),
            final(memory)@ == old(memory)@.drain(old(self).slot(), old(other).slot(), seq!['+']),
    {
        memory.goto(other.location);
        memory.open_loop();
        memory.goto(self.location);
        memory.inc();
        memory.goto(other.location);
        memory.dec();
        memory.goto(other.location);
        memory.close_loop();
        proof {
            let found = old(memory).anchors();
            assert(found.push(other.slot() as int).drop_last() =~= found);
        }
    }

    /// Subtracts the value of `other` from `self`, zeroing `other` in the process.
    pub fn sub_and_zero(&mut self, memory: &mut AllocatingBuilder<N>, other: &mut CellU8<N>)
        requires
            old(memory).wf(),
            old(self).held_by(old(memory)),
            old(other).held_by(old(memory)),
        ensures
            final(memory).wf(),
            final(memory).in_step_with(old(memory)),
            final(self).slot() == old(self).slot(),
            final(other).slot() == old(other).slot(),
            final(memory)@ == old(memory)@.drain(old(self).slot(), old(other).slot(), seq!['-']),
    {
        memory.goto(other.location);
        memory.open_loop();
        memory.goto(self.location);
        memory.dec();
        memory.goto(other.location);
        memory.dec();
        memory.goto(other.location);
        memory.close_loop();
        proof {
            let found = old(memory).anchors();
            assert(found.push(other.slot() as int).drop_last() =~= found);
        }
    }

    /// Allocates a new cell and copies the value of this cell into it.
    ///
    /// Needs two free slots: one for the new cell and one while it works.
    pub fn clone(&self, memory: &mut AllocatingBuilder<N>) -> (fresh: CellU8<N>)
        requires
            old(memory).wf(),
            self.held_by(old(memory)),
            old(memory)@.free() > 1,
        ensures
            final(memory).wf(),
            final(memory).in_step_with(old(memory)),
            fresh.slot() == old(memory)@.next_free(),
            !old(memory)@.occupied[fresh.slot() as int],
            fresh.held_by(final(memory)),
            final(memory)@ == old(memory)@.duplicate(self.slot()),
            final(memory)@.occupied == old(memory)@.occupied.update(fresh.slot() as int, true),
            final(memory)@.free() == old(memory)@.free() - 1,
    {
        let mut output = memory.u8_uninit();
        self.copy_into(memory, &mut output);
        output
    }

    /// Copies the value of `source` into this cell.
    pub fn clone_from(&mut self, memory: &mut AllocatingBuilder<N>, source: &CellU8<N>)
        requires
            old(memory).wf(),
            old(self).held_by(old(memory)),
            source.held_by(old(memory)),
            old(memory)@.free() > 0,
        ensures
            final(memory).wf(),
            final(memory).in_step_with(old(memory)),
            final(self).slot() == old(self).slot(),
            final(memory)@ == old(memory)@.copy(source.slot(), old(self).slot()),
            final(memory)@.occupied == old(memory)@.occupied,
    {
        source.copy_into(memory, self);
    }

    /// Returns a `CellBool` indicating if `self` is nonzero. The cell is
    /// zeroed and given back.
    pub fn is_nonzero(self, memory: &mut AllocatingBuilder<N>) -> (answer: CellBool<N>)
        requires
            old(memory).wf(),
            self.held_by(old(memory)),
            old(memory)@.free() > 0,
        ensures
            final(memory).wf(),
            final(memory).in_step_with(old(memory)),
            answer.slot() == old(memory)@.next_free(),
            !old(memory)@.occupied[answer.slot() as int],
            answer.held_by(final(memory)),
            final(memory)@ == old(memory)@.test(self.slot(), false),
            final(memory)@.occupied == old(memory)@.occupied.update(
                answer.slot() as int,
                true,
            ).update(self.slot() as int, false),
            final(memory)@.free() == old(memory)@.free(),
    {
        let mut output = memory.u8(0);
        memory.goto(self.location);
        memory.open_loop();
        memory.goto(self.location);
        memory.zero();
        output.inc(memory);
        memory.goto(self.location);
        memory.close_loop();
        proof {
            let found = old(memory).anchors();
            assert(found.push(self.slot() as int).drop_last() =~= found);
        }
        self.release(memory);
        CellBool::from_u8(output)
    }

    /// Returns a `CellBool` indicating if `self` is zero. The cell is zeroed
    /// and given back.
    pub fn is_zero(self, memory: &mut AllocatingBuilder<N>) -> (answer: CellBool<N>)
        requires
            old(memory).wf(),
            self.held_by(old(memory)),
            old(memory)@.free() > 0,
        ensures
            final(memory).wf(),
            final(memory).in_step_with(old(memory)),
            answer.slot() == old(memory)@.next_free(),
            !old(memory)@.occupied[answer.slot() as int],
            answer.held_by(final(memory)),
            final(memory)@ == old(memory)@.test(self.slot(), true),
            final(memory)@.occupied == old(memory)@.occupied.update(
                answer.slot() as int,
                true,
            ).update(self.slot() as int, false),
            final(memory)@.free() == old(memory)@.free(),
    {
        let mut output = memory.u8(1);
        memory.goto(self.location);
        memory.open_loop();
        memory.goto(self.location);
        memory.zero();
        output.dec(memory);
        memory.goto(self.location);
        memory.close_loop();
        proof {
            let found = old(memory).anchors();
            assert(found.push(self.slot() as int).drop_last() =~= found);
        }
        self.release(memory);
        CellBool::from_u8(output)
    }
    /// Adds a value to this cell.
    pub fn add_assign_value(&mut self, memory: &mut AllocatingBuilder<N>, rhs: u8)
        requires
            old(memory).wf(),
            old(self).held_by(old(memory)),
        ensures
            final(memory).wf(),
            final(memory).in_step_with(old(memory)),
            final(self).slot() == old(self).slot(),
            final(memory)@ == old(memory)@.at(old(self).slot(), add_code(rhs)),
    {
        self.inc_by(memory, rhs);
    }

    /// Adds the value of `rhs` to this cell; `rhs` keeps its value.
    ///
    /// Needs two free slots while it works.
    pub fn add_assign_ref(&mut self, memory: &mut AllocatingBuilder<N>, rhs: &CellU8<N>)
        requires
            old(memory).wf(),
            old(self).held_by(old(memory)),
            rhs.held_by(old(memory)),
            old(memory)@.free() > 1,
        ensures
            final(memory).wf(),
            final(memory).in_step_with(old(memory)),
            final(self).slot() == old(self).slot(),
            final(memory)@ == old(memory)@.add_ref(old(self).slot(), rhs.slot()),
            final(memory)@.occupied == old(memory)@.occupied,
    {
        let mut temp = rhs.clone(memory);
        self.add_and_zero(memory, &mut temp);
        temp.release(memory);
        proof {
            assert(memory@.occupied =~= old(memory)@.occupied);
        }
    }

    /// Adds the value of `rhs` to this cell; `rhs` is used up and given back.
    pub fn add_assign(&mut self, memory: &mut AllocatingBuilder<N>, rhs: CellU8<N>)
        requires
            old(memory).wf(),
            old(self).held_by(old(memory)),
            rhs.held_by(old(memory)),
        ensures
            final(memory).wf(),
            final(memory).in_step_with(old(memory)),
            final(self).slot() == old(self).slot(),
            final(memory)@ == old(memory)@.add_cell(old(self).slot(), rhs.slot()),
            final(memory)@.occupied == old(memory)@.occupied.update(rhs.slot() as int, false),
            final(memory)@.free() == old(memory)@.free() + 1,
    {
        let mut rhs = rhs;
        self.add_and_zero(memory, &mut rhs);
        rhs.release(memory);
    }

    /// Subtracts a value from this cell.
    pub fn sub_assign_value(&mut self, memory: &mut AllocatingBuilder<N>, rhs: u8)
        requires
            old(memory).wf(),
            old(self).held_by(old(memory)),
        ensures
            final(memory).wf(),
            final(memory).in_step_with(old(memory)),
            final(self).slot() == old(self).slot(),
            final(memory)@ == old(memory)@.at(old(self).slot(), sub_code(rhs)),
    {
        self.dec_by(memory, rhs);
    }

    /// Subtracts the value of `rhs` from this cell; `rhs` keeps its value.
    ///
    /// Needs two free slots while it works.
    pub fn sub_assign_ref(&mut self, memory: &mut AllocatingBuilder<N>, rhs: &CellU8<N>)
        requires
            old(memory).wf(),
            old(self).held_by(old(memory)),
            rhs.held_by(old(memory)),
            old(memory)@.free() > 1,
        ensures
            final(memory).wf(),
            final(memory).in_step_with(old(memory)),
            final(self).slot() == old(self).slot(),
            final(memory)@ == old(memory)@.sub_ref(old(self).slot(), rhs.slot()),
            final(memory)@.occupied == old(memory)@.occupied,
    {
        let mut temp = rhs.clone(memory);
        self.sub_and_zero(memory, &mut temp);
        temp.release(memory);
        proof {
            assert(memory@.occupied =~= old(memory)@.occupied);
        }
    }

    /// Subtracts the value of `rhs` from this cell; `rhs` is used up and given back.
    pub fn sub_assign(&mut self, memory: &mut AllocatingBuilder<N>, rhs: CellU8<N>)
        requires
            old(memory).wf(),
            old(self).held_by(old(memory)),
            rhs.held_by(old(memory)),
        ensures
            final(memory).wf(),
            final(memory).in_step_with(old(memory)),
            final(self).slot() == old(self).slot(),
            final(memory)@ == old(memory)@.sub_cell(old(self).slot(), rhs.slot()),
            final(memory)@.occupied == old(memory)@.occupied.update(rhs.slot() as int, false),
            final(memory)@.free() == old(memory)@.free() + 1,
    {
        let mut rhs = rhs;
        self.sub_and_zero(memory, &mut rhs);
        rhs.release(memory);
    }

    /// A fresh cell that holds this cell's value plus `rhs`.
    ///
    /// Needs two free slots.
    pub fn ref_plus_value(&self, memory: &mut AllocatingBuilder<N>, rhs: u8) -> (sum: CellU8<N>)
        requires
            old(memory).wf(),
            self.held_by(old(memory)),
            old(memory)@.free() > 1,
        ensures
            final(memory).wf(),
            final(memory).in_step_with(old(memory)),
            sum.slot() == old(memory)@.next_free(),
            sum.held_by(final(memory)),
            final(memory)@.occupied == old(memory)@.occupied.update(sum.slot() as int, true),
            final(memory)@.free() == old(memory)@.free() - 1,
            final(memory)@ == old(memory)@.duplicate(self.slot())
                .at(old(memory)@.next_free(), add_code(rhs)),
    {
        let mut output = self.clone(memory);
        output.add_assign_value(memory, rhs);
        output
    }

    /// This cell, after `rhs` was added to it.
    pub fn plus_value(self, memory: &mut AllocatingBuilder<N>, rhs: u8) -> (sum: CellU8<N>)
        requires
            old(memory).wf(),
            self.held_by(old(memory)),
        ensures
            final(memory).wf(),
            final(memory).in_step_with(old(memory)),
            sum.slot() == self.slot(),
            final(memory)@ == old(memory)@.at(self.slot(), add_code(rhs)),
    {
        let mut this = self;
        this.add_assign_value(memory, rhs);
        this
    }

    /// A fresh cell that holds this cell's value plus that of `rhs`.
    ///
    /// Needs three free slots while it works.
    pub fn ref_plus_ref(
        &self,
        memory: &mut AllocatingBuilder<N>,
        rhs: &CellU8<N>,
    ) -> (sum: CellU8<N>)
        requires
            old(memory).wf(),
            self.held_by(old(memory)),
            rhs.held_by(old(memory)),
            old(memory)@.free() > 2,
        ensures
            final(memory).wf(),
            final(memory).in_step_with(old(memory)),
            sum.slot() == old(memory)@.next_free(),
            sum.held_by(final(memory)),
            final(memory)@.occupied == old(memory)@.occupied.update(sum.slot() as int, true),
            final(memory)@.free() == old(memory)@.free() - 1,
            final(memory)@ == old(memory)@.duplicate(self.slot())
                .add_ref(old(memory)@.next_free(), rhs.slot()),
    {
        let mut output = self.clone(memory);
        output.add_assign_ref(memory, rhs);
        output
    }

    /// This cell, after the value of `rhs` was added to it.
    ///
    /// Needs two free slots while it works.
    pub fn plus_ref(self, memory: &mut AllocatingBuilder<N>, rhs: &CellU8<N>) -> (sum: CellU8<N>)
        requires
            old(memory).wf(),
            self.held_by(old(memory)),
            rhs.held_by(old(memory)),
            old(memory)@.free() > 1,
        ensures
            final(memory).wf(),
            final(memory).in_step_with(old(memory)),
            sum.slot() == self.slot(),
            final(memory)@ == old(memory)@.add_ref(self.slot(), rhs.slot()),
            final(memory)@.occupied == old(memory)@.occupied,
    {
        let mut this = self;
        this.add_assign_ref(memory, rhs);
        this
    }

    /// This cell, after `rhs` was added to it; `rhs` is given back.
    pub fn plus(self, memory: &mut AllocatingBuilder<N>, rhs: CellU8<N>) -> (sum: CellU8<N>)
        requires
            old(memory).wf(),
            self.held_by(old(memory)),
            rhs.held_by(old(memory)),
        ensures
            final(memory).wf(),
            final(memory).in_step_with(old(memory)),
            sum.slot() == self.slot(),
            final(memory)@ == old(memory)@.add_cell(self.slot(), rhs.slot()),
            final(memory)@.occupied == old(memory)@.occupied.update(rhs.slot() as int, false),
            final(memory)@.free() == old(memory)@.free() + 1,
    {
        let mut this = self;
        this.add_assign(memory, rhs);
        this
    }

    /// A fresh cell that holds this cell's value minus `rhs`.
    ///
    /// Needs two free slots.
    pub fn ref_minus_value(&self, memory: &mut AllocatingBuilder<N>, rhs: u8) -> (sum: CellU8<N>)
        requires
            old(memory).wf(),
            self.held_by(old(memory)),
            old(memory)@.free() > 1,
        ensures
            final(memory).wf(),
            final(memory).in_step_with(old(memory)),
            sum.slot() == old(memory)@.next_free(),
            sum.held_by(final(memory)),
            final(memory)@.occupied == old(memory)@.occupied.update(sum.slot() as int, true),
            final(memory)@.free() == old(memory)@.free() - 1,
            final(memory)@ == old(memory)@.duplicate(self.slot())
                .at(old(memory)@.next_free(), sub_code(rhs)),
    {
        let mut output = self.clone(memory);
        output.sub_assign_value(memory, rhs);
        output
    }

    /// This cell, after `rhs` was subtracted from it.
    pub fn minus_value(self, memory: &mut AllocatingBuilder<N>, rhs: u8) -> (sum: CellU8<N>)
        requires
            old(memory).wf(),
            self.held_by(old(memory)),
        ensures
            final(memory).wf(),
            final(memory).in_step_with(old(memory)),
            sum.slot() == self.slot(),
            final(memory)@ == old(memory)@.at(self.slot(), sub_code(rhs)),
    {
        let mut this = self;
        this.sub_assign_value(memory, rhs);
        this
    }

    /// A fresh cell that holds this cell's value minus that of `rhs`.
    ///
    /// Needs three free slots while it works.
    pub fn ref_minus_ref(
        &self,
        memory: &mut AllocatingBuilder<N>,
        rhs: &CellU8<N>,
    ) -> (sum: CellU8<N>)
        requires
            old(memory).wf(),
            self.held_by(old(memory)),
            rhs.held_by(old(memory)),
            old(memory)@.free() > 2,
        ensures
            final(memory).wf(),
            final(memory).in_step_with(old(memory)),
            sum.slot() == old(memory)@.next_free(),
            sum.held_by(final(memory)),
            final(memory)@.occupied == old(memory)@.occupied.update(sum.slot() as int, true),
            final(memory)@.free() == old(memory)@.free() - 1,
            final(memory)@ == old(memory)@.duplicate(self.slot())
                .sub_ref(old(memory)@.next_free(), rhs.slot()),
    {
        let mut output = self.clone(memory);
        output.sub_assign_ref(memory, rhs);
        output
    }

    /// This cell, after the value of `rhs` was subtracted from it.
    ///
    /// Needs two free slots while it works.
    pub fn minus_ref(self, memory: &mut AllocatingBuilder<N>, rhs: &CellU8<N>) -> (sum: CellU8<N>)
        requires
            old(memory).wf(),
            self.held_by(old(memory)),
            rhs.held_by(old(memory)),
            old(memory)@.free() > 1,
        ensures
            final(memory).wf(),
            final(memory).in_step_with(old(memory)),
            sum.slot() == self.slot(),
            final(memory)@ == old(memory)@.sub_ref(self.slot(), rhs.slot()),
            final(memory)@.occupied == old(memory)@.occupied,
    {
        let mut this = self;
        this.sub_assign_ref(memory, rhs);
        this
    }

    /// This cell, after `rhs` was subtracted from it; `rhs` is given back.
    pub fn minus(self, memory: &mut AllocatingBuilder<N>, rhs: CellU8<N>) -> (sum: CellU8<N>)
        requires
            old(memory).wf(),
            self.held_by(old(memory)),
            rhs.held_by(old(memory)),
        ensures
            final(memory).wf(),
            final(memory).in_step_with(old(memory)),
            sum.slot() == self.slot(),
            final(memory)@ == old(memory)@.sub_cell(self.slot(), rhs.slot()),
            final(memory)@.occupied == old(memory)@.occupied.update(rhs.slot() as int, false),
            final(memory)@.free() == old(memory)@.free() + 1,
    {
        let mut this = self;
        this.sub_assign(memory, rhs);
        this
    }

    /// `rhs`, after the value of this cell was added to it.
    ///
    /// Needs two free slots while it works.
    pub fn ref_plus(&self, memory: &mut AllocatingBuilder<N>, rhs: CellU8<N>) -> (sum: CellU8<N>)
        requires
            old(memory).wf(),
            self.held_by(old(memory)),
            rhs.held_by(old(memory)),
            old(memory)@.free() > 1,
        ensures
            final(memory).wf(),
            final(memory).in_step_with(old(memory)),
            sum.slot() == rhs.slot(),
            final(memory)@ == old(memory)@.add_ref(rhs.slot(), self.slot()),
            final(memory)@.occupied == old(memory)@.occupied,
    {
        let mut rhs = rhs;
        rhs.add_assign_ref(memory, self);
        rhs
    }

    /// A fresh cell that holds this cell's value minus that of `rhs`; `rhs` is given back.
    ///
    /// Needs two free slots while it works.
    pub fn ref_minus(&self, memory: &mut AllocatingBuilder<N>, rhs: CellU8<N>) -> (sum: CellU8<N>)
        requires
            old(memory).wf(),
            self.held_by(old(memory)),
            rhs.held_by(old(memory)),
            old(memory)@.free() > 1,
            self.slot() != rhs.slot(),
        ensures
            final(memory).wf(),
            final(memory).in_step_with(old(memory)),
            sum.slot() == old(memory)@.next_free(),
            sum.held_by(final(memory)),
            final(memory)@ == old(memory)@.duplicate(self.slot())
                .sub_cell(old(memory)@.next_free(), rhs.slot()),
            final(memory)@.occupied == old(memory)@.occupied.update(sum.slot() as int, true)
                .update(rhs.slot() as int, false),
            final(memory)@.free() == old(memory)@.free(),
    {
        let mut output = self.clone(memory);
        output.sub_assign(memory, rhs);
        output
    }

    /// A fresh cell that holds `value` minus the value of `rhs`.
    ///
    /// Needs three free slots while it works.
    pub fn value_minus_ref(
        memory: &mut AllocatingBuilder<N>,
        value: u8,
        rhs: &CellU8<N>,
    ) -> (sum: CellU8<N>)
        requires
            old(memory).wf(),
            rhs.held_by(old(memory)),
            old(memory)@.free() > 2,
        ensures
            final(memory).wf(),
            final(memory).in_step_with(old(memory)),
            sum.slot() == old(memory)@.next_free(),
            sum.held_by(final(memory)),
            final(memory)@.occupied == old(memory)@.occupied.update(sum.slot() as int, true),
            final(memory)@.free() == old(memory)@.free() - 1,
            final(memory)@ == old(memory)@.fresh_value(value)
                .sub_ref(old(memory)@.next_free(), rhs.slot()),
    {
        let mut output = memory.u8(value);
        output.sub_assign_ref(memory, rhs);
        output
    }

    /// A fresh cell that holds `value` minus the value of `rhs`; `rhs` is given back.
    pub fn value_minus(
        memory: &mut AllocatingBuilder<N>,
        value: u8,
        rhs: CellU8<N>,
    ) -> (sum: CellU8<N>)
        requires
            old(memory).wf(),
            rhs.held_by(old(memory)),
            old(memory)@.free() > 0,
        ensures
            final(memory).wf(),
            final(memory).in_step_with(old(memory)),
            sum.slot() == old(memory)@.next_free(),
            sum.held_by(final(memory)),
            final(memory)@ == old(memory)@.fresh_value(value)
                .sub_cell(old(memory)@.next_free(), rhs.slot()),
            final(memory)@.occupied == old(memory)@.occupied.update(sum.slot() as int, true)
                .update(rhs.slot() as int, false),
            final(memory)@.free() == old(memory)@.free(),
    {
        let mut output = memory.u8(value);
        output.sub_assign(memory, rhs);
        output
    }

    /// A fresh cell that holds zero minus the value of this cell.
    ///
    /// Needs three free slots while it works.
    pub fn ref_negated(&self, memory: &mut AllocatingBuilder<N>) -> (sum: CellU8<N>)
        requires
            old(memory).wf(),
            self.held_by(old(memory)),
            old(memory)@.free() > 2,
        ensures
            final(memory).wf(),
            final(memory).in_step_with(old(memory)),
            sum.slot() == old(memory)@.next_free(),
            sum.held_by(final(memory)),
            final(memory)@.occupied == old(memory)@.occupied.update(sum.slot() as int, true),
            final(memory)@.free() == old(memory)@.free() - 1,
            final(memory)@ == old(memory)@.fresh_value(0)
                .sub_ref(old(memory)@.next_free(), self.slot()),
    {
        let mut output = memory.u8(0);
        output.sub_assign_ref(memory, self);
        output
    }

    /// This cell, holding zero minus what it held: its value is moved to a
    /// fresh cell and subtracted from it again.
    ///
    /// Needs one free slot while it works.
    pub fn negated(self, memory: &mut AllocatingBuilder<N>) -> (sum: CellU8<N>)
        requires
            old(memory).wf(),
            self.held_by(old(memory)),
            old(memory)@.free() > 0,
        ensures
            final(memory).wf(),
            final(memory).in_step_with(old(memory)),
            sum.slot() == self.slot(),
            final(memory)@ == old(memory)@.take(old(memory)@.next_free())
                .fan_out(self.slot(), seq![old(memory)@.next_free()])
                .sub_cell(self.slot(), old(memory)@.next_free()),
            final(memory)@.occupied == old(memory)@.occupied,
    {
        let mut this = self;
        let mut temp = memory.u8_uninit();
        this.move_into(memory, &mut temp);
        this.sub_assign(memory, temp);
        proof {
            assert(memory@.occupied =~= old(memory)@.occupied);
        }
        this
    }

    /// A boolean cell that says whether this cell equals `other`; this cell is given back.
    ///
    /// Needs one free slot.
    pub fn equals_value(self, memory: &mut AllocatingBuilder<N>, other: u8) -> (answer: CellBool<N>)
        requires
            old(memory).wf(),
            self.held_by(old(memory)),
            old(memory)@.free() > 0,
        ensures
            final(memory).wf(),
            final(memory).in_step_with(old(memory)),
            answer.slot() == old(memory)@.next_free(),
            answer.held_by(final(memory)),
            final(memory)@ == old(memory)@.at(self.slot(), sub_code(other)).test(self.slot(), true),
            final(memory)@.free() == old(memory)@.free(),
    {
        let mut this = self;
        this.sub_assign_value(memory, other);
        this.is_zero(memory)
    }

    /// A boolean cell that says whether this cell equals `other`.
    ///
    /// Needs two free slots while it works.
    pub fn ref_equals_value(
        &self,
        memory: &mut AllocatingBuilder<N>,
        other: u8,
    ) -> (answer: CellBool<N>)
        requires
            old(memory).wf(),
            self.held_by(old(memory)),
            old(memory)@.free() > 1,
        ensures
            final(memory).wf(),
            final(memory).in_step_with(old(memory)),
            answer.held_by(final(memory)),
            final(memory)@ == old(memory)@.duplicate(self.slot())
                .at(old(memory)@.next_free(), sub_code(other))
                .test(old(memory)@.next_free(), true),
            final(memory)@.free() == old(memory)@.free() - 1,
    {
        let mut output = self.clone(memory);
        output.sub_assign_value(memory, other);
        output.is_zero(memory)
    }

    /// A boolean cell that says whether this cell equals `other`; both keep their values.
    ///
    /// Needs three free slots while it works.
    pub fn ref_equals_ref(
        &self,
        memory: &mut AllocatingBuilder<N>,
        other: &CellU8<N>,
    ) -> (answer: CellBool<N>)
        requires
            old(memory).wf(),
            self.held_by(old(memory)),
            other.held_by(old(memory)),
            old(memory)@.free() > 2,
        ensures
            final(memory).wf(),
            final(memory).in_step_with(old(memory)),
            answer.held_by(final(memory)),
            final(memory)@ == old(memory)@.duplicate(self.slot())
                .sub_ref(old(memory)@.next_free(), other.slot())
                .test(old(memory)@.next_free(), true),
            final(memory)@.free() == old(memory)@.free() - 1,
    {
        let mut output = self.clone(memory);
        output.sub_assign_ref(memory, other);
        output.is_zero(memory)
    }

    /// A boolean cell that says whether this cell equals `other`; `other` is given back.
    ///
    /// Needs two free slots while it works.
    pub fn ref_equals(
        &self,
        memory: &mut AllocatingBuilder<N>,
        other: CellU8<N>,
    ) -> (answer: CellBool<N>)
        requires
            old(memory).wf(),
            self.held_by(old(memory)),
            other.held_by(old(memory)),
            old(memory)@.free() > 1,
        ensures
            final(memory).wf(),
            final(memory).in_step_with(old(memory)),
            answer.held_by(final(memory)),
            final(memory)@ == old(memory)@.sub_ref(other.slot(), self.slot())
                .test(other.slot(), true),
            final(memory)@.free() == old(memory)@.free(),
    {
        let mut other = other;
        other.sub_assign_ref(memory, self);
        other.is_zero(memory)
    }

    /// A boolean cell that says whether this cell equals `other`; this cell is given back.
    ///
    /// Needs three free slots while it works.
    pub fn equals_ref(
        self,
        memory: &mut AllocatingBuilder<N>,
        other: &CellU8<N>,
    ) -> (answer: CellBool<N>)
        requires
            old(memory).wf(),
            self.held_by(old(memory)),
            other.held_by(old(memory)),
            old(memory)@.free() > 2,
        ensures
            final(memory).wf(),
            final(memory).in_step_with(old(memory)),
            final(memory)@ == old(memory)@.duplicate(self.slot())
                .sub_ref(old(memory)@.next_free(), other.slot())
                .test(old(memory)@.next_free(), true).release(self.slot()),
            answer.held_by(final(memory)),
            final(memory)@.free() == old(memory)@.free(),
    {
        let mut output = self.clone(memory);
        output.sub_assign_ref(memory, other);
        let answer = output.is_zero(memory);
        self.release(memory);
        answer
    }

    /// A boolean cell that says whether this cell equals `other`; both are given back.
    ///
    /// Needs one free slot.
    pub fn equals(
        self,
        memory: &mut AllocatingBuilder<N>,
        other: CellU8<N>,
    ) -> (answer: CellBool<N>)
        requires
            old(memory).wf(),
            self.held_by(old(memory)),
            other.held_by(old(memory)),
            old(memory)@.free() > 0,
            self.slot() != other.slot(),
        ensures
            final(memory).wf(),
            final(memory).in_step_with(old(memory)),
            answer.held_by(final(memory)),
            final(memory)@ == old(memory)@.sub_cell(self.slot(), other.slot())
                .test(self.slot(), true),
            final(memory)@.free() == old(memory)@.free() + 1,
    {
        let mut this = self;
        this.sub_assign(memory, other);
        this.is_zero(memory)
    }

    /// A boolean cell that says whether this cell differs from `other`; this cell is given back.
    ///
    /// Needs one free slot.
    pub fn differs_value(
        self,
        memory: &mut AllocatingBuilder<N>,
        other: u8,
    ) -> (answer: CellBool<N>)
        requires
            old(memory).wf(),
            self.held_by(old(memory)),
            old(memory)@.free() > 0,
        ensures
            final(memory).wf(),
            final(memory).in_step_with(old(memory)),
            answer.slot() == old(memory)@.next_free(),
            answer.held_by(final(memory)),
            final(memory)@ == old(memory)@.at(self.slot(), sub_code(other))
                .test(self.slot(), false),
            final(memory)@.free() == old(memory)@.free(),
    {
        let mut this = self;
        this.sub_assign_value(memory, other);
        this.is_nonzero(memory)
    }

    /// A boolean cell that says whether this cell differs from `other`.
    ///
    /// Needs two free slots while it works.
    pub fn ref_differs_value(
        &self,
        memory: &mut AllocatingBuilder<N>,
        other: u8,
    ) -> (answer: CellBool<N>)
        requires
            old(memory).wf(),
            self.held_by(old(memory)),
            old(memory)@.free() > 1,
        ensures
            final(memory).wf(),
            final(memory).in_step_with(old(memory)),
            answer.held_by(final(memory)),
            final(memory)@ == old(memory)@.duplicate(self.slot())
                .at(old(memory)@.next_free(), sub_code(other))
                .test(old(memory)@.next_free(), false),
            final(memory)@.free() == old(memory)@.free() - 1,
    {
        let mut output = self.clone(memory);
        output.sub_assign_value(memory, other);
        output.is_nonzero(memory)
    }

    /// A boolean cell that says whether this cell differs from `other`; both keep their values.
    ///
    /// Needs three free slots while it works.
    pub fn ref_differs_ref(
        &self,
        memory: &mut AllocatingBuilder<N>,
        other: &CellU8<N>,
    ) -> (answer: CellBool<N>)
        requires
            old(memory).wf(),
            self.held_by(old(memory)),
            other.held_by(old(memory)),
            old(memory)@.free() > 2,
        ensures
            final(memory).wf(),
            final(memory).in_step_with(old(memory)),
            answer.held_by(final(memory)),
            final(memory)@ == old(memory)@.duplicate(self.slot())
                .sub_ref(old(memory)@.next_free(), other.slot())
                .test(old(memory)@.next_free(), false),
            final(memory)@.free() == old(memory)@.free() - 1,
    {
        let mut output = self.clone(memory);
        output.sub_assign_ref(memory, other);
        output.is_nonzero(memory)
    }

    /// A boolean cell that says whether this cell differs from `other`; `other` is given back.
    ///
    /// Needs two free slots while it works.
    pub fn ref_differs(
        &self,
        memory: &mut AllocatingBuilder<N>,
        other: CellU8<N>,
    ) -> (answer: CellBool<N>)
        requires
            old(memory).wf(),
            self.held_by(old(memory)),
            other.held_by(old(memory)),
            old(memory)@.free() > 1,
        ensures
            final(memory).wf(),
            final(memory).in_step_with(old(memory)),
            answer.held_by(final(memory)),
            final(memory)@ == old(memory)@.sub_ref(other.slot(), self.slot())
                .test(other.slot(), false),
            final(memory)@.free() == old(memory)@.free(),
    {
        let mut other = other;
        other.sub_assign_ref(memory, self);
        other.is_nonzero(memory)
    }

    /// A boolean cell that says whether this cell differs from `other`; this cell is given back.
    ///
    /// Needs three free slots while it works.
    pub fn differs_ref(
        self,
        memory: &mut AllocatingBuilder<N>,
        other: &CellU8<N>,
    ) -> (answer: CellBool<N>)
        requires
            old(memory).wf(),
            self.held_by(old(memory)),
            other.held_by(old(memory)),
            old(memory)@.free() > 2,
        ensures
            final(memory).wf(),
            final(memory).in_step_with(old(memory)),
            final(memory)@ == old(memory)@.duplicate(self.slot())
                .sub_ref(old(memory)@.next_free(), other.slot())
                .test(old(memory)@.next_free(), false).release(self.slot()),
            answer.held_by(final(memory)),
            final(memory)@.free() == old(memory)@.free(),
    {
        let mut output = self.clone(memory);
        output.sub_assign_ref(memory, other);
        let answer = output.is_nonzero(memory);
        self.release(memory);
        answer
    }

    /// A boolean cell that says whether this cell differs from `other`; both are given back.
    ///
    /// Needs one free slot.
    pub fn differs(
        self,
        memory: &mut AllocatingBuilder<N>,
        other: CellU8<N>,
    ) -> (answer: CellBool<N>)
        requires
            old(memory).wf(),
            self.held_by(old(memory)),
            other.held_by(old(memory)),
            old(memory)@.free() > 0,
            self.slot() != other.slot(),
        ensures
            final(memory).wf(),
            final(memory).in_step_with(old(memory)),
            answer.held_by(final(memory)),
            final(memory)@ == old(memory)@.sub_cell(self.slot(), other.slot())
                .test(self.slot(), false),
            final(memory)@.free() == old(memory)@.free() + 1,
    {
        let mut this = self;
        this.sub_assign(memory, other);
        this.is_nonzero(memory)
    }

    /// Multiplies this cell by `rhs`; `rhs` is given back.
    ///
    /// Needs three free slots while it works.
    pub fn mul_assign(&mut self, memory: &mut AllocatingBuilder<N>, rhs: CellU8<N>)
        requires
            old(memory).wf(),
            old(self).held_by(old(memory)),
            rhs.held_by(old(memory)),
            old(memory)@.free() > 2,
        ensures
            final(memory).wf(),
            final(memory).in_step_with(old(memory)),
            final(self).slot() == old(self).slot(),
            final(memory)@ == old(memory)@.multiply(old(self).slot(), rhs.slot()),
            final(memory)@.occupied == old(memory)@.occupied.update(rhs.slot() as int, false),
            final(memory)@.free() == old(memory)@.free() + 1,
    {
        let mut x = memory.u8_uninit();
        x.move_from(memory, self);
        memory.goto(x.location);
        memory.open_loop();
        x.dec(memory);
        self.add_assign_ref(memory, &rhs);
        memory.goto(x.location);
        memory.close_loop();
        proof {
            let found = old(memory).anchors();
            assert(found.push(x.slot() as int).drop_last() =~= found);
        }
        x.release(memory);
        rhs.release(memory);
        proof {
            assert(memory@.occupied =~= old(memory)@.occupied.update(rhs.slot() as int, false));
        }
    }

    /// A fresh cell that holds `value` plus the value of `rhs`.
    ///
    /// Needs two free slots.
    pub fn value_plus_ref(
        memory: &mut AllocatingBuilder<N>,
        value: u8,
        rhs: &CellU8<N>,
    ) -> (sum: CellU8<N>)
        requires
            old(memory).wf(),
            rhs.held_by(old(memory)),
            old(memory)@.free() > 1,
        ensures
            final(memory).wf(),
            final(memory).in_step_with(old(memory)),
            sum.slot() == old(memory)@.next_free(),
            sum.held_by(final(memory)),
            final(memory)@.occupied == old(memory)@.occupied.update(sum.slot() as int, true),
            final(memory)@.free() == old(memory)@.free() - 1,
            final(memory)@ == old(memory)@.duplicate(rhs.slot())
                .at(old(memory)@.next_free(), add_code(value)),
    {
        rhs.ref_plus_value(memory, value)
    }

    /// `rhs`, after `value` was added to it.
    pub fn value_plus(
        memory: &mut AllocatingBuilder<N>,
        value: u8,
        rhs: CellU8<N>,
    ) -> (sum: CellU8<N>)
        requires
            old(memory).wf(),
            rhs.held_by(old(memory)),
        ensures
            final(memory).wf(),
            final(memory).in_step_with(old(memory)),
            sum.slot() == rhs.slot(),
            final(memory)@ == old(memory)@.at(rhs.slot(), add_code(value)),
    {
        rhs.plus_value(memory, value)
    }
}

} // verus!
