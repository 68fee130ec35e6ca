//! The builder that owns the pool of slots and the text built so far.

use crate::builder::raw::{add_code, sub_code};
use crate::builder::steady::{anchors, in_step};
use crate::builder::tracking::{set_code, shift_code, zero_code, TrackingBuilder};
use crate::compiler::{balance, closes_early, flatten, parse_tree, strip, Program};
use crate::runner::{run_list, Runner, Status, Tape};
use vstd::prelude::*;

verus! {

/// The lowest slot that is free, or the number of slots where none is.
pub open spec fn first_free(occupied: Seq<bool>) -> nat
    decreases occupied.len(),
{
    if occupied.len() == 0 || !occupied[0] {
        0
    } else {
        1 + first_free(occupied.drop_first())
    }
}

/// The number of free slots.
pub open spec fn free_count(occupied: Seq<bool>) -> nat
    decreases occupied.len(),
{
    if occupied.len() == 0 {
        0
    } else {
        free_count(occupied.drop_last()) + if occupied.last() {
            0nat
        } else {
            1nat
        }
    }
}

/// `first_free` is the one index with every slot below it occupied that is
/// itself free or the end.
pub proof fn lemma_first_free(occupied: Seq<bool>, k: nat)
    ensures
        first_free(occupied) <= occupied.len(),
        first_free(occupied) == k <==> k <= occupied.len() && (forall|j: int|
            0 <= j < k ==> occupied[j]) && (k < occupied.len() ==> !occupied[k as int]),
    decreases occupied.len(),
{
    if occupied.len() == 0 || !occupied[0] {
        if k > 0 && k <= occupied.len() {
            assert(!occupied[0]);
        }
    } else {
        let rest = occupied.drop_first();
        if k > 0 {
            lemma_first_free(rest, (k - 1) as nat);
            if first_free(rest) == k - 1 {
                assert forall|j: int| 0 <= j < k implies occupied[j] by {
                    if j > 0 {
                        assert(rest[j - 1]);
                    }
                }
            }
            if k <= occupied.len() && (forall|j: int| 0 <= j < k ==> occupied[j]) && (k
                < occupied.len() ==> !occupied[k as int]) {
                assert forall|j: int| 0 <= j < k - 1 implies rest[j] by {
                    assert(occupied[j + 1]);
                }
            }
        } else {
            lemma_first_free(rest, 0);
        }
    }
}

/// Taking a free slot leaves one free slot fewer; giving an occupied one
/// back leaves one more.
pub proof fn lemma_free_count_update(occupied: Seq<bool>, slot: int, taken: bool)
    requires
        0 <= slot < occupied.len(),
    ensures
        free_count(occupied.update(slot, taken)) + (if taken {
            1int
        } else {
            0int
        }) + (if occupied[slot] {
            0int
        } else {
            1int
        }) == free_count(occupied) + 1,
    decreases occupied.len(),
{
    let after = occupied.update(slot, taken);
    if slot == occupied.len() - 1 {
        assert(after.drop_last() =~= occupied.drop_last());
    } else {
        assert(after.drop_last() =~= occupied.drop_last().update(slot, taken));
        lemma_free_count_update(occupied.drop_last(), slot, taken);
    }
}

/// No more slots are free than there are, and where one is free the first
/// free slot is on the tape.
pub proof fn lemma_free_count_bounds(occupied: Seq<bool>)
    ensures
        free_count(occupied) <= occupied.len(),
        free_count(occupied) > 0 <==> first_free(occupied) < occupied.len(),
    decreases occupied.len(),
{
    lemma_first_free(occupied, first_free(occupied));
    if occupied.len() > 0 {
        let init = occupied.drop_last();
        let k = first_free(init);
        lemma_free_count_bounds(init);
        lemma_first_free(init, k);
        assert forall|j: int| 0 <= j < k implies occupied[j] by {
            assert(init[j]);
        }
        if k < init.len() {
            assert(!init[k as int]);
            lemma_first_free(occupied, k);
        } else if occupied.last() {
            lemma_first_free(occupied, occupied.len());
        } else {
            lemma_first_free(occupied, k);
        }
    }
}

/// What is done to a pool of slots: a slot is asked for, or the handle at a
/// place in the list of live handles is given back.
pub ghost enum PoolEvent {
    Allocate,
    Release(int),
}

/// A pool of slots and the slots of the handles that are live, oldest first.
pub ghost struct PoolState {
    pub occupied: Seq<bool>,
    pub live: Seq<nat>,
}

/// The pool after one event. Where no slot is free an allocation hands out
/// nothing, and a release of a handle that is not there does nothing.
pub open spec fn pool_step(state: PoolState, event: PoolEvent) -> PoolState {
    match event {
        PoolEvent::Allocate => {
            let slot = first_free(state.occupied);
            if slot < state.occupied.len() {
                PoolState {
                    occupied: state.occupied.update(slot as int, true),
                    live: state.live.push(slot),
                }
            } else {
                state
            }
        },
        PoolEvent::Release(place) => {
            if 0 <= place < state.live.len() {
                PoolState {
                    occupied: state.occupied.update(state.live[place] as int, false),
                    live: state.live.remove(place),
                }
            } else {
                state
            }
        },
    }
}

/// A pool of `size` free slots after `events`, in order.
pub open spec fn pool_after(size: nat, events: Seq<PoolEvent>) -> PoolState
    decreases events.len(),
{
    if events.len() == 0 {
        PoolState { occupied: Seq::new(size, |i: int| false), live: Seq::empty() }
    } else {
        pool_step(pool_after(size, events.drop_last()), events.last())
    }
}

/// Whatever is asked of a pool and in whatever order: no two live handles
/// hold the same slot, every live handle holds a slot of the pool that is
/// marked as taken, and there are never more live handles than slots.
pub proof fn lemma_handles_exclusive(size: nat, events: Seq<PoolEvent>)
    ensures
        pool_after(size, events).occupied.len() == size,
        pool_after(size, events).live.len() + free_count(pool_after(size, events).occupied)
            == size,
        pool_after(size, events).live.len() <= size,
        forall|i: int, j: int|
            0 <= i < j < pool_after(size, events).live.len() ==> pool_after(size, events).live[i]
                != pool_after(size, events).live[j],
        forall|i: int|
            0 <= i < pool_after(size, events).live.len() ==> pool_after(size, events).live[i]
                < size
                    && pool_after(size, events).occupied[pool_after(size, events).live[i] as int],
    decreases events.len(),
{
    if events.len() == 0 {
        lemma_all_free(size);
    } else {
        let before = pool_after(size, events.drop_last());
        let after = pool_after(size, events);
        lemma_handles_exclusive(size, events.drop_last());
        match events.last() {
            PoolEvent::Allocate => {
                let slot = first_free(before.occupied);
                lemma_first_free(before.occupied, slot);
                if slot < before.occupied.len() {
                    lemma_free_count_update(before.occupied, slot as int, true);
                }
            },
            PoolEvent::Release(place) => {
                if 0 <= place < before.live.len() {
                    lemma_free_count_update(before.occupied, before.live[place] as int, false);
                    assert forall|i: int| 0 <= i < after.live.len() implies after.live[i] < size
                        && after.occupied[after.live[i] as int] by {
                        if i < place {
                            assert(after.live[i] == before.live[i]);
                        } else {
                            assert(after.live[i] == before.live[i + 1]);
                        }
                    }
                }
            },
        }
    }
}

/// In a pool of free slots, all of them count as free.
pub proof fn lemma_all_free(size: nat)
    ensures
        free_count(Seq::new(size, |i: int| false)) == size,
    decreases size,
{
    if size > 0 {
        lemma_all_free((size - 1) as nat);
        assert(Seq::new(size, |i: int| false).drop_last() =~= Seq::new(
            (size - 1) as nat,
            |i: int| false,
        ));
    }
}

/// What an allocating builder has done so far: the text it has built, the
/// cell its pointer is on once that text has run, and which slots are taken.
pub ghost struct Session {
    pub code: Seq<char>,
    pub position: nat,
    pub occupied: Seq<bool>,
}

impl Session {
    /// The session after `text` was added.
    pub open spec fn emit(self, text: Seq<char>) -> Session {
        Session { code: self.code + text, ..self }
    }

    /// The session after the pointer was moved to `slot`.
    pub open spec fn goto(self, slot: nat) -> Session {
        Session { code: self.code + shift_code(self.position, slot), position: slot, ..self }
    }

    /// The session after the pointer was moved to `slot` and `text` added.
    pub open spec fn at(self, slot: nat, text: Seq<char>) -> Session {
        self.goto(slot).emit(text)
    }

    /// The slot that the next allocation hands out.
    pub open spec fn next_free(self) -> nat {
        first_free(self.occupied)
    }

    /// The session after `slot` was marked occupied.
    pub open spec fn take(self, slot: nat) -> Session {
        Session { occupied: self.occupied.update(slot as int, true), ..self }
    }

    /// The session after `slot` was marked free.
    pub open spec fn release(self, slot: nat) -> Session {
        Session { occupied: self.occupied.update(slot as int, false), ..self }
    }

    /// The number of free slots.
    pub open spec fn free(self) -> nat {
        free_count(self.occupied)
    }

    /// The text is sound, and the pointer is where the text takes it from
    /// cell 0 on a tape of `size` cells.
    pub open spec fn sound(self, size: nat) -> bool {
        in_step(self.code, self.position, size)
    }

    /// Where the pointer was at each of the brackets that are still open,
    /// outermost first.
    pub open spec fn anchors(self) -> Seq<int> {
        anchors(self.code)
    }
}

/// A builder which allocates memory into cells and releases them on request.
#[derive(Debug)]
pub struct AllocatingBuilder<const N: usize> {
    /// A tracking builder which the cells write through.
    builder: TrackingBuilder<N>,
    /// One flag for each slot: whether it is taken.
    memory: [bool; N],
    /// The earliest open space in the `memory` array, or `N` where none is open.
    earliest_open_space: usize,
}

impl<const N: usize> View for AllocatingBuilder<N> {
    type V = Session;

    /// The text, the pointer and the pool of the builder.
    closed spec fn view(&self) -> Session {
        Session {
            code: self.builder.code(),
            position: self.builder.position(),
            occupied: self.memory@,
        }
    }
}

impl<const N: usize> AllocatingBuilder<N> {
    /// The cursor of the pool is on the first free slot.
    pub closed spec fn cursor_ok(&self) -> bool {
        self.earliest_open_space as nat == first_free(self.memory@)
    }

    /// The text is sound, and the pointer is where the text takes it from
    /// cell 0. A builder is sound when it is made and stays so as long as
    /// each bracket is closed with the pointer where it was opened.
    pub open spec fn sound(&self) -> bool {
        self@.sound(N as nat)
    }

    /// Where the pointer was at each of the brackets that are still open,
    /// outermost first.
    pub open spec fn anchors(&self) -> Seq<int> {
        self@.anchors()
    }

    /// This builder is `before` after it moved the pointer to `slot` and
    /// opened a loop there: well formed, with the text and the pointer that
    /// this gives, and sound, with one anchor more, where `before` was sound.
    pub open spec fn opened_at(&self, before: &Self, slot: nat) -> bool {
        &&& self.wf()
        &&& self@ == before@.at(slot, seq!['['])
        &&& before.sound() ==> self.sound() && self.anchors() == before.anchors().push(
            slot as int,
        )
    }

    /// This builder is sound where `before` was, with the anchors of `before`.
    pub open spec fn in_step_with(&self, before: &Self) -> bool {
        before.sound() ==> self.sound() && self.anchors() == before.anchors()
    }

    /// There is a flag for each of the `N` slots, and the cursor is on the
    /// first free one.
    pub open spec fn wf(&self) -> bool {
        self@.occupied.len() == N && self.cursor_ok()
    }

    /// Creates a new builder with no text, the pointer on cell 0 and every slot free.
    pub fn new() -> (memory: Self)
        ensures
            memory.wf(),
            memory@ == (Session {
                code: Seq::empty(),
                position: 0,
                occupied: Seq::new(N as nat, |i: int| false),
            }),
            memory@.free() == N,
            memory.sound(),
            memory.anchors() == Seq::<int>::empty(),
    {
        let memory = Self {
            builder: TrackingBuilder::new(),
            memory: vstd::array::array_fill_for_copy_types(false),
            earliest_open_space: 0,
        };
        proof {
            assert(memory@.occupied =~= Seq::new(N as nat, |i: int| false));
            lemma_first_free(memory.memory@, 0);
            lemma_all_free(N as nat);
        }
        memory
    }

    /// Compiles the source of this builder, returning an error if it is malformed.
    pub fn compile(&self) -> (parsed: Result<Program, &'static str>)
        ensures
            match parsed {
                Ok(program) => !closes_early(self@.code) && balance(self@.code) == 0 && flatten(
                    program@,
                ) == strip(self@.code) && program@ == parse_tree(self@.code),
                Err(reason) => if closes_early(self@.code) {
                    reason@ == "unmatched closing bracket"@
                } else {
                    balance(self@.code) > 0 && reason@ == "unmatched opening bracket"@
                },
            },
    {
        self.builder.compile()
    }

    /// Runs the code in this builder on a given input, returning an error if it is malformed.
    pub fn run(&self, input: &[u8], budget: u64) -> (end: Result<(Runner<N>, Status), &'static str>)
        requires
            N > 0,
        ensures
            match end {
                Ok(end) => {
                    let outcome = run_list(
                        parse_tree(self@.code),
                        Tape::initial(N as nat, input@),
                        budget as nat,
                    );
                    !closes_early(self@.code) && balance(self@.code) == 0 && end.0.wf() && end.0@
                        == outcome.tape && end.1 == outcome.status
                },
                Err(reason) => if closes_early(self@.code) {
                    reason@ == "unmatched closing bracket"@
                } else {
                    balance(self@.code) > 0 && reason@ == "unmatched opening bracket"@
                },
            },
            self.sound() ==> match end {
                Ok(end) => end.1 != Status::PointerMoved && (end.1 == Status::Finished
                    ==> end.0@.pointer == self@.position),
                Err(_) => true,
            },
    {
        self.builder.run(input, budget)
    }

    /// Gets the source of this builder.
    pub fn source(&self) -> (text: String)
        ensures
            text@ == self@.code,
    {
        self.builder.source().to_owned()
    }

    /// The number of slots that are free.
    pub fn free_slots(&self) -> (free: usize)
        requires
            self.wf(),
        ensures
            free == self@.free(),
    {
        let mut free: usize = 0;
        let mut i: usize = 0;
        while i < N
            invariant
                i <= N,
                free <= i,
                self.memory@.len() == N,
                free == free_count(self.memory@.take(i as int)),
            decreases N - i,
        {
            proof {
                assert(self.memory@.take(i as int + 1).drop_last() =~= self.memory@.take(i as int));
            }
            if !self.memory[i] {
                free = free + 1;
            }
            i = i + 1;
        }
        proof {
            assert(self.memory@.take(N as int) =~= self.memory@);
        }
        free
    }

    /// Allocates a byte of memory, returning its location: the lowest free slot.
    pub fn allocate(&mut self) -> (location: usize)
        requires
            old(self).wf(),
            old(self)@.free() > 0,
        ensures
            final(self).wf(),
            location == old(self)@.next_free(),
            location < N,
            !old(self)@.occupied[location as int],
            final(self)@ == old(self)@.take(location as nat),
            final(self)@.free() == old(self)@.free() - 1,
    {
        proof {
            lemma_free_count_bounds(self.memory@);
            lemma_free_count_update(self.memory@, self.earliest_open_space as int, true);
            lemma_first_free(self.memory@, self.earliest_open_space as nat);
        }
        let location = self.earliest_open_space;
        let mut index = location + 1;
        while index < N && self.memory[index]
            invariant
                location < index <= N,
                self.memory@.len() == N,
                forall|j: int| location < j < index ==> self.memory@[j],
            decreases N - index,
        {
            index = index + 1;
        }
        self.memory[location] = true;
        self.earliest_open_space = index;
        proof {
            lemma_first_free(self.memory@, index as nat);
        }
        location
    }

    /// Deallocates a byte of memory.
    pub fn deallocate(&mut self, location: usize)
        requires
            old(self).wf(),
            location < N,
        ensures
            final(self).wf(),
            final(self)@ == old(self)@.release(location as nat),
            final(self)@.free() == old(self)@.free() + if old(self)@.occupied[location as int] {
                1int
            } else {
                0int
            },
    {
        proof {
            lemma_free_count_update(self.memory@, location as int, false);
            lemma_first_free(self.memory@, self.earliest_open_space as nat);
        }
        self.memory[location] = false;
        if location < self.earliest_open_space {
            self.earliest_open_space = location;
        }
        proof {
            lemma_first_free(self.memory@, self.earliest_open_space as nat);
        }
    }

    /// Moves the pointer to `slot`.
    pub fn goto(&mut self, slot: usize)
        requires
            slot < N,
        ensures
            final(self)@ == old(self)@.goto(slot as nat),
            final(self).cursor_ok() == old(self).cursor_ok(),
            final(self).in_step_with(old(self)),
    {
        self.builder.goto(slot);
    }

    /// Adds an increment command.
    pub fn inc(&mut self)
        ensures
            final(self)@ == old(self)@.emit(seq!['+']),
            final(self).cursor_ok() == old(self).cursor_ok(),
            final(self).in_step_with(old(self)),
    {
        self.builder.inc();
        assert(self@.code =~= old(self)@.code + seq!['+']);
    }

    /// Adds a decrement command.
    pub fn dec(&mut self)
        ensures
            final(self)@ == old(self)@.emit(seq!['-']),
            final(self).cursor_ok() == old(self).cursor_ok(),
            final(self).in_step_with(old(self)),
    {
        self.builder.dec();
        assert(self@.code =~= old(self)@.code + seq!['-']);
    }

    /// Adds the shortest run of commands that adds `value`.
    pub fn inc_by(&mut self, value: u8)
        ensures
            final(self)@ == old(self)@.emit(add_code(value)),
            final(self).cursor_ok() == old(self).cursor_ok(),
            final(self).in_step_with(old(self)),
    {
        self.builder.inc_by(value);
    }

    /// Adds the shortest run of commands that subtracts `value`.
    pub fn dec_by(&mut self, value: u8)
        ensures
            final(self)@ == old(self)@.emit(sub_code(value)),
            final(self).cursor_ok() == old(self).cursor_ok(),
            final(self).in_step_with(old(self)),
    {
        self.builder.dec_by(value);
    }

    /// Adds the loop that brings the current cell to zero.
    pub fn zero(&mut self)
        ensures
            final(self)@ == old(self)@.emit(zero_code()),
            final(self).cursor_ok() == old(self).cursor_ok(),
            final(self).in_step_with(old(self)),
    {
        self.builder.zero();
    }

    /// Adds the commands that set the current cell to `value`.
    pub fn set(&mut self, value: u8)
        ensures
            final(self)@ == old(self)@.emit(set_code(value)),
            final(self).cursor_ok() == old(self).cursor_ok(),
            final(self).in_step_with(old(self)),
    {
        self.builder.set(value);
    }

    /// Adds a command to read input into the current cell.
    pub fn read(&mut self)
        ensures
            final(self)@ == old(self)@.emit(seq![',']),
            final(self).cursor_ok() == old(self).cursor_ok(),
            final(self).in_step_with(old(self)),
    {
        self.builder.read();
        assert(self@.code =~= old(self)@.code + seq![',']);
    }

    /// Adds a command to write the current cell into output.
    pub fn write(&mut self)
        ensures
            final(self)@ == old(self)@.emit(seq!['.']),
            final(self).cursor_ok() == old(self).cursor_ok(),
            final(self).in_step_with(old(self)),
    {
        self.builder.write();
        assert(self@.code =~= old(self)@.code + seq!['.']);
    }

    /// Adds the bracket that opens a loop. A sound builder notes the cell
    /// that the pointer is on as the anchor of the loop.
    pub fn open_loop(&mut self)
        ensures
            final(self)@ == old(self)@.emit(seq!['[']),
            final(self).cursor_ok() == old(self).cursor_ok(),
            old(self).sound() ==> final(self).sound() && final(self).anchors() == old(self)
                .anchors().push(old(self)@.position as int),
    {
        self.builder.open_loop();
        assert(self@.code =~= old(self)@.code + seq!['[']);
    }

    /// Adds the bracket that closes a loop. A sound builder stays sound where
    /// the pointer is on the anchor of the loop.
    pub fn close_loop(&mut self)
        ensures
            final(self)@ == old(self)@.emit(seq![']']),
            final(self).cursor_ok() == old(self).cursor_ok(),
            old(self).sound() && old(self).anchors().len() > 0 && old(self).anchors().last()
                == old(self)@.position ==> final(self).sound() && final(self).anchors() == old(self)
                .anchors().drop_last(),
    {
        self.builder.close_loop();
        assert(self@.code =~= old(self)@.code + seq![']']);
    }
}

} // verus!
