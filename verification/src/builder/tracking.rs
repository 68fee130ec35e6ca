//! A builder that tracks the current pointer location, allowing the use of `goto` commands.

use super::raw::{add_code, run_of, sub_code, Builder};
use super::steady::{
    anchors, in_step, lemma_empty_in_step, lemma_sound_push, lemma_sound_run, lemma_sound_run_of,
};
use crate::compiler::{balance, closes_early, flatten, parse_tree, strip, Program};
use crate::runner::{run_list, Runner, Status, Tape};
use vstd::prelude::*;

verus! {

/// The shifts that take the pointer from cell `from` to cell `to` without
/// going round the end of the tape.
pub open spec fn shift_code(from: nat, to: nat) -> Seq<char> {
    if to < from {
        run_of('<', (from - to) as nat)
    } else {
        run_of('>', (to - from) as nat)
    }
}

/// The text that brings the current cell to zero.
pub open spec fn zero_code() -> Seq<char> {
    seq!['[', '-', ']']
}

/// The text that sets the current cell to `value`.
pub open spec fn set_code(value: u8) -> Seq<char> {
    zero_code() + add_code(value)
}

/// The cell that the pointer is on after it went from `start` to each of
/// `targets` in turn.
pub open spec fn end_of_path(start: nat, targets: Seq<nat>) -> nat {
    if targets.len() == 0 {
        start
    } else {
        targets.last()
    }
}

/// The text of going from `start` to each of `targets` in turn.
pub open spec fn path_code(start: nat, targets: Seq<nat>) -> Seq<char>
    decreases targets.len(),
{
    if targets.len() == 0 {
        Seq::empty()
    } else {
        path_code(start, targets.drop_last()) + shift_code(
            end_of_path(start, targets.drop_last()),
            targets.last(),
        )
    }
}

/// The distance between two cells, counted along the tape.
pub open spec fn distance(from: nat, to: nat) -> nat {
    if to < from {
        (from - to) as nat
    } else {
        (to - from) as nat
    }
}

/// The sum of the distances between each cell of the path and the next.
pub open spec fn travel(start: nat, targets: Seq<nat>) -> nat
    decreases targets.len(),
{
    if targets.len() == 0 {
        0
    } else {
        travel(start, targets.drop_last()) + distance(
            end_of_path(start, targets.drop_last()),
            targets.last(),
        )
    }
}

/// Going from `start` to each of `targets` in turn takes as many shifts as
/// the distances between consecutive cells add up to, and nothing but
/// shifts: the pointer never goes round the end of the tape.
pub proof fn lemma_path_length(start: nat, targets: Seq<nat>)
    ensures
        path_code(start, targets).len() == travel(start, targets),
        forall|i: int|
            0 <= i < path_code(start, targets).len() ==> path_code(start, targets)[i] == '<'
                || path_code(start, targets)[i] == '>',
    decreases targets.len(),
{
    if targets.len() > 0 {
        lemma_path_length(start, targets.drop_last());
    }
}

/// From the last of `size` cells to the first takes `size - 1` shifts to the left.
pub proof fn lemma_last_to_first(size: nat)
    requires
        size > 0,
    ensures
        shift_code((size - 1) as nat, 0) == run_of('<', (size - 1) as nat),
{
    assert(shift_code((size - 1) as nat, 0) =~= run_of('<', (size - 1) as nat));
}

/// A builder that tracks the current pointer location, allowing the use of `goto` commands.
#[derive(Debug)]
pub struct TrackingBuilder<const N: usize> {
    builder: Builder,
    index: usize,
}

impl<const N: usize> TrackingBuilder<N> {
    /// The text built so far.
    pub closed spec fn code(&self) -> Seq<char> {
        self.builder@
    }

    /// The cell that the pointer is on once the text built so far has run.
    pub closed spec fn position(&self) -> nat {
        self.index as nat
    }

    /// The text is sound, and the pointer is where the text takes it from
    /// cell 0. A builder is sound when it is made and stays so as long as
    /// each bracket is closed with the pointer where it was opened.
    pub open spec fn sound(&self) -> bool {
        in_step(self.code(), self.position(), N as nat)
    }

    /// Where the pointer was at each of the brackets that are still open,
    /// outermost first.
    pub open spec fn anchors(&self) -> Seq<int> {
        anchors(self.code())
    }

    /// Constructs a new `TrackingBuilder` with no text and the pointer on cell 0.
    pub fn new() -> (builder: Self)
        ensures
            builder.code() == Seq::<char>::empty(),
            builder.position() == 0,
            builder.sound(),
            builder.anchors() == Seq::<int>::empty(),
    {
        proof {
            lemma_empty_in_step(N as nat);
        }
        Self { builder: Builder::new(), index: 0 }
    }

    /// Compiles the source code of this builder, returning an error if the source is malformed.
    pub fn compile(&self) -> (parsed: Result<Program, &'static str>)
        ensures
            match parsed {
                Ok(program) => !closes_early(self.code()) && balance(self.code()) == 0 && flatten(
                    program@,
                ) == strip(self.code()) && program@ == parse_tree(self.code()),
                Err(reason) => if closes_early(self.code()) {
                    reason@ == "unmatched closing bracket"@
                } else {
                    balance(self.code()) > 0 && reason@ == "unmatched opening bracket"@
                },
            },
    {
        self.builder.compile()
    }

    /// Runs the source code in this builder, returning an error if the source is malformed.
    pub fn run(&self, input: &[u8], budget: u64) -> (end: Result<(Runner<N>, Status), &'static str>)
        requires
            N > 0,
        ensures
            match end {
                Ok(end) => {
                    let outcome = run_list(
                        parse_tree(self.code()),
                        Tape::initial(N as nat, input@),
                        budget as nat,
                    );
                    !closes_early(self.code()) && balance(self.code()) == 0 && end.0.wf() && end.0@
                        == outcome.tape && end.1 == outcome.status
                },
                Err(reason) => if closes_early(self.code()) {
                    reason@ == "unmatched closing bracket"@
                } else {
                    balance(self.code()) > 0 && reason@ == "unmatched opening bracket"@
                },
            },
            self.sound() ==> match end {
                Ok(end) => end.1 != Status::PointerMoved && (end.1 == Status::Finished
                    ==> end.0@.pointer == self.position()),
                Err(_) => true,
            },
    {
        match self.compile() {
            Ok(program) => {
                proof {
                    if self.sound() {
                        lemma_sound_run(
                            self.code(),
                            Tape::initial(N as nat, input@),
                            budget as nat,
                        );
                        vstd::arithmetic::div_mod::lemma_small_mod(self.position(), N as nat);
                    }
                }
                Ok(program.run::<N>(input, budget))
            },
            Err(reason) => Err(reason),
        }
    }

    /// Gets the source code of this builder.
    pub fn source(&self) -> (text: &str)
        ensures
            text@ == self.code(),
    {
        self.builder.source()
    }

    /// Gets the currently pointed at memory index.
    pub fn index(&self) -> (index: usize)
        ensures
            index == self.position(),
    {
        self.index
    }

    /// Adds an increment command.
    pub fn inc(&mut self)
        ensures
            final(self).code() == old(self).code().push('+'),
            final(self).position() == old(self).position(),
            final(self).in_step_with(old(self)),
    {
        proof {
            if self.sound() {
                lemma_sound_push(self.code(), '+');
            }
        }
        self.builder.inc();
    }

    /// Adds several increment commands, or several decrement commands if `value > 128`.
    pub fn inc_by(&mut self, value: u8)
        ensures
            final(self).code() == old(self).code() + add_code(value),
            final(self).position() == old(self).position(),
            final(self).in_step_with(old(self)),
    {
        proof {
            if self.sound() {
                lemma_sound_run_of(self.code(), '+', value as nat);
                lemma_sound_run_of(self.code(), '-', (256 - value) as nat);
            }
        }
        self.builder.inc_by(value);
    }

    /// Adds a decrement command.
    pub fn dec(&mut self)
        ensures
            final(self).code() == old(self).code().push('-'),
            final(self).position() == old(self).position(),
            final(self).in_step_with(old(self)),
    {
        proof {
            if self.sound() {
                lemma_sound_push(self.code(), '-');
            }
        }
        self.builder.dec();
    }

    /// Adds several decrement commands, or several increment commands if `value > 128`.
    pub fn dec_by(&mut self, value: u8)
        ensures
            final(self).code() == old(self).code() + sub_code(value),
            final(self).position() == old(self).position(),
            final(self).in_step_with(old(self)),
    {
        proof {
            if self.sound() {
                lemma_sound_run_of(self.code(), '-', value as nat);
                lemma_sound_run_of(self.code(), '+', (256 - value) as nat);
            }
        }
        self.builder.dec_by(value);
    }

    /// Sets the current cell to zero.
    pub fn zero(&mut self)
        ensures
            final(self).code() == old(self).code() + zero_code(),
            final(self).position() == old(self).position(),
            final(self).in_step_with(old(self)),
    {
        proof {
            if self.sound() {
                let code = self.code();
                lemma_sound_push(code, '[');
                lemma_sound_push(code.push('['), '-');
                lemma_sound_push(code.push('[').push('-'), ']');
                assert(code.push('[').push('-').push(']') =~= code + zero_code());
                assert(anchors(code).push(self.position() as int).drop_last() =~= anchors(code));
            }
        }
        self.builder.open_loop();
        self.builder.dec();
        self.builder.close_loop();
        assert(self.code() =~= old(self).code() + zero_code());
    }

    /// Sets the current cell to a given value.
    pub fn set(&mut self, value: u8)
        ensures
            final(self).code() == old(self).code() + set_code(value),
            final(self).position() == old(self).position(),
            final(self).in_step_with(old(self)),
    {
        self.zero();
        self.inc_by(value);
        assert(self.code() =~= old(self).code() + set_code(value));
    }

    /// Adds several pointer shift commands to move the pointer to a given position.
    ///
    /// The pointer travels the straight way: from the last cell to cell 0 it
    /// takes `N - 1` steps to the left.
    pub fn goto(&mut self, index: usize)
        requires
            index < N,
        ensures
            final(self).code() == old(self).code() + shift_code(old(self).position(), index as nat),
            final(self).position() == index,
            final(self).in_step_with(old(self)),
    {
        proof {
            if self.sound() {
                if index < self.index {
                    lemma_sound_run_of(self.code(), '<', (self.index - index) as nat);
                } else {
                    lemma_sound_run_of(self.code(), '>', (index - self.index) as nat);
                }
            }
        }
        let from = self.index;
        if index < from {
            let mut done: usize = 0;
            while done < from - index
                invariant
                    index < from,
                    done <= from - index,
                    self.index == from,
                    from == old(self).index,
                    self.builder@ == old(self).builder@ + run_of('<', done as nat),
                decreases from - index - done,
            {
                self.builder.shl();
                done = done + 1;
                assert(self.builder@ =~= old(self).builder@ + run_of('<', done as nat));
            }
        } else {
            let mut done: usize = 0;
            while done < index - from
                invariant
                    index >= from,
                    done <= index - from,
                    self.index == from,
                    from == old(self).index,
                    self.builder@ == old(self).builder@ + run_of('>', done as nat),
                decreases index - from - done,
            {
                self.builder.shr();
                done = done + 1;
                assert(self.builder@ =~= old(self).builder@ + run_of('>', done as nat));
            }
        }
        self.index = index;
    }

    /// Adds a command to read input into the current cell.
    pub fn read(&mut self)
        ensures
            final(self).code() == old(self).code().push(','),
            final(self).position() == old(self).position(),
            final(self).in_step_with(old(self)),
    {
        proof {
            if self.sound() {
                lemma_sound_push(self.code(), ',');
            }
        }
        self.builder.read();
    }

    /// Adds a command to write the current cell into output.
    pub fn write(&mut self)
        ensures
            final(self).code() == old(self).code().push('.'),
            final(self).position() == old(self).position(),
            final(self).in_step_with(old(self)),
    {
        proof {
            if self.sound() {
                lemma_sound_push(self.code(), '.');
            }
        }
        self.builder.write();
    }

    /// Adds the bracket that opens a loop. A sound builder notes the cell
    /// that the pointer is on as the anchor of the loop.
    pub fn open_loop(&mut self)
        ensures
            final(self).code() == old(self).code().push('['),
            final(self).position() == old(self).position(),
            old(self).sound() ==> final(self).sound()
                && final(self).anchors() == old(self).anchors().push(old(self).position() as int),
    {
        proof {
            if self.sound() {
                lemma_sound_push(self.code(), '[');
            }
        }
        self.builder.open_loop();
    }

    /// Adds the bracket that closes a loop. A sound builder stays sound where
    /// the pointer is on the anchor of the loop.
    pub fn close_loop(&mut self)
        ensures
            final(self).code() == old(self).code().push(']'),
            final(self).position() == old(self).position(),
            old(self).sound() && old(self).anchors().len() > 0
                && old(self).anchors().last() == old(self).position() ==> final(self).sound()
                && final(self).anchors() == old(self).anchors().drop_last(),
    {
        proof {
            if self.sound() && self.anchors().len() > 0 && self.anchors().last()
                == self.position() {
                lemma_sound_push(self.code(), ']');
            }
        }
        self.builder.close_loop();
    }

    /// This builder is `before` after it moved the pointer to `location` and
    /// opened a loop there: with the text and the pointer that this gives,
    /// and sound, with one anchor more, where `before` was sound.
    pub open spec fn opened_at(&self, before: &Self, location: nat) -> bool {
        &&& self.code() == (before.code() + shift_code(before.position(), location)).push('[')
        &&& self.position() == location
        &&& before.sound() ==> self.sound() && self.anchors() == before.anchors().push(
            location as int,
        )
    }

    /// This builder is sound where `before` was, with the anchors of `before`.
    pub open spec fn in_step_with(&self, before: &Self) -> bool {
        before.sound() ==> self.sound() && self.anchors() == before.anchors()
    }

    /// Repeats the commands inside while the current cell is nonzero.
    ///
    /// `f` has to leave the pointer where it found it. The text grows by an
    /// opening bracket, what `f` adds, and a closing bracket. Where the
    /// builder was sound and `f` leaves it sound, with the anchors it found,
    /// the builder is sound again.
    pub fn repeat<F: FnOnce(&mut Self)>(&mut self, f: F)
        requires
            forall|b: &mut Self|
                b.opened_at(old(self), old(self).position()) ==> #[trigger] call_requires(f, (b,)),
            forall|b: &mut Self|
                b.opened_at(old(self), old(self).position()) && #[trigger] call_ensures(f, (b,), ())
                    ==> final(b).position() == old(self).position(),
        ensures
            final(self).position() == old(self).position(),
            exists|b: &mut Self|
                b.opened_at(old(self), old(self).position())
                    && #[trigger] call_ensures(f, (b,), ())
                    && final(self).code() == final(b).code().push(']')
                    && (final(b).in_step_with(b) ==> final(self).in_step_with(old(self))),
    {
        proof {
            assert(self.code() + shift_code(self.position(), self.position()) =~= self.code());
        }
        self.open_loop();
        assert(self.opened_at(old(self), old(self).position()));
        f(self);
        self.close_loop();
        proof {
            let found = old(self).anchors();
            assert(found.push(old(self).position() as int).drop_last() =~= found);
        }
    }

    /// Repeats the commands inside while the cell at `location` is nonzero.
    /// Guarantees that the pointer is at cell `location` at the beginning of
    /// each loop iteration.
    ///
    /// Where the builder was sound and `f` leaves it sound, with the anchors
    /// it found, the builder is sound again.
    pub fn repeat_at<F: FnOnce(&mut Self)>(&mut self, location: usize, f: F)
        requires
            location < N,
            forall|b: &mut Self|
                b.opened_at(old(self), location as nat) ==> #[trigger] call_requires(f, (b,)),
        ensures
            final(self).position() == location,
            exists|b: &mut Self|
                b.opened_at(old(self), location as nat) && #[trigger] call_ensures(f, (b,), ())
                    && final(self).code() == (final(b).code() + shift_code(
                    final(b).position(),
                    location as nat,
                )).push(']') && (final(b).in_step_with(b) ==> final(self).in_step_with(old(self))),
    {
        self.goto(location);
        self.open_loop();
        assert(self.opened_at(old(self), location as nat));
        f(self);
        self.goto(location);
        self.close_loop();
        proof {
            let found = old(self).anchors();
            assert(found.push(location as int).drop_last() =~= found);
        }
    }
}

} // verus!
