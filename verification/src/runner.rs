//! The interpreter: a circular tape of bytes, a pointer, an input queue and an
//! output log, driven one instruction at a time.

use crate::compiler::{nodes_of, lemma_loop_view, Instruction, Node};
use vstd::array::*;
use vstd::prelude::*;
use vstd::slice::*;
use vstd::string::*;

verus! {

/// The byte after `v`, wrapping from 255 to 0.
pub open spec fn wrap_inc(v: u8) -> u8 {
    if v == 255 {
        0
    } else {
        (v + 1) as u8
    }
}

/// The byte before `v`, wrapping from 0 to 255.
pub open spec fn wrap_dec(v: u8) -> u8 {
    if v == 0 {
        255
    } else {
        (v - 1) as u8
    }
}

/// The state of the machine.
///
/// `input` is what is still to be read, next byte first; `output` is what
/// has been written, oldest byte first.
pub ghost struct Tape {
    pub cells: Seq<u8>,
    pub pointer: nat,
    pub input: Seq<u8>,
    pub output: Seq<u8>,
}

impl Tape {
    /// The pointer selects a cell of the tape.
    pub open spec fn wf(self) -> bool {
        self.pointer < self.cells.len()
    }

    /// A zeroed tape of `size` cells with the pointer on cell 0.
    pub open spec fn initial(size: nat, input: Seq<u8>) -> Tape {
        Tape { cells: Seq::new(size, |i: int| 0u8), pointer: 0, input, output: Seq::empty() }
    }

    /// The byte under the pointer.
    pub open spec fn current(self) -> u8 {
        self.cells[self.pointer as int]
    }

    /// The tape with `v` stored under the pointer.
    pub open spec fn store(self, v: u8) -> Tape {
        Tape { cells: self.cells.update(self.pointer as int, v), ..self }
    }

    /// The tape with the current cell one higher, wrapping.
    pub open spec fn inc(self) -> Tape {
        self.store(wrap_inc(self.current()))
    }

    /// The tape with the current cell one lower, wrapping.
    pub open spec fn dec(self) -> Tape {
        self.store(wrap_dec(self.current()))
    }

    /// One step left; from cell 0 the pointer goes to the last cell.
    pub open spec fn shl(self) -> Tape {
        Tape {
            pointer: if self.pointer == 0 {
                (self.cells.len() - 1) as nat
            } else {
                (self.pointer - 1) as nat
            },
            ..self
        }
    }

    /// One step right; from the last cell the pointer goes to cell 0.
    pub open spec fn shr(self) -> Tape {
        Tape {
            pointer: if self.pointer + 1 == self.cells.len() {
                0
            } else {
                self.pointer + 1
            },
            ..self
        }
    }

    /// Takes the next input byte, or 0 once the input is used up.
    pub open spec fn read(self) -> Tape {
        if self.input.len() > 0 {
            Tape { input: self.input.drop_first(), ..self.store(self.input[0]) }
        } else {
            self.store(0)
        }
    }

    /// The tape with the current cell added to the output.
    pub open spec fn write(self) -> Tape {
        Tape { output: self.output.push(self.current()), ..self }
    }

    /// The effect of one instruction that is not a loop.
    pub open spec fn step(self, node: Node) -> Tape {
        match node {
            Node::Increment => self.inc(),
            Node::Decrement => self.dec(),
            Node::ShiftLeft => self.shl(),
            Node::ShiftRight => self.shr(),
            Node::Read => self.read(),
            Node::Write => self.write(),
            Node::Loop(_) => self,
        }
    }
}

/// How a run ended.
#[derive(Clone, Copy, Debug, PartialEq, Eq, Structural)]
pub enum Status {
    /// Every instruction was carried out.
    Finished,
    /// A loop body ended with the pointer on another cell than it began on.
    PointerMoved,
    /// A loop asked for one more iteration than its budget allowed.
    BudgetExhausted,
}

/// The tape a run stopped on, and why it stopped.
pub ghost struct Outcome {
    pub tape: Tape,
    pub status: Status,
}

/// Runs `program` on `tape`.
///
/// A loop entered with budget `b` may begin at most `b` iterations; the
/// first runs its body with budget `b - 1`, the second with `b - 2`, and so
/// on.
pub open spec fn run_list(program: Seq<Node>, tape: Tape, budget: nat) -> Outcome
    decreases budget, 1int, program.len(),
{
    if program.len() == 0 {
        Outcome { tape, status: Status::Finished }
    } else {
        match program[0] {
            Node::Loop(body) => {
                let first = run_loop(body, tape, budget);
                if first.status == Status::Finished {
                    run_list(program.drop_first(), first.tape, budget)
                } else {
                    first
                }
            },
            simple => run_list(program.drop_first(), tape.step(simple), budget),
        }
    }
}

/// Runs `body` again and again while the byte under the pointer is not zero.
pub open spec fn run_loop(body: Seq<Node>, tape: Tape, budget: nat) -> Outcome
    decreases budget, 0int, 0nat,
{
    if tape.current() == 0 {
        Outcome { tape, status: Status::Finished }
    } else if budget == 0 {
        Outcome { tape, status: Status::BudgetExhausted }
    } else {
        let once = run_list(body, tape, (budget - 1) as nat);
        if once.status != Status::Finished {
            once
        } else if once.tape.pointer != tape.pointer {
            Outcome { tape: once.tape, status: Status::PointerMoved }
        } else {
            run_loop(body, once.tape, (budget - 1) as nat)
        }
    }
}

/// Steps and loops keep the pointer on the tape and the tape at its size.
pub proof fn lemma_run_keeps_shape(program: Seq<Node>, tape: Tape, budget: nat)
    requires
        tape.wf(),
    ensures
        run_list(program, tape, budget).tape.wf(),
        run_list(program, tape, budget).tape.cells.len() == tape.cells.len(),
    decreases budget, 2int, program.len(),
{
    if program.len() > 0 {
        match program[0] {
            Node::Loop(body) => {
                lemma_loop_keeps_shape(body, tape, budget);
                let first = run_loop(body, tape, budget);
                if first.status == Status::Finished {
                    lemma_run_keeps_shape(program.drop_first(), first.tape, budget);
                }
            },
            simple => {
                lemma_run_keeps_shape(program.drop_first(), tape.step(simple), budget);
            },
        }
    }
}

/// A loop keeps the pointer on the tape and the tape at its size.
pub proof fn lemma_loop_keeps_shape(body: Seq<Node>, tape: Tape, budget: nat)
    requires
        tape.wf(),
    ensures
        run_loop(body, tape, budget).tape.wf(),
        run_loop(body, tape, budget).tape.cells.len() == tape.cells.len(),
    decreases budget, 1int, 0nat,
{
    if tape.current() != 0 && budget > 0 {
        let once = run_list(body, tape, (budget - 1) as nat);
        lemma_run_keeps_shape(body, tape, (budget - 1) as nat);
        if once.status == Status::Finished && once.tape.pointer == tape.pointer {
            lemma_loop_keeps_shape(body, once.tape, (budget - 1) as nat);
        }
    }
}

/// Running one program after another is running their concatenation.
pub proof fn lemma_run_concat(first: Seq<Node>, second: Seq<Node>, tape: Tape, budget: nat)
    ensures
        run_list(first + second, tape, budget) == if run_list(first, tape, budget).status
            == Status::Finished {
            run_list(second, run_list(first, tape, budget).tape, budget)
        } else {
            run_list(first, tape, budget)
        },
    decreases first.len(),
{
    if first.len() == 0 {
        assert(first + second =~= second);
    } else {
        assert((first + second).drop_first() =~= first.drop_first() + second);
        assert((first + second)[0] == first[0]);
        match first[0] {
            Node::Loop(body) => {
                let looped = run_loop(body, tape, budget);
                if looped.status == Status::Finished {
                    lemma_run_concat(first.drop_first(), second, looped.tape, budget);
                }
            },
            simple => {
                lemma_run_concat(first.drop_first(), second, tape.step(simple), budget);
            },
        }
    }
}

/// A run that did not stop for want of budget ends the same way, on the
/// same tape, with any larger budget.
pub proof fn lemma_budget_monotone(program: Seq<Node>, tape: Tape, small: nat, large: nat)
    requires
        small <= large,
        run_list(program, tape, small).status != Status::BudgetExhausted,
    ensures
        run_list(program, tape, large) == run_list(program, tape, small),
    decreases small, 1int, program.len(),
{
    if program.len() > 0 {
        match program[0] {
            Node::Loop(body) => {
                let looped = run_loop(body, tape, small);
                lemma_loop_budget_monotone(body, tape, small, large);
                if looped.status == Status::Finished {
                    lemma_budget_monotone(program.drop_first(), looped.tape, small, large);
                }
            },
            simple => {
                lemma_budget_monotone(program.drop_first(), tape.step(simple), small, large);
            },
        }
    }
}

/// A loop that did not stop for want of budget ends the same way, on the
/// same tape, with any larger budget.
pub proof fn lemma_loop_budget_monotone(body: Seq<Node>, tape: Tape, small: nat, large: nat)
    requires
        small <= large,
        run_loop(body, tape, small).status != Status::BudgetExhausted,
    ensures
        run_loop(body, tape, large) == run_loop(body, tape, small),
    decreases small, 0int, 0nat,
{
    if tape.current() != 0 && small > 0 {
        let once = run_list(body, tape, (small - 1) as nat);
        lemma_budget_monotone(body, tape, (small - 1) as nat, (large - 1) as nat);
        if once.status == Status::Finished && once.tape.pointer == tape.pointer {
            lemma_loop_budget_monotone(body, once.tape, (small - 1) as nat, (large - 1) as nat);
        }
    }
}

/// The hexadecimal digit, in upper case, for a number below 16.
pub open spec fn hex_digit(digit: int) -> char {
    "0123456789ABCDEF"@[digit]
}

/// A cell as it is shown: two hexadecimal digits, between angle brackets
/// where the pointer is on it.
pub open spec fn cell_text(value: u8, marked: bool) -> Seq<char> {
    let digits = seq![hex_digit(value as int / 16), hex_digit(value as int % 16)];
    if marked {
        seq!['<'] + digits + seq!['>']
    } else {
        digits
    }
}

/// The cells from `from` up to `to`, as they are shown, with a space
/// between each two.
pub open spec fn cells_text(tape: Tape, from: int, to: int) -> Seq<char>
    decreases to - from,
{
    if to <= from {
        Seq::empty()
    } else if to == from + 1 {
        cell_text(tape.cells[from], from == tape.pointer)
    } else {
        cells_text(tape, from, to - 1) + seq![' '] + cell_text(
            tape.cells[to - 1],
            to - 1 == tape.pointer,
        )
    }
}

/// Where the window that is shown begins: eight cells before the pointer,
/// or at the first cell.
pub open spec fn window_start(tape: Tape) -> int {
    if tape.pointer >= 8 {
        tape.pointer - 8
    } else {
        0
    }
}

/// Where the window that is shown ends: eight cells after the pointer, or
/// at the end of the tape.
pub open spec fn window_end(tape: Tape) -> int {
    if tape.pointer + 8 <= tape.cells.len() {
        tape.pointer as int + 8
    } else {
        tape.cells.len() as int
    }
}

/// The text for a hexadecimal digit.
fn hex_text(digit: u8) -> (text: &'static str)
    requires
        digit < 16,
    ensures
        text@ == seq![hex_digit(digit as int)],
{
    proof {
        reveal_strlit("0123456789ABCDEF");
    }
    let text = "0123456789ABCDEF".substring_char(digit as usize, digit as usize + 1);
    assert(text@ =~= seq![hex_digit(digit as int)]);
    text
}

/// A machine that gives access to its tape only through the instructions.
#[derive(Clone, Hash, PartialEq, Eq)]
pub struct Runner<const N: usize> {
    data: [u8; N],
    index: usize,
    /// What is still to be read, last byte first.
    input: Vec<u8>,
    output: Vec<u8>,
}

impl<const N: usize> View for Runner<N> {
    type V = Tape;

    /// The tape, the pointer, the input still to be read and the output.
    closed spec fn view(&self) -> Tape {
        Tape {
            cells: self.data@,
            pointer: self.index as nat,
            input: self.input@.reverse(),
            output: self.output@,
        }
    }
}

impl<const N: usize> Runner<N> {
    /// The tape has `N` cells and the pointer selects one of them.
    pub open spec fn wf(&self) -> bool {
        self@.cells.len() == N && self@.pointer < N
    }

    /// A zeroed tape with the pointer on cell 0, `input` waiting to be read.
    pub fn new(input: &[u8]) -> (runner: Self)
        requires
            N > 0,
        ensures
            runner.wf(),
            runner@ == Tape::initial(N as nat, input@),
    {
        let mut reversed: Vec<u8> = Vec::new();
        let mut i: usize = input.len();
        while i > 0
            invariant
                i <= input@.len(),
                reversed@ == input@.subrange(i as int, input@.len() as int).reverse(),
            decreases i,
        {
            i = i - 1;
            reversed.push(input[i]);
            assert(reversed@ =~= input@.subrange(i as int, input@.len() as int).reverse());
        }
        let runner = Runner {
            data: array_fill_for_copy_types(0u8),
            index: 0,
            input: reversed,
            output: Vec::new(),
        };
        proof {
            assert(input@.subrange(0, input@.len() as int) =~= input@);
            assert(runner@.cells =~= Tape::initial(N as nat, input@).cells);
            assert(runner@.input =~= input@);
            assert(runner@.output =~= Seq::<u8>::empty());
        }
        runner
    }

    /// Increments the current cell.
    pub fn inc(&mut self)
        requires
            old(self).wf(),
        ensures
            final(self).wf(),
            final(self)@ == old(self)@.inc(),
    {
        let v = self.data[self.index];
        let w: u8 = if v == 255 { 0 } else { v + 1 };
        self.data[self.index] = w;
    }

    /// Decrements the current cell.
    pub fn dec(&mut self)
        requires
            old(self).wf(),
        ensures
            final(self).wf(),
            final(self)@ == old(self)@.dec(),
    {
        let v = self.data[self.index];
        let w: u8 = if v == 0 { 255 } else { v - 1 };
        self.data[self.index] = w;
    }

    /// Moves the pointer to the left.
    pub fn shl(&mut self)
        requires
            old(self).wf(),
        ensures
            final(self).wf(),
            final(self)@ == old(self)@.shl(),
    {
        if self.index == 0 {
            self.index = N - 1;
        } else {
            self.index = self.index - 1;
        }
    }

    /// Moves the pointer to the right.
    pub fn shr(&mut self)
        requires
            old(self).wf(),
        ensures
            final(self).wf(),
            final(self)@ == old(self)@.shr(),
    {
        if self.index == N - 1 {
            self.index = 0;
        } else {
            self.index = self.index + 1;
        }
    }

    /// Reads a value from input into the current cell.
    pub fn read(&mut self)
        requires
            old(self).wf(),
        ensures
            final(self).wf(),
            final(self)@ == old(self)@.read(),
    {
        let ghost before = self.input@;
        let v = match self.input.pop() {
            Some(v) => v,
            None => 0,
        };
        self.data[self.index] = v;
        proof {
            if before.len() > 0 {
                assert(self.input@.reverse() =~= before.reverse().drop_first());
            } else {
                assert(self.input@.reverse() =~= before.reverse());
            }
        }
    }

    /// Writes the value of the current cell into output.
    pub fn write(&mut self)
        requires
            old(self).wf(),
        ensures
            final(self).wf(),
            final(self)@ == old(self)@.write(),
    {
        let v = self.data[self.index];
        self.output.push(v);
    }

    /// Carries out the instructions of `list` in order.
    ///
    /// Returns how the run ended; the runner is left on the tape it stopped on.
    pub fn execute(&mut self, list: &Vec<Instruction>, budget: u64) -> (status: Status)
        requires
            old(self).wf(),
        ensures
            final(self).wf(),
            final(self)@ == run_list(nodes_of(list@), old(self)@, budget as nat).tape,
            status == run_list(nodes_of(list@), old(self)@, budget as nat).status,
        decreases budget, 1int,
    {
        let ghost nodes = nodes_of(list@);
        let ghost goal = run_list(nodes, self@, budget as nat);
        let mut i: usize = 0;
        proof {
            assert(nodes.skip(0) =~= nodes);
        }
        while i < list.len()
            invariant
                i <= list@.len(),
                nodes == nodes_of(list@),
                self.wf(),
                goal == run_list(nodes_of(list@), old(self)@, budget as nat),
                run_list(nodes.skip(i as int), self@, budget as nat) == goal,
            decreases list@.len() - i,
        {
            proof {
                assert(nodes.skip(i as int).drop_first() =~= nodes.skip(i as int + 1));
                assert(nodes.skip(i as int)[0] == list@[i as int]@);
            }
            match &list[i] {
                Instruction::Increment => self.inc(),
                Instruction::Decrement => self.dec(),
                Instruction::ShiftLeft => self.shl(),
                Instruction::ShiftRight => self.shr(),
                Instruction::Read => self.read(),
                Instruction::Write => self.write(),
                Instruction::Loop(body) => {
                    proof {
                        lemma_loop_view(*body);
                    }
                    let status = self.repeat(body, budget);
                    match status {
                        Status::Finished => {},
                        _ => {
                            return status;
                        },
                    }
                },
            }
            i = i + 1;
        }
        Status::Finished
    }

    /// Repeats `body` while the current cell is nonzero.
    ///
    /// Stops with `PointerMoved` when a pass over `body` leaves the pointer
    /// on another cell, and with `BudgetExhausted` when the cell is still
    /// nonzero after `budget` passes.
    pub fn repeat(&mut self, body: &Vec<Instruction>, budget: u64) -> (status: Status)
        requires
            old(self).wf(),
        ensures
            final(self).wf(),
            final(self)@ == run_loop(nodes_of(body@), old(self)@, budget as nat).tape,
            status == run_loop(nodes_of(body@), old(self)@, budget as nat).status,
        decreases budget, 0int,
    {
        let ghost nodes = nodes_of(body@);
        let ghost goal = run_loop(nodes, self@, budget as nat);
        let initial_index = self.index;
        let mut left = budget;
        while self.data[self.index] != 0
            invariant
                self.wf(),
                left <= budget,
                self.index == initial_index,
                nodes == nodes_of(body@),
                goal == run_loop(nodes_of(body@), old(self)@, budget as nat),
                run_loop(nodes, self@, left as nat) == goal,
            decreases left,
        {
            if left == 0 {
                return Status::BudgetExhausted;
            }
            left = left - 1;
            let status = self.execute(body, left);
            match status {
                Status::Finished => {},
                _ => {
                    return status;
                },
            }
            if self.index != initial_index {
                return Status::PointerMoved;
            }
        }
        Status::Finished
    }

    /// The cells around the pointer as text, for display: at most eight
    /// cells before the pointer's and seven after it, each as two
    /// hexadecimal digits, the pointer's between angle brackets.
    pub fn window(&self) -> (text: String)
        requires
            self.wf(),
        ensures
            text@ == cells_text(self@, window_start(self@), window_end(self@)),
    {
        let start: usize = if self.index >= 8 { self.index - 8 } else { 0 };
        let end: usize = if N - self.index >= 8 { self.index + 8 } else { N };
        let mut text = String::new();
        let mut i: usize = start;
        while i < end
            invariant
                self.wf(),
                start <= i <= end <= N,
                start <= self.index < end,
                text@ == cells_text(self@, start as int, i as int),
            decreases end - i,
        {
            let ghost before = text@;
            proof {
                reveal_strlit(" ");
                reveal_strlit("<");
                reveal_strlit(">");
            }
            if i > start {
                text.append(" ");
            }
            let value = self.data[i];
            if i == self.index {
                text.append("<");
            }
            text.append(hex_text(value / 16));
            text.append(hex_text(value % 16));
            if i == self.index {
                text.append(">");
            }
            proof {
                let shown = cell_text(value, i == self.index);
                if i > start {
                    assert(text@ =~= before + seq![' '] + shown);
                } else {
                    assert(text@ =~= shown);
                }
            }
            i = i + 1;
        }
        text
    }

    /// Consumes the runner, giving its tape, its pointer, the input that was
    /// not read (last byte first) and the output.
    pub fn into_inner(self) -> (parts: ([u8; N], usize, Vec<u8>, Vec<u8>))
        ensures
            parts.0@ == self@.cells,
            parts.1 == self@.pointer,
            parts.2@ == self@.input.reverse(),
            parts.3@ == self@.output,
    {
        proof {
            assert(self.input@.reverse().reverse() =~= self.input@);
        }
        (self.data, self.index, self.input, self.output)
    }
}

} // verus!
