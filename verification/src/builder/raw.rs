//! A builder that implements the single instructions.

use crate::compiler::{balance, closes_early, flatten, parse_tree, strip, Program};
use vstd::prelude::*;
use vstd::string::*;

verus! {

/// `count` copies of `c`.
pub open spec fn run_of(c: char, count: nat) -> Seq<char> {
    Seq::new(count, |i: int| c)
}

/// The shortest text that adds `value` to a cell: that many increments, or
/// from 129 on the decrements that wrap around to the same byte.
pub open spec fn add_code(value: u8) -> Seq<char> {
    if value > 128 {
        run_of('-', (256 - value) as nat)
    } else {
        run_of('+', value as nat)
    }
}

/// The shortest text that subtracts `value` from a cell.
pub open spec fn sub_code(value: u8) -> Seq<char> {
    if value > 128 {
        run_of('+', (256 - value) as nat)
    } else {
        run_of('-', value as nat)
    }
}

/// A builder that accumulates the text of a program.
#[derive(Debug)]
pub struct Builder {
    source: String,
}

impl View for Builder {
    type V = Seq<char>;

    /// The text built so far.
    closed spec fn view(&self) -> Seq<char> {
        self.source@
    }
}

impl Builder {
    /// Constructs a new `Builder` with no text.
    pub fn new() -> (builder: Self)
        ensures
            builder@ == Seq::<char>::empty(),
    {
        Self { source: String::new() }
    }

    /// Compiles the source code of this builder, returning an error if the source is malformed.
    pub fn compile(&self) -> (parsed: Result<Program, &'static str>)
        ensures
            match parsed {
                Ok(program) => !closes_early(self@) && balance(self@) == 0 && flatten(program@)
                    == strip(self@) && program@ == parse_tree(self@),
                Err(reason) => if closes_early(self@) {
                    reason@ == "unmatched closing bracket"@
                } else {
                    balance(self@) > 0 && reason@ == "unmatched opening bracket"@
                },
            },
    {
        Program::new(self.source.as_str())
    }

    /// Gets the source code of this builder.
    pub fn source(&self) -> (text: &str)
        ensures
            text@ == self@,
    {
        self.source.as_str()
    }

    /// Adds an increment command.
    pub fn inc(&mut self)
        ensures
            final(self)@ == old(self)@.push('+'),
    {
        proof {
            reveal_strlit("+");
        }
        self.source.append("+");
        assert(self@ =~= old(self)@.push('+'));
    }

    /// Adds several increment commands, or several decrement commands if `value > 128`.
    pub fn inc_by(&mut self, value: u8)
        ensures
            final(self)@ == old(self)@ + add_code(value),
    {
        let count: u16 = if value > 128 { 256 - value as u16 } else { value as u16 };
        let mut done: u16 = 0;
        while done < count
            invariant
                done <= count,
                count == if value > 128 { 256 - value } else { value as int },
                self@ == old(self)@ + run_of(if value > 128 { '-' } else { '+' }, done as nat),
            decreases count - done,
        {
            let ghost before = self@;
            if value > 128 {
                self.dec();
            } else {
                self.inc();
            }
            done = done + 1;
            assert(self@ =~= old(self)@ + run_of(
                if value > 128 { '-' } else { '+' },
                done as nat,
            ));
        }
    }

    /// Adds a decrement command.
    pub fn dec(&mut self)
        ensures
            final(self)@ == old(self)@.push('-'),
    {
        proof {
            reveal_strlit("-");
        }
        self.source.append("-");
        assert(self@ =~= old(self)@.push('-'));
    }

    /// Adds several decrement commands, or several increment commands if `value > 128`.
    pub fn dec_by(&mut self, value: u8)
        ensures
            final(self)@ == old(self)@ + sub_code(value),
    {
        let count: u16 = if value > 128 { 256 - value as u16 } else { value as u16 };
        let mut done: u16 = 0;
        while done < count
            invariant
                done <= count,
                count == if value > 128 { 256 - value } else { value as int },
                self@ == old(self)@ + run_of(if value > 128 { '+' } else { '-' }, done as nat),
            decreases count - done,
        {
            if value > 128 {
                self.inc();
            } else {
                self.dec();
            }
            done = done + 1;
            assert(self@ =~= old(self)@ + run_of(
                if value > 128 { '+' } else { '-' },
                done as nat,
            ));
        }
    }

    /// Adds a command to move the pointer left.
    pub fn shl(&mut self)
        ensures
            final(self)@ == old(self)@.push('<'),
    {
        proof {
            reveal_strlit("<");
        }
        self.source.append("<");
        assert(self@ =~= old(self)@.push('<'));
    }

    /// Adds a command to move the pointer right.
    pub fn shr(&mut self)
        ensures
            final(self)@ == old(self)@.push('>'),
    {
        proof {
            reveal_strlit(">");
        }
        self.source.append(">");
        assert(self@ =~= old(self)@.push('>'));
    }

    /// Adds a command to read input into the current cell.
    pub fn read(&mut self)
        ensures
            final(self)@ == old(self)@.push(','),
    {
        proof {
            reveal_strlit(",");
        }
        self.source.append(",");
        assert(self@ =~= old(self)@.push(','));
    }

    /// Adds a command to write the current cell into output.
    pub fn write(&mut self)
        ensures
            final(self)@ == old(self)@.push('.'),
    {
        proof {
            reveal_strlit(".");
        }
        self.source.append(".");
        assert(self@ =~= old(self)@.push('.'));
    }

    /// Adds the bracket that opens a loop.
    pub fn open_loop(&mut self)
        ensures
            final(self)@ == old(self)@.push('['),
    {
        proof {
            reveal_strlit("[");
        }
        self.source.append("[");
        assert(self@ =~= old(self)@.push('['));
    }

    /// Adds the bracket that closes a loop.
    pub fn close_loop(&mut self)
        ensures
            final(self)@ == old(self)@.push(']'),
    {
        proof {
            reveal_strlit("]");
        }
        self.source.append("]");
        assert(self@ =~= old(self)@.push(']'));
    }

    /// Repeats the commands inside while the current cell is nonzero.
    ///
    /// The text grows by an opening bracket, what `f` adds, and a closing
    /// bracket.
    pub fn repeat<F: FnOnce(&mut Self)>(&mut self, f: F)
        requires
            forall|b: &mut Self| b@ == old(self)@.push('[') ==> call_requires(f, (b,)),
        ensures
            exists|b: &mut Self|
                b@ == old(self)@.push('[') && #[trigger] call_ensures(f, (b,), ())
                    && final(self)@ == final(b)@.push(']'),
    {
        self.open_loop();
        f(self);
        self.close_loop();
    }
}

} // verus!
