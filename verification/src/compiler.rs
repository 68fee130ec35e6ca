//! The program text, its parsed form, and the parser between them.

use crate::runner::{run_list, Runner, Status, Tape};
use vstd::prelude::*;

verus! {

/// One instruction of a parsed program.
#[derive(Debug)]
pub enum Instruction {
    Increment,
    Decrement,
    ShiftLeft,
    ShiftRight,
    Read,
    Write,
    Loop(Vec<Instruction>),
}

/// The mathematical form of an instruction: a loop holds a sequence of nodes.
pub ghost enum Node {
    Increment,
    Decrement,
    ShiftLeft,
    ShiftRight,
    Read,
    Write,
    Loop(Seq<Node>),
}

impl View for Instruction {
    type V = Node;

    /// The instruction as a node; the body of a loop as the nodes of its
    /// instructions.
    open spec fn view(&self) -> Node
        decreases self,
    {
        match self {
            Instruction::Increment => Node::Increment,
            Instruction::Decrement => Node::Decrement,
            Instruction::ShiftLeft => Node::ShiftLeft,
            Instruction::ShiftRight => Node::ShiftRight,
            Instruction::Read => Node::Read,
            Instruction::Write => Node::Write,
            Instruction::Loop(body) => Node::Loop(
                Seq::new(
                    body@.len(),
                    |i: int|
                        if 0 <= i < body@.len() {
                            body@[i].view()
                        } else {
                            Node::Increment
                        },
                ),
            ),
        }
    }
}

/// The nodes of a list of instructions, in order.
pub open spec fn nodes_of(list: Seq<Instruction>) -> Seq<Node> {
    Seq::new(list.len(), |i: int| list[i]@)
}

/// The view of a loop instruction is the loop of the views of its body.
pub proof fn lemma_loop_view(body: Vec<Instruction>)
    ensures
        Instruction::Loop(body)@ == Node::Loop(nodes_of(body@)),
{
    assert(Instruction::Loop(body)@->Loop_0 =~= nodes_of(body@));
}

/// The characters that are instructions; every other character is a comment.
pub open spec fn is_command(c: char) -> bool {
    c == '+' || c == '-' || c == '<' || c == '>' || c == ',' || c == '.' || c == '[' || c == ']'
}

/// The text without its comments.
pub open spec fn strip(text: Seq<char>) -> Seq<char> {
    text.filter(|c: char| is_command(c))
}

/// Opening brackets minus closing brackets.
pub open spec fn balance(text: Seq<char>) -> int
    decreases text.len(),
{
    if text.len() == 0 {
        0
    } else {
        balance(text.drop_last()) + if text.last() == '[' {
            1int
        } else if text.last() == ']' {
            -1int
        } else {
            0int
        }
    }
}

/// Some closing bracket has no opening bracket before it.
pub open spec fn closes_early(text: Seq<char>) -> bool {
    exists|i: int| 0 <= i <= text.len() && #[trigger] balance(text.take(i)) < 0
}

/// The text of one instruction; a loop is its body between brackets.
pub open spec fn flatten_node(node: Node) -> Seq<char>
    decreases node,
{
    match node {
        Node::Increment => seq!['+'],
        Node::Decrement => seq!['-'],
        Node::ShiftLeft => seq!['<'],
        Node::ShiftRight => seq!['>'],
        Node::Read => seq![','],
        Node::Write => seq!['.'],
        Node::Loop(body) => seq!['['] + flatten(body) + seq![']'],
    }
}

/// The text of a program: the texts of its instructions, one after another.
pub open spec fn flatten(program: Seq<Node>) -> Seq<char>
    decreases program,
{
    if program.len() == 0 {
        Seq::empty()
    } else {
        flatten(program.drop_last()) + flatten_node(program.last())
    }
}

/// The state of a left-to-right scan: the lists still open, outermost
/// first, the list being filled, and whether a closing bracket came with
/// no list open.
pub ghost struct Scan {
    pub open: Seq<Seq<Node>>,
    pub current: Seq<Node>,
    pub failed: bool,
}

/// The instruction that a character other than a bracket stands for.
pub open spec fn leaf(c: char) -> Node {
    if c == '+' {
        Node::Increment
    } else if c == '-' {
        Node::Decrement
    } else if c == '<' {
        Node::ShiftLeft
    } else if c == '>' {
        Node::ShiftRight
    } else if c == ',' {
        Node::Read
    } else {
        Node::Write
    }
}

/// The scan before the first character: nothing open, nothing read.
pub open spec fn scan_start() -> Scan {
    Scan { open: Seq::empty(), current: Seq::empty(), failed: false }
}

/// The scan after one more character: an opening bracket sets the list
/// being filled aside and starts a new one, a closing bracket makes a loop
/// of the list being filled and adds it to the list set aside last, any
/// other instruction joins the list being filled, and a comment changes
/// nothing. A scan that has failed stays as it is.
pub open spec fn scan_step(state: Scan, c: char) -> Scan {
    if state.failed || !is_command(c) {
        state
    } else if c == '[' {
        Scan { open: state.open.push(state.current), current: Seq::empty(), failed: false }
    } else if c == ']' {
        if state.open.len() == 0 {
            Scan { failed: true, ..state }
        } else {
            Scan {
                open: state.open.drop_last(),
                current: state.open.last().push(Node::Loop(state.current)),
                failed: false,
            }
        }
    } else {
        Scan { current: state.current.push(leaf(c)), ..state }
    }
}

/// The scan that started in `state`, after the characters of `text`.
pub open spec fn scan_from(state: Scan, text: Seq<char>) -> Scan
    decreases text.len(),
{
    if text.len() == 0 {
        state
    } else {
        scan_step(scan_from(state, text.drop_last()), text.last())
    }
}

/// The text that the open lists of a scan stand for, each followed by its
/// opening bracket.
pub open spec fn flatten_open(open: Seq<Seq<Node>>) -> Seq<char>
    decreases open.len(),
{
    if open.len() == 0 {
        Seq::empty()
    } else {
        flatten_open(open.drop_last()) + flatten(open.last()) + seq!['[']
    }
}

/// The text of a program with one more instruction is the text of the
/// program followed by the text of the instruction.
pub proof fn lemma_flatten_push(program: Seq<Node>, node: Node)
    ensures
        flatten(program.push(node)) == flatten(program) + flatten_node(node),
{
    assert(program.push(node).drop_last() =~= program);
}

/// Scanning two texts one after the other is scanning their concatenation.
pub proof fn lemma_scan_concat(state: Scan, a: Seq<char>, b: Seq<char>)
    ensures
        scan_from(state, a + b) == scan_from(scan_from(state, a), b),
    decreases b.len(),
{
    if b.len() == 0 {
        assert(a + b =~= a);
    } else {
        assert((a + b).drop_last() =~= a + b.drop_last());
        lemma_scan_concat(state, a, b.drop_last());
    }
}

/// Scanning a text of one character is one step of the scan.
proof fn lemma_scan_one(state: Scan, c: char)
    ensures
        scan_from(state, seq![c]) == scan_step(state, c),
{
    reveal_with_fuel(scan_from, 2);
    assert(seq![c].drop_last() =~= Seq::<char>::empty());
    assert(seq![c].last() == c);
}

/// Scanning the text of a program appends the program to the list being filled.
pub proof fn lemma_scan_flatten(state: Scan, program: Seq<Node>)
    requires
        !state.failed,
    ensures
        scan_from(state, flatten(program)) == (Scan {
            current: state.current + program,
            ..state
        }),
    decreases program, 1int,
{
    if program.len() == 0 {
        assert(state.current + program =~= state.current);
    } else {
        let init = program.drop_last();
        let mid = Scan { current: state.current + init, ..state };
        lemma_scan_flatten(state, init);
        lemma_scan_concat(state, flatten(init), flatten_node(program.last()));
        lemma_scan_flatten_node(mid, program.last());
        assert((state.current + init).push(program.last()) =~= state.current + program);
    }
}

/// Scanning the text of an instruction appends the instruction to the
/// list being filled.
proof fn lemma_scan_flatten_node(state: Scan, node: Node)
    requires
        !state.failed,
    ensures
        scan_from(state, flatten_node(node)) == (Scan {
            current: state.current.push(node),
            ..state
        }),
    decreases node, 0int,
{
    match node {
        Node::Loop(body) => {
            let opened = Scan {
                open: state.open.push(state.current),
                current: Seq::empty(),
                failed: false,
            };
            let filled = Scan { current: body, ..opened };
            lemma_scan_concat(state, seq!['['] + flatten(body), seq![']']);
            lemma_scan_concat(state, seq!['['], flatten(body));
            lemma_scan_one(state, '[');
            lemma_scan_flatten(opened, body);
            assert(opened.current + body =~= body);
            lemma_scan_one(filled, ']');
            assert(filled.open.drop_last() =~= state.open);
        },
        Node::Increment => {
            lemma_scan_one(state, '+');
        },
        Node::Decrement => {
            lemma_scan_one(state, '-');
        },
        Node::ShiftLeft => {
            lemma_scan_one(state, '<');
        },
        Node::ShiftRight => {
            lemma_scan_one(state, '>');
        },
        Node::Read => {
            lemma_scan_one(state, ',');
        },
        Node::Write => {
            lemma_scan_one(state, '.');
        },
    }
}

/// Two programs with the same text are the same program.
pub proof fn lemma_flatten_injective(a: Seq<Node>, b: Seq<Node>)
    requires
        flatten(a) == flatten(b),
    ensures
        a == b,
{
    lemma_scan_flatten(scan_start(), a);
    lemma_scan_flatten(scan_start(), b);
    assert(scan_start().current + a =~= a);
    assert(scan_start().current + b =~= b);
}

/// A text closes early where the text without its last character does,
/// or where its own balance is negative.
proof fn lemma_closes_early_step(text: Seq<char>)
    requires
        text.len() > 0,
    ensures
        closes_early(text) <==> closes_early(text.drop_last()) || balance(text) < 0,
        !closes_early(text.drop_last()) ==> balance(text.drop_last()) >= 0,
{
    let prev = text.drop_last();
    assert(text.take(text.len() as int) =~= text);
    assert(prev.take(prev.len() as int) =~= prev);
    if closes_early(prev) {
        let i = choose|i: int| 0 <= i <= prev.len() && #[trigger] balance(prev.take(i)) < 0;
        assert(text.take(i) =~= prev.take(i));
    }
    if closes_early(text) {
        let i = choose|i: int| 0 <= i <= text.len() && #[trigger] balance(text.take(i)) < 0;
        if i < text.len() {
            assert(text.take(i) =~= prev.take(i));
        }
    }
}

/// What a scan of the whole text knows: it fails exactly where a bracket
/// closes early; otherwise as many lists are open as brackets are unmatched,
/// and what it holds is the text without its comments.
pub proof fn lemma_scan_facts(text: Seq<char>)
    ensures
        scan_from(scan_start(), text).failed <==> closes_early(text),
        !closes_early(text) ==> scan_from(scan_start(), text).open.len() == balance(text),
        !closes_early(text) ==> flatten_open(scan_from(scan_start(), text).open) + flatten(
            scan_from(scan_start(), text).current,
        ) == strip(text),
    decreases text.len(),
{
    reveal(Seq::filter);
    if text.len() == 0 {
        assert(text.take(0) =~= text);
        assert(flatten_open(Seq::<Seq<Node>>::empty()) + flatten(Seq::<Node>::empty())
            =~= strip(text));
        assert forall|i: int| 0 <= i <= text.len() implies !(#[trigger] balance(text.take(i))
            < 0) by {
            assert(text.take(i) =~= text);
        }
    } else {
        let prev = text.drop_last();
        let c = text.last();
        let before = scan_from(scan_start(), prev);
        let after = scan_from(scan_start(), text);
        lemma_scan_facts(prev);
        lemma_closes_early_step(text);
        if !before.failed {
            let done = flatten_open(before.open) + flatten(before.current);
            if !is_command(c) {
                assert(strip(text) =~= strip(prev));
            } else {
                assert(strip(text) =~= strip(prev).push(c));
                if c == '[' {
                    assert(after.open.drop_last() =~= before.open);
                    assert(flatten_open(after.open) + flatten(after.current) =~= done.push(c));
                } else if c == ']' {
                    if before.open.len() > 0 {
                        lemma_flatten_push(before.open.last(), Node::Loop(before.current));
                        assert(flatten_open(after.open) + flatten(after.current) =~= done.push(
                            c,
                        ));
                    }
                } else {
                    lemma_flatten_push(before.current, leaf(c));
                    assert(flatten_open(after.open) + flatten(after.current) =~= done.push(c));
                }
            }
        }
    }
}

/// The program that a well-bracketed text stands for.
pub open spec fn parse_tree(text: Seq<char>) -> Seq<Node> {
    scan_from(scan_start(), text).current
}

/// The text of a program stands for that program.
pub proof fn lemma_parse_tree_of_flatten(program: Seq<Node>)
    ensures
        parse_tree(flatten(program)) == program,
        !closes_early(flatten(program)),
        balance(flatten(program)) == 0,
{
    lemma_scan_flatten(scan_start(), program);
    lemma_scan_facts(flatten(program));
    assert(scan_start().current + program =~= program);
}

/// Parsing a text whose brackets match and flattening the result gives the
/// text back, without its comments.
pub proof fn lemma_flatten_of_parse_tree(text: Seq<char>)
    requires
        !closes_early(text),
        balance(text) == 0,
    ensures
        flatten(parse_tree(text)) == strip(text),
{
    let scanned = scan_from(scan_start(), text);
    lemma_scan_facts(text);
    assert(scanned.open =~= Seq::<Seq<Node>>::empty());
    assert(flatten_open(scanned.open) + flatten(scanned.current) =~= flatten(scanned.current));
}

/// The lists that a parser holds open, as nodes.
pub open spec fn open_nodes(stack: Seq<Vec<Instruction>>) -> Seq<Seq<Node>> {
    Seq::new(stack.len(), |i: int| nodes_of(stack[i]@))
}

/// A parsed program.
#[derive(Debug)]
pub struct Program {
    instructions: Vec<Instruction>,
}

impl View for Program {
    type V = Seq<Node>;

    /// The instructions of the program, as nodes.
    closed spec fn view(&self) -> Seq<Node> {
        nodes_of(self.instructions@)
    }
}

/// Scans the source once from left to right, keeping the lists that are
/// still open on a stack.
fn parse(source: &str) -> (parsed: Result<Program, &'static str>)
    ensures
        match parsed {
            Ok(program) => !closes_early(source@) && balance(source@) == 0 && flatten(program@)
                == strip(source@) && program@ == parse_tree(source@),
            Err(reason) => if closes_early(source@) {
                reason@ == "unmatched closing bracket"@
            } else {
                balance(source@) > 0 && reason@ == "unmatched opening bracket"@
            },
        },
{
    let mut all_lists: Vec<Vec<Instruction>> = Vec::new();
    let mut current_list: Vec<Instruction> = Vec::new();
    proof {
        assert(open_nodes(all_lists@) =~= scan_start().open);
        assert(nodes_of(current_list@) =~= scan_start().current);
    }
    for c in it: source.chars()
        invariant
            it.seq() == source@,
            scan_from(scan_start(), source@.take(it.index() as int)) == (Scan {
                open: open_nodes(all_lists@),
                current: nodes_of(current_list@),
                failed: false,
            }),
    {
        let ghost i = it.index() as int;
        let ghost before = scan_from(scan_start(), source@.take(i));
        let ghost old_lists = all_lists@;
        let ghost old_current = current_list@;
        proof {
            assert(source@.take(i + 1).drop_last() =~= source@.take(i));
            assert(source@.take(i + 1).last() == c);
        }
        if c == '+' {
            current_list.push(Instruction::Increment);
        } else if c == '-' {
            current_list.push(Instruction::Decrement);
        } else if c == '<' {
            current_list.push(Instruction::ShiftLeft);
        } else if c == '>' {
            current_list.push(Instruction::ShiftRight);
        } else if c == ',' {
            current_list.push(Instruction::Read);
        } else if c == '.' {
            current_list.push(Instruction::Write);
        } else if c == '[' {
            all_lists.push(current_list);
            current_list = Vec::new();
            proof {
                assert(open_nodes(all_lists@) =~= before.open.push(before.current));
                assert(nodes_of(current_list@) =~= Seq::<Node>::empty());
            }
        } else if c == ']' {
            let sub_instruction_list = current_list;
            match all_lists.pop() {
                None => {
                    proof {
                        let whole = source@;
                        let upto = whole.take(i + 1);
                        lemma_scan_facts(upto);
                        let j = choose|j: int|
                            0 <= j <= upto.len() && #[trigger] balance(upto.take(j)) < 0;
                        assert(whole.take(j) =~= upto.take(j));
                    }
                    return Err("unmatched closing bracket");
                },
                Some(last_instruction_list) => {
                    let mut last_instruction_list = last_instruction_list;
                    proof {
                        lemma_loop_view(sub_instruction_list);
                    }
                    last_instruction_list.push(Instruction::Loop(sub_instruction_list));
                    current_list = last_instruction_list;
                    proof {
                        assert(open_nodes(all_lists@) =~= before.open.drop_last());
                        assert(nodes_of(current_list@) =~= before.open.last().push(
                            Node::Loop(before.current),
                        ));
                    }
                },
            }
        }
        proof {
            if c != '[' && c != ']' && is_command(c) {
                assert(nodes_of(current_list@) =~= before.current.push(leaf(c)));
            }
        }
    }
    proof {
        assert(source@.take(source@.len() as int) =~= source@);
        lemma_scan_facts(source@);
        assert(flatten_open(Seq::<Seq<Node>>::empty()) + flatten(nodes_of(current_list@))
            =~= flatten(nodes_of(current_list@)));
    }
    if all_lists.len() != 0 {
        Err("unmatched opening bracket")
    } else {
        Ok(Program { instructions: current_list })
    }
}

impl Program {
    /// Attempts to parse a program source, returning an error if it is malformed.
    ///
    /// `"unmatched closing bracket"` comes where some closing bracket has no
    /// opening bracket before it, `"unmatched opening bracket"` where none
    /// has but an opening bracket is never closed. Otherwise the program's
    /// text is the source without its comments.
    pub fn new(source: &str) -> (parsed: Result<Self, &'static str>)
        ensures
            match parsed {
                Ok(program) => !closes_early(source@) && balance(source@) == 0 && flatten(
                    program@,
                ) == strip(source@) && program@ == parse_tree(source@),
                Err(reason) => if closes_early(source@) {
                    reason@ == "unmatched closing bracket"@
                } else {
                    balance(source@) > 0 && reason@ == "unmatched opening bracket"@
                },
            },
    {
        parse(source)
    }

    /// Runs the program on a zeroed tape of `N` cells with the given input.
    ///
    /// Returns the machine as the run left it, and how the run ended. A
    /// loop that is entered with budget `b` may begin at most `b` passes,
    /// and the pass after `k` others runs its body with budget `b - k - 1`;
    /// the program itself runs with `budget`.
    pub fn run<const N: usize>(&self, input: &[u8], budget: u64) -> (end: (Runner<N>, Status))
        requires
            N > 0,
        ensures
            end.0.wf(),
            end.0@ == run_list(self@, Tape::initial(N as nat, input@), budget as nat).tape,
            end.1 == run_list(self@, Tape::initial(N as nat, input@), budget as nat).status,
    {
        let mut runner = Runner::new(input);
        let status = runner.execute(&self.instructions, budget);
        (runner, status)
    }
}

} // verus!
