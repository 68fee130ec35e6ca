//! Text whose loops bring the pointer back to where they began.
//!
//! A loop of the machine has to end each pass on the cell it began on. For
//! text that is built with that in mind this can be told from the text
//! alone: it says how far the pointer travels, and a loop whose body
//! travels nowhere can never be caught with the pointer moved.

use crate::compiler::{
    balance, closes_early, is_command, leaf, lemma_scan_facts, parse_tree, scan_from, scan_start,
    scan_step, Node, Scan,
};
use crate::builder::raw::run_of;
use crate::runner::{run_list, run_loop, Status, Tape};
use vstd::arithmetic::div_mod::{lemma_add_mod_noop_right, lemma_small_mod};
use vstd::prelude::*;

verus! {

/// How far one instruction moves the pointer: one to the right, one to the
/// left, or, for every other instruction and for a loop, not at all.
pub open spec fn travel_of(node: Node) -> int {
    match node {
        Node::ShiftRight => 1,
        Node::ShiftLeft => -1,
        _ => 0,
    }
}

/// How far the instructions move the pointer, loops not counted.
pub open spec fn net_travel(nodes: Seq<Node>) -> int
    decreases nodes.len(),
{
    if nodes.len() == 0 {
        0
    } else {
        net_travel(nodes.drop_last()) + travel_of(nodes.last())
    }
}

/// A loop is steady where its body is and travels nowhere; every other
/// instruction is steady.
pub open spec fn steady_node(node: Node) -> bool
    decreases node,
{
    match node {
        Node::Loop(body) => steady(body) && net_travel(body) == 0,
        _ => true,
    }
}

/// Every instruction is steady.
pub open spec fn steady(nodes: Seq<Node>) -> bool
    decreases nodes,
{
    if nodes.len() == 0 {
        true
    } else {
        steady(nodes.drop_last()) && steady_node(nodes.last())
    }
}

/// Each of the lists is steady.
pub open spec fn steady_all(lists: Seq<Seq<Node>>) -> bool {
    forall|k: int| 0 <= k < lists.len() ==> steady(#[trigger] lists[k])
}

/// How far the lists move the pointer, one after the other.
pub open spec fn travel_all(lists: Seq<Seq<Node>>) -> int
    decreases lists.len(),
{
    if lists.len() == 0 {
        0
    } else {
        travel_all(lists.drop_last()) + net_travel(lists.last())
    }
}

/// The text can be scanned, and every loop in it that is closed is steady.
pub open spec fn sound(code: Seq<char>) -> bool {
    let scanned = scan_from(scan_start(), code);
    !scanned.failed && steady_all(scanned.open) && steady(scanned.current)
}

/// How far sound text moves the pointer.
pub open spec fn reach(code: Seq<char>) -> int {
    let scanned = scan_from(scan_start(), code);
    travel_all(scanned.open) + net_travel(scanned.current)
}

/// How far the first `k + 1` lists move the pointer.
pub open spec fn anchor_at(lists: Seq<Seq<Node>>, k: int) -> int {
    travel_all(lists.take(k + 1))
}

/// How far sound text has moved the pointer at each of its brackets that
/// are still open, outermost first.
pub open spec fn anchors(code: Seq<char>) -> Seq<int> {
    let open = scan_from(scan_start(), code).open;
    Seq::new(open.len(), |k: int| anchor_at(open, k))
}

/// The text is sound and takes the pointer from cell 0 to `position`,
/// which is a cell of a tape of `size` cells where there is such a tape.
pub open spec fn in_step(code: Seq<char>, position: nat, size: nat) -> bool {
    sound(code) && reach(code) == position && (size > 0 ==> position < size)
}

/// Text without a character is in step with the pointer on cell 0, and has
/// no anchors.
pub proof fn lemma_empty_in_step(size: nat)
    ensures
        in_step(Seq::<char>::empty(), 0, size),
        anchors(Seq::<char>::empty()) == Seq::<int>::empty(),
{
    assert(anchors(Seq::<char>::empty()) =~= Seq::<int>::empty());
}

/// How far a character moves the pointer.
pub open spec fn travel_of_char(c: char) -> int {
    if c == '>' {
        1
    } else if c == '<' {
        -1
    } else {
        0
    }
}

/// Steadiness and travel of a list with one more instruction.
pub proof fn lemma_steady_push(nodes: Seq<Node>, node: Node)
    ensures
        steady(nodes.push(node)) == (steady(nodes) && steady_node(node)),
        net_travel(nodes.push(node)) == net_travel(nodes) + travel_of(node),
{
    assert(nodes.push(node).drop_last() =~= nodes);
}

/// What one more character does to sound text: an opening bracket sets an
/// anchor where the pointer is, a closing bracket with the pointer on the
/// last anchor takes that anchor away, and every other character moves the
/// pointer as it says and leaves the anchors alone.
pub proof fn lemma_sound_push(code: Seq<char>, c: char)
    requires
        sound(code),
        c == ']' ==> anchors(code).len() > 0 && anchors(code).last() == reach(code),
    ensures
        sound(code.push(c)),
        reach(code.push(c)) == reach(code) + travel_of_char(c),
        c == '[' ==> anchors(code.push(c)) == anchors(code).push(reach(code)),
        c == ']' ==> anchors(code.push(c)) == anchors(code).drop_last(),
        c != '[' && c != ']' ==> anchors(code.push(c)) == anchors(code),
{
    let before = scan_from(scan_start(), code);
    let after = scan_from(scan_start(), code.push(c));
    assert(code.push(c).drop_last() =~= code);
    assert(after == scan_step(before, c));
    if !is_command(c) {
    } else if c == '[' {
        assert(after.open.drop_last() =~= before.open);
        assert(net_travel(Seq::<Node>::empty()) == 0);
        assert(anchors(code.push(c)) =~= anchors(code).push(reach(code))) by {
            assert forall|k: int| 0 <= k < before.open.len() implies #[trigger] anchor_at(
                after.open,
                k,
            ) == anchor_at(before.open, k) by {
                assert(after.open.take(k + 1) =~= before.open.take(k + 1));
            }
            assert(after.open.take(after.open.len() as int) =~= after.open);
        }
    } else if c == ']' {
        let last = before.open.len() - 1;
        assert(before.open.take(last + 1) =~= before.open);
        assert(net_travel(before.current) == 0);
        lemma_steady_push(before.open.last(), Node::Loop(before.current));
        assert(anchors(code.push(c)) =~= anchors(code).drop_last()) by {
            assert forall|k: int| 0 <= k < after.open.len() implies #[trigger] anchor_at(
                after.open,
                k,
            ) == anchor_at(before.open, k) by {
                assert(after.open.take(k + 1) =~= before.open.take(k + 1));
            }
        }
    } else {
        lemma_steady_push(before.current, leaf(c));
    }
}

/// Sound text followed by a run of one character that is no bracket is
/// sound; the pointer travels as far as the run says, and the anchors stay.
pub proof fn lemma_sound_run_of(code: Seq<char>, c: char, count: nat)
    requires
        sound(code),
        c != '[',
        c != ']',
    ensures
        sound(code + run_of(c, count)),
        reach(code + run_of(c, count)) == reach(code) + count * travel_of_char(c),
        anchors(code + run_of(c, count)) == anchors(code),
    decreases count,
{
    if count == 0 {
        assert(code + run_of(c, count) =~= code);
    } else {
        let shorter = code + run_of(c, (count - 1) as nat);
        lemma_sound_run_of(code, c, (count - 1) as nat);
        lemma_sound_push(shorter, c);
        assert(code + run_of(c, count) =~= shorter.push(c));
        assert((count - 1) * travel_of_char(c) + travel_of_char(c) == count * travel_of_char(c))
            by (nonlinear_arith);
    }
}

/// The first instruction of a steady list is steady and so is the rest,
/// and the list travels as far as the first instruction and then the rest.
pub proof fn lemma_steady_front(nodes: Seq<Node>)
    requires
        nodes.len() > 0,
    ensures
        steady(nodes) == (steady_node(nodes[0]) && steady(nodes.drop_first())),
        net_travel(nodes) == travel_of(nodes[0]) + net_travel(nodes.drop_first()),
    decreases nodes.len(),
{
    if nodes.len() == 1 {
        assert(nodes.drop_last() =~= Seq::<Node>::empty());
        assert(nodes.drop_first() =~= Seq::<Node>::empty());
        assert(steady(nodes.drop_last()));
        assert(net_travel(nodes.drop_last()) == 0);
    } else {
        lemma_steady_front(nodes.drop_last());
        assert(nodes.drop_last().drop_first() =~= nodes.drop_first().drop_last());
        assert(nodes.drop_last()[0] == nodes[0]);
        assert(nodes.drop_first().last() == nodes.last());
    }
}

/// Where the pointer is after it went `by` cells round a tape of `len`.
pub open spec fn wrapped(pointer: int, by: int, len: int) -> int {
    (pointer + by) % len
}

/// Going round the tape in two legs is going round it by their sum.
proof fn lemma_wrapped_twice(pointer: int, first: int, second: int, len: int)
    requires
        len > 0,
    ensures
        wrapped(wrapped(pointer, first, len), second, len) == wrapped(
            pointer,
            first + second,
            len,
        ),
        0 <= wrapped(pointer, first, len) < len,
{
    lemma_add_mod_noop_right(second, pointer + first, len);
    assert(second + (pointer + first) == pointer + (first + second));
    assert(wrapped(pointer, first, len) + second == second + (pointer + first) % len);
    vstd::arithmetic::div_mod::lemma_mod_bound(pointer + first, len);
}

/// One step of an instruction that is no loop moves the pointer as far
/// round the tape as the instruction says.
proof fn lemma_step_travel(tape: Tape, node: Node)
    requires
        tape.wf(),
        !(node is Loop),
    ensures
        tape.step(node).wf(),
        tape.step(node).cells.len() == tape.cells.len(),
        tape.step(node).pointer == wrapped(
            tape.pointer as int,
            travel_of(node),
            tape.cells.len() as int,
        ),
{
    let len = tape.cells.len();
    let p = tape.pointer;
    lemma_small_mod(p, len);
    match node {
        Node::ShiftRight => {
            if p + 1 == len {
                vstd::arithmetic::div_mod::lemma_mod_self_0(len as int);
            } else {
                lemma_small_mod(p + 1, len);
            }
        },
        Node::ShiftLeft => {
            if p == 0 {
                vstd::arithmetic::div_mod::lemma_mod_add_multiples_vanish(-1, len as int);
                lemma_small_mod((len - 1) as nat, len);
            } else {
                lemma_small_mod((p - 1) as nat, len);
            }
        },
        _ => {},
    }
}

/// A steady program is never caught with the pointer moved, and where it
/// finishes the pointer has gone as far round the tape as the program
/// travels.
pub proof fn lemma_steady_run(nodes: Seq<Node>, tape: Tape, budget: nat)
    requires
        tape.wf(),
        steady(nodes),
    ensures
        run_list(nodes, tape, budget).status != Status::PointerMoved,
        run_list(nodes, tape, budget).tape.wf(),
        run_list(nodes, tape, budget).tape.cells.len() == tape.cells.len(),
        run_list(nodes, tape, budget).status == Status::Finished ==> run_list(
            nodes,
            tape,
            budget,
        ).tape.pointer == wrapped(tape.pointer as int, net_travel(nodes), tape.cells.len() as int),
    decreases budget, 1int, nodes.len(),
{
    let len = tape.cells.len() as int;
    if nodes.len() == 0 {
        lemma_small_mod(tape.pointer, tape.cells.len());
    } else {
        lemma_steady_front(nodes);
        let rest = nodes.drop_first();
        match nodes[0] {
            Node::Loop(body) => {
                lemma_steady_loop(body, tape, budget);
                let looped = run_loop(body, tape, budget);
                if looped.status == Status::Finished {
                    lemma_steady_run(rest, looped.tape, budget);
                }
            },
            simple => {
                lemma_step_travel(tape, simple);
                lemma_steady_run(rest, tape.step(simple), budget);
                lemma_wrapped_twice(
                    tape.pointer as int,
                    travel_of(simple),
                    net_travel(rest),
                    len,
                );
            },
        }
    }
}

/// A loop with a steady body that travels nowhere is never caught with the
/// pointer moved, and ends with the pointer where it began.
pub proof fn lemma_steady_loop(body: Seq<Node>, tape: Tape, budget: nat)
    requires
        tape.wf(),
        steady(body),
        net_travel(body) == 0,
    ensures
        run_loop(body, tape, budget).status != Status::PointerMoved,
        run_loop(body, tape, budget).tape.wf(),
        run_loop(body, tape, budget).tape.cells.len() == tape.cells.len(),
        run_loop(body, tape, budget).status == Status::Finished ==> run_loop(
            body,
            tape,
            budget,
        ).tape.pointer == tape.pointer,
    decreases budget, 0int, 0nat,
{
    if tape.current() != 0 && budget > 0 {
        let once = run_list(body, tape, (budget - 1) as nat);
        lemma_steady_run(body, tape, (budget - 1) as nat);
        lemma_small_mod(tape.pointer, tape.cells.len());
        if once.status == Status::Finished {
            lemma_steady_loop(body, once.tape, (budget - 1) as nat);
        }
    }
}

/// Sound text with every bracket closed is never caught with the pointer
/// moved, and where it finishes the pointer has gone as far round the
/// tape as the text says.
pub proof fn lemma_sound_run(code: Seq<char>, tape: Tape, budget: nat)
    requires
        sound(code),
        !closes_early(code),
        balance(code) == 0,
        tape.wf(),
    ensures
        run_list(parse_tree(code), tape, budget).status != Status::PointerMoved,
        run_list(parse_tree(code), tape, budget).status == Status::Finished ==> run_list(
            parse_tree(code),
            tape,
            budget,
        ).tape.pointer == wrapped(tape.pointer as int, reach(code), tape.cells.len() as int),
{
    let scanned = scan_from(scan_start(), code);
    lemma_scan_facts(code);
    assert(scanned.open =~= Seq::<Seq<Node>>::empty());
    lemma_steady_run(parse_tree(code), tape, budget);
}

} // verus!
