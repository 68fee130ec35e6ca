//! What the text of the cell operations does when it runs.

use super::cell_bool::bool_byte;
use super::session::{
    lemma_first_free, lemma_free_count_bounds, lemma_free_count_update, Session,
};
use crate::builder::raw::{add_code, run_of, sub_code};
use crate::builder::tracking::{set_code, shift_code, zero_code};
use crate::compiler::{
    balance, closes_early, flatten, flatten_node, lemma_scan_concat, lemma_scan_facts,
    lemma_scan_flatten, parse_tree, scan_from, scan_start, Node,
};
use crate::runner::{lemma_run_concat, run_list, run_loop, Outcome, Status, Tape};
use vstd::prelude::*;

verus! {

/// `count` copies of `node`.
pub open spec fn repeat_node(node: Node, count: nat) -> Seq<Node> {
    Seq::new(count, |i: int| node)
}

/// The instructions of `shift_code`.
pub open spec fn shift_nodes(from: nat, to: nat) -> Seq<Node> {
    if to < from {
        repeat_node(Node::ShiftLeft, (from - to) as nat)
    } else {
        repeat_node(Node::ShiftRight, (to - from) as nat)
    }
}

/// The instructions of `add_code`.
pub open spec fn add_nodes(value: u8) -> Seq<Node> {
    if value > 128 {
        repeat_node(Node::Decrement, (256 - value) as nat)
    } else {
        repeat_node(Node::Increment, value as nat)
    }
}

/// The instructions of `sub_code`.
pub open spec fn sub_nodes(value: u8) -> Seq<Node> {
    if value > 128 {
        repeat_node(Node::Increment, (256 - value) as nat)
    } else {
        repeat_node(Node::Decrement, value as nat)
    }
}

/// The instructions of `zero_code`.
pub open spec fn zero_nodes() -> Seq<Node> {
    seq![Node::Loop(seq![Node::Decrement])]
}

/// The tape with the pointer on `slot`.
pub open spec fn point_at(tape: Tape, slot: nat) -> Tape {
    Tape { pointer: slot, ..tape }
}

/// The tape with `value` in cell `slot`.
pub open spec fn with_cell(tape: Tape, slot: nat, value: u8) -> Tape {
    Tape { cells: tape.cells.update(slot as int, value), ..tape }
}

/// The byte that `a + b` wraps to.
pub open spec fn wrap(sum: int) -> u8 {
    (sum % 256) as u8
}

/// A run that carried out every instruction and stopped on `tape`.
pub open spec fn finished(tape: Tape) -> Outcome {
    Outcome { tape, status: Status::Finished }
}

/// The text of two programs one after the other is the one text followed
/// by the other.
pub proof fn lemma_flatten_concat(first: Seq<Node>, second: Seq<Node>)
    ensures
        flatten(first + second) == flatten(first) + flatten(second),
    decreases second.len(),
{
    if second.len() == 0 {
        assert(first + second =~= first);
        assert(flatten(first) + flatten(second) =~= flatten(first));
    } else {
        assert((first + second).drop_last() =~= first + second.drop_last());
        lemma_flatten_concat(first, second.drop_last());
        assert(flatten(first + second) =~= flatten(first) + flatten(second));
    }
}

/// The text of a program of one instruction is the text of that instruction.
pub proof fn lemma_flatten_one(node: Node)
    ensures
        flatten(seq![node]) == flatten_node(node),
{
    assert(seq![node].drop_last() =~= Seq::<Node>::empty());
    assert(flatten(seq![node].drop_last()) =~= Seq::<char>::empty());
    assert(flatten(seq![node]) =~= flatten_node(node));
}

/// The text of a run of one instruction that is no loop is a run of its character.
pub proof fn lemma_flatten_repeat(node: Node, c: char, count: nat)
    requires
        flatten_node(node) == seq![c],
    ensures
        flatten(repeat_node(node, count)) == run_of(c, count),
    decreases count,
{
    if count == 0 {
        assert(flatten(repeat_node(node, count)) =~= run_of(c, count));
    } else {
        lemma_flatten_repeat(node, c, (count - 1) as nat);
        assert(repeat_node(node, count).drop_last() =~= repeat_node(node, (count - 1) as nat));
        assert(flatten(repeat_node(node, count)) =~= run_of(c, count));
    }
}

/// The text of `shift_nodes` is `shift_code`.
pub proof fn lemma_flatten_shift(from: nat, to: nat)
    ensures
        flatten(shift_nodes(from, to)) == shift_code(from, to),
{
    if to < from {
        lemma_flatten_repeat(Node::ShiftLeft, '<', (from - to) as nat);
    } else {
        lemma_flatten_repeat(Node::ShiftRight, '>', (to - from) as nat);
    }
}

/// The texts of `add_nodes` and `sub_nodes` are `add_code` and `sub_code`.
pub proof fn lemma_flatten_add(value: u8)
    ensures
        flatten(add_nodes(value)) == add_code(value),
        flatten(sub_nodes(value)) == sub_code(value),
{
    if value > 128 {
        lemma_flatten_repeat(Node::Decrement, '-', (256 - value) as nat);
        lemma_flatten_repeat(Node::Increment, '+', (256 - value) as nat);
    } else {
        lemma_flatten_repeat(Node::Increment, '+', value as nat);
        lemma_flatten_repeat(Node::Decrement, '-', value as nat);
    }
}

/// The text of a loop is the text of its body between brackets.
pub proof fn lemma_flatten_loop(body: Seq<Node>)
    ensures
        flatten(seq![Node::Loop(body)]) == seq!['['] + flatten(body) + seq![']'],
{
    lemma_flatten_one(Node::Loop(body));
}

/// The text of `zero_nodes` is `zero_code`.
pub proof fn lemma_flatten_zero()
    ensures
        flatten(zero_nodes()) == zero_code(),
{
    lemma_flatten_loop(seq![Node::Decrement]);
    lemma_flatten_one(Node::Decrement);
    assert(flatten(zero_nodes()) =~= zero_code());
}

/// Text that stands for a whole program: every bracket has its partner.
pub open spec fn complete(code: Seq<char>) -> bool {
    !closes_early(code) && balance(code) == 0
}

/// A complete text followed by the text of a program is complete, and
/// stands for the one program followed by the other.
pub proof fn lemma_parse_appended(code: Seq<char>, tail: Seq<Node>)
    requires
        complete(code),
    ensures
        complete(code + flatten(tail)),
        parse_tree(code + flatten(tail)) == parse_tree(code) + tail,
{
    let scanned = scan_from(scan_start(), code);
    lemma_scan_facts(code);
    lemma_scan_concat(scan_start(), code, flatten(tail));
    lemma_scan_flatten(scanned, tail);
    lemma_scan_facts(code + flatten(tail));
}

/// Where the text so far runs from `start` to `tape`, and `tail` runs from
/// `tape` to `end`, the text with the text of `tail` added runs from
/// `start` to `end`.
pub proof fn lemma_run_appended(
    code: Seq<char>,
    tail: Seq<Node>,
    start: Tape,
    tape: Tape,
    end: Tape,
    budget: nat,
)
    requires
        complete(code),
        run_list(parse_tree(code), start, budget) == finished(tape),
        run_list(tail, tape, budget) == finished(end),
    ensures
        complete(code + flatten(tail)),
        run_list(parse_tree(code + flatten(tail)), start, budget) == finished(end),
{
    lemma_parse_appended(code, tail);
    lemma_run_concat(parse_tree(code), tail, start, budget);
}

/// A run of right shifts that stays on the tape moves the pointer that far.
pub proof fn lemma_run_shift(from: nat, to: nat, tape: Tape, budget: nat)
    requires
        tape.pointer == from,
        from < tape.cells.len(),
        to < tape.cells.len(),
    ensures
        run_list(shift_nodes(from, to), tape, budget) == finished(point_at(tape, to)),
    decreases
            if to < from {
                from - to
            } else {
                to - from
            },
{
    let nodes = shift_nodes(from, to);
    if from == to {
        assert(nodes.len() == 0);
    } else if to < from {
        assert(nodes[0] == Node::ShiftLeft);
        assert(nodes.drop_first() =~= shift_nodes((from - 1) as nat, to));
        lemma_run_shift((from - 1) as nat, to, tape.shl(), budget);
    } else {
        assert(nodes[0] == Node::ShiftRight);
        assert(nodes.drop_first() =~= shift_nodes(from + 1, to));
        lemma_run_shift(from + 1, to, tape.shr(), budget);
    }
}

/// A run of increments adds their number to the current cell, wrapping.
pub proof fn lemma_run_increments(count: nat, tape: Tape, budget: nat)
    requires
        tape.wf(),
    ensures
        run_list(repeat_node(Node::Increment, count), tape, budget) == finished(
            tape.store(wrap(tape.current() + count)),
        ),
    decreases count,
{
    let nodes = repeat_node(Node::Increment, count);
    if count == 0 {
        assert(tape.store(wrap(tape.current() + count)) == tape) by {
            assert(tape.cells.update(tape.pointer as int, tape.current()) =~= tape.cells);
        }
    } else {
        assert(nodes[0] == Node::Increment);
        assert(nodes.drop_first() =~= repeat_node(Node::Increment, (count - 1) as nat));
        lemma_run_increments((count - 1) as nat, tape.inc(), budget);
        assert(tape.inc().store(wrap(tape.inc().current() + (count - 1))) == tape.store(
            wrap(tape.current() + count),
        )) by {
            assert(tape.inc().cells.update(
                tape.pointer as int,
                wrap(tape.inc().current() + (count - 1)),
            ) =~= tape.cells.update(tape.pointer as int, wrap(tape.current() + count)));
        }
    }
}

/// A run of decrements subtracts their number from the current cell, wrapping.
pub proof fn lemma_run_decrements(count: nat, tape: Tape, budget: nat)
    requires
        tape.wf(),
    ensures
        run_list(repeat_node(Node::Decrement, count), tape, budget) == finished(
            tape.store(wrap(tape.current() - count)),
        ),
    decreases count,
{
    let nodes = repeat_node(Node::Decrement, count);
    if count == 0 {
        assert(tape.store(wrap(tape.current() - count)) == tape) by {
            assert(tape.cells.update(tape.pointer as int, tape.current()) =~= tape.cells);
        }
    } else {
        assert(nodes[0] == Node::Decrement);
        assert(nodes.drop_first() =~= repeat_node(Node::Decrement, (count - 1) as nat));
        lemma_run_decrements((count - 1) as nat, tape.dec(), budget);
        assert(tape.dec().store(wrap(tape.dec().current() - (count - 1))) == tape.store(
            wrap(tape.current() - count),
        )) by {
            assert(tape.dec().cells.update(
                tape.pointer as int,
                wrap(tape.dec().current() - (count - 1)),
            ) =~= tape.cells.update(tape.pointer as int, wrap(tape.current() - count)));
        }
    }
}

/// The shortest run that adds `value` adds `value`, wrapping.
pub proof fn lemma_run_add(value: u8, tape: Tape, budget: nat)
    requires
        tape.wf(),
    ensures
        run_list(add_nodes(value), tape, budget) == finished(
            tape.store(wrap(tape.current() + value)),
        ),
        run_list(sub_nodes(value), tape, budget) == finished(
            tape.store(wrap(tape.current() - value)),
        ),
{
    if value > 128 {
        lemma_run_decrements((256 - value) as nat, tape, budget);
        lemma_run_increments((256 - value) as nat, tape, budget);
    } else {
        lemma_run_increments(value as nat, tape, budget);
        lemma_run_decrements(value as nat, tape, budget);
    }
}

/// The clearing loop leaves zero in the current cell, given a budget of
/// at least what the cell holds.
pub proof fn lemma_run_zero(tape: Tape, budget: nat)
    requires
        tape.wf(),
        budget >= tape.current(),
    ensures
        run_list(zero_nodes(), tape, budget) == finished(tape.store(0)),
{
    lemma_zero_loop(tape, budget);
    reveal_with_fuel(run_list, 2);
    assert(zero_nodes()[0] == Node::Loop(seq![Node::Decrement]));
    assert(zero_nodes().drop_first() =~= Seq::<Node>::empty());
}

/// The loop of `zero_nodes` runs as often as the cell says and leaves zero.
proof fn lemma_zero_loop(tape: Tape, budget: nat)
    requires
        tape.wf(),
        budget >= tape.current(),
    ensures
        run_loop(seq![Node::Decrement], tape, budget) == finished(tape.store(0)),
    decreases tape.current(),
{
    let body = seq![Node::Decrement];
    if tape.current() == 0 {
        assert(tape.cells.update(tape.pointer as int, 0u8) =~= tape.cells);
    } else {
        assert(body.drop_first() =~= Seq::<Node>::empty());
        reveal_with_fuel(run_list, 2);
        assert(run_list(body, tape, (budget - 1) as nat) == finished(tape.dec()));
        lemma_zero_loop(tape.dec(), (budget - 1) as nat);
        assert(tape.dec().cells.update(tape.pointer as int, 0u8) =~= tape.cells.update(
            tape.pointer as int,
            0u8,
        ));
    }
}

/// The instructions that `set` adds for a cell at `slot`, with the pointer on `from`.
pub open spec fn set_nodes(from: nat, slot: nat, value: u8) -> Seq<Node> {
    shift_nodes(from, slot) + zero_nodes() + add_nodes(value)
}

/// The text that the session gains by `set` is the text of `set_nodes`.
pub proof fn lemma_set_code(before: Session, slot: nat, value: u8)
    ensures
        before.at(slot, set_code(value)).code == before.code + flatten(
            set_nodes(before.position, slot, value),
        ),
{
    lemma_flatten_shift(before.position, slot);
    lemma_flatten_zero();
    lemma_flatten_add(value);
    lemma_flatten_concat(shift_nodes(before.position, slot), zero_nodes());
    lemma_flatten_concat(shift_nodes(before.position, slot) + zero_nodes(), add_nodes(value));
    assert(before.at(slot, set_code(value)).code =~= before.code + flatten(
        set_nodes(before.position, slot, value),
    ));
}

/// Run with the pointer on `from`, the instructions of `set` leave `value`
/// in cell `slot`, with the pointer on it and nothing else changed.
pub proof fn lemma_set_runs(from: nat, slot: nat, value: u8, tape: Tape, budget: nat)
    requires
        tape.pointer == from,
        from < tape.cells.len(),
        slot < tape.cells.len(),
        budget >= 255,
    ensures
        run_list(set_nodes(from, slot, value), tape, budget) == finished(
            point_at(with_cell(tape, slot, value), slot),
        ),
{
    let there = point_at(tape, slot);
    lemma_run_shift(from, slot, tape, budget);
    lemma_run_zero(there, budget);
    lemma_run_add(value, there.store(0), budget);
    lemma_run_concat(shift_nodes(from, slot), zero_nodes(), tape, budget);
    lemma_run_concat(shift_nodes(from, slot) + zero_nodes(), add_nodes(value), tape, budget);
    assert(there.store(0).store(wrap(there.store(0).current() + value)) == point_at(
        with_cell(tape, slot, value),
        slot,
    )) by {
        assert(there.store(0).cells.update(slot as int, wrap(0 + value)) =~= tape.cells.update(
            slot as int,
            value,
        ));
    }
}

/// Setting a cell to `value` and running the program leaves `value` in the cell.
///
/// Where the text built so far is complete and runs from `start` to `tape`
/// with the pointer where the session has it, the text after `set` runs
/// from `start` to the same tape with `value` in the cell's slot and the
/// pointer on it, where the session has it again.
pub proof fn lemma_set_then_run(
    before: Session,
    slot: nat,
    value: u8,
    start: Tape,
    tape: Tape,
    budget: nat,
)
    requires
        complete(before.code),
        run_list(parse_tree(before.code), start, budget) == finished(tape),
        tape.pointer == before.position,
        before.position < tape.cells.len(),
        slot < tape.cells.len(),
        budget >= 255,
    ensures
        complete(before.at(slot, set_code(value)).code),
        run_list(parse_tree(before.at(slot, set_code(value)).code), start, budget) == finished(
            point_at(with_cell(tape, slot, value), slot),
        ),
        before.at(slot, set_code(value)).position == slot,
{
    lemma_set_code(before, slot, value);
    lemma_set_runs(before.position, slot, value, tape, budget);
    lemma_run_appended(
        before.code,
        set_nodes(before.position, slot, value),
        start,
        tape,
        point_at(with_cell(tape, slot, value), slot),
        budget,
    );
}

/// Instructions put together the way a session puts text together: the
/// instructions so far, and the cell the pointer is on once they have run.
pub ghost struct Plan {
    pub nodes: Seq<Node>,
    pub position: nat,
}

impl Plan {
    /// No instructions, with the pointer on `position`.
    pub open spec fn start(position: nat) -> Plan {
        Plan { nodes: Seq::empty(), position }
    }

    /// The plan after the pointer was moved to `slot`.
    pub open spec fn goto(self, slot: nat) -> Plan {
        Plan { nodes: self.nodes + shift_nodes(self.position, slot), position: slot }
    }

    /// The plan after the pointer was moved to `slot` and `piece` added.
    pub open spec fn at(self, slot: nat, piece: Seq<Node>) -> Plan {
        Plan { nodes: self.nodes + shift_nodes(self.position, slot) + piece, position: slot }
    }

    /// The plan after a loop at `slot` around the instructions of `body`,
    /// which starts at `slot` and is brought back there.
    pub open spec fn repeat_at(self, slot: nat, body: Plan) -> Plan {
        self.at(slot, seq![Node::Loop(body.goto(slot).nodes)])
    }
}

/// The session `after` has gained over `before` just the text of `plan`,
/// and has the pointer where `plan` has it.
pub open spec fn mirrors(before: Session, after: Session, plan: Plan) -> bool {
    after.code == before.code + flatten(plan.nodes) && after.position == plan.position
}

/// A session that has gained nothing mirrors the plan without instructions.
pub proof fn lemma_mirror_start(before: Session)
    ensures
        mirrors(before, before, Plan::start(before.position)),
{
    assert(before.code + flatten(Seq::<Node>::empty()) =~= before.code);
}

/// Where the session mirrors the plan and `text` is the text of `piece`,
/// the session after `at` with `text` mirrors the plan after `at` with `piece`.
pub proof fn lemma_mirror_at(
    before: Session,
    now: Session,
    plan: Plan,
    slot: nat,
    piece: Seq<Node>,
    text: Seq<char>,
)
    requires
        mirrors(before, now, plan),
        flatten(piece) == text,
    ensures
        mirrors(before, now.at(slot, text), plan.at(slot, piece)),
{
    lemma_flatten_shift(plan.position, slot);
    lemma_flatten_concat(plan.nodes, shift_nodes(plan.position, slot));
    lemma_flatten_concat(plan.nodes + shift_nodes(plan.position, slot), piece);
    assert(now.at(slot, text).code =~= before.code + flatten(plan.at(slot, piece).nodes));
}

/// A loop: the session opens a bracket at `slot`, gains the text of `body`,
/// and closes the bracket at `slot`.
pub proof fn lemma_mirror_loop(
    before: Session,
    now: Session,
    plan: Plan,
    slot: nat,
    inside: Session,
    body: Plan,
)
    requires
        mirrors(before, now, plan),
        mirrors(now.at(slot, seq!['[']), inside, body),
    ensures
        mirrors(before, inside.at(slot, seq![']']), plan.repeat_at(slot, body)),
{
    let whole = body.goto(slot).nodes;
    lemma_flatten_shift(plan.position, slot);
    lemma_flatten_shift(body.position, slot);
    lemma_flatten_concat(body.nodes, shift_nodes(body.position, slot));
    lemma_flatten_loop(whole);
    lemma_flatten_concat(plan.nodes, shift_nodes(plan.position, slot));
    lemma_flatten_concat(plan.nodes + shift_nodes(plan.position, slot), seq![Node::Loop(whole)]);
    assert(inside.at(slot, seq![']']).code =~= before.code + flatten(
        plan.repeat_at(slot, body).nodes,
    ));
}

/// The tape after the pointer went to `slot` and `delta` was added there.
pub open spec fn touch(tape: Tape, slot: nat, delta: int) -> Tape {
    point_at(with_cell(tape, slot, wrap(tape.cells[slot as int] + delta)), slot)
}

/// `plan` runs from `start` to `end`, and ends with the pointer where it says.
pub open spec fn lands(plan: Plan, start: Tape, budget: nat, end: Tape) -> bool {
    run_list(plan.nodes, start, budget) == finished(end) && end.pointer == plan.position
        && end.wf() && end.cells.len() == start.cells.len()
}

/// The plan without instructions runs from a tape to the same tape.
pub proof fn lemma_lands_start(tape: Tape, budget: nat)
    requires
        tape.wf(),
    ensures
        lands(Plan::start(tape.pointer), tape, budget, tape),
{
}

/// Where the plan runs from `start` to `mid` and `piece` runs from `mid`,
/// with the pointer moved to `slot`, to `end`, the plan after `at` with
/// `piece` runs from `start` to `end`.
pub proof fn lemma_lands_at(
    plan: Plan,
    start: Tape,
    budget: nat,
    mid: Tape,
    slot: nat,
    piece: Seq<Node>,
    end: Tape,
)
    requires
        lands(plan, start, budget, mid),
        slot < mid.cells.len(),
        run_list(piece, point_at(mid, slot), budget) == finished(end),
        end.pointer == slot,
        end.cells.len() == mid.cells.len(),
    ensures
        lands(plan.at(slot, piece), start, budget, end),
{
    lemma_run_shift(plan.position, slot, mid, budget);
    lemma_run_concat(plan.nodes, shift_nodes(plan.position, slot), start, budget);
    lemma_run_concat(plan.nodes + shift_nodes(plan.position, slot), piece, start, budget);
}

/// Where the plan runs from `start` to `mid`, the plan after `goto` runs
/// from `start` to `mid` with the pointer on `slot`.
pub proof fn lemma_lands_goto(plan: Plan, start: Tape, budget: nat, mid: Tape, slot: nat)
    requires
        lands(plan, start, budget, mid),
        slot < mid.cells.len(),
    ensures
        lands(plan.goto(slot), start, budget, point_at(mid, slot)),
{
    lemma_run_shift(plan.position, slot, mid, budget);
    lemma_run_concat(plan.nodes, shift_nodes(plan.position, slot), start, budget);
}

/// Going to `slot` and incrementing or decrementing there.
pub proof fn lemma_lands_touch(
    plan: Plan,
    start: Tape,
    budget: nat,
    mid: Tape,
    slot: nat,
    up: bool,
)
    requires
        lands(plan, start, budget, mid),
        slot < mid.cells.len(),
    ensures
        lands(
            plan.at(
                slot,
                seq![if up {
                    Node::Increment
                } else {
                    Node::Decrement
                }],
            ),
            start,
            budget,
            touch(
                mid,
                slot,
                if up {
                    1
                } else {
                    -1
                },
            ),
        ),
{
    let node = if up {
        Node::Increment
    } else {
        Node::Decrement
    };
    let there = point_at(mid, slot);
    reveal_with_fuel(run_list, 2);
    assert(seq![node].drop_first() =~= Seq::<Node>::empty());
    assert(run_list(seq![node], there, budget) == finished(there.step(node)));
    lemma_lands_at(plan, start, budget, mid, slot, seq![node], there.step(node));
}

/// Going to `slot` and clearing it.
pub proof fn lemma_lands_zero(plan: Plan, start: Tape, budget: nat, mid: Tape, slot: nat)
    requires
        lands(plan, start, budget, mid),
        slot < mid.cells.len(),
        budget >= 255,
    ensures
        lands(plan.at(slot, zero_nodes()), start, budget, point_at(with_cell(mid, slot, 0), slot)),
{
    lemma_run_zero(point_at(mid, slot), budget);
    lemma_lands_at(
        plan,
        start,
        budget,
        mid,
        slot,
        zero_nodes(),
        point_at(with_cell(mid, slot, 0), slot),
    );
}

/// The cells after `deltas` were added to them `times` times, wrapping.
pub open spec fn bump(cells: Seq<u8>, deltas: Seq<int>, times: int) -> Seq<u8> {
    Seq::new(cells.len(), |i: int| wrap(cells[i] + times * deltas[i]))
}

/// No change to any of `len` cells.
pub open spec fn no_change(len: nat) -> Seq<int> {
    Seq::new(len, |i: int| 0int)
}

/// Adding `deltas` once and then `times - 1` times is adding them `times` times.
proof fn lemma_bump_again(cells: Seq<u8>, deltas: Seq<int>, times: int)
    requires
        deltas.len() == cells.len(),
    ensures
        bump(bump(cells, deltas, 1), deltas, times - 1) == bump(cells, deltas, times),
{
    assert forall|i: int| 0 <= i < cells.len() implies bump(
        bump(cells, deltas, 1),
        deltas,
        times - 1,
    )[i] == bump(cells, deltas, times)[i] by {
        let c = cells[i] as int;
        let d = deltas[i];
        assert(1 * d == d);
        assert((times - 1) * d + d == times * d) by (nonlinear_arith);
        let m = (times - 1) * d;
        assert(((c + d) % 256 + m) % 256 == (c + d + m) % 256);
    }
    assert(bump(bump(cells, deltas, 1), deltas, times - 1) =~= bump(cells, deltas, times));
}

/// A loop whose body adds `deltas` to the cells and takes one from the cell
/// under the pointer runs as often as that cell says: it adds `deltas` that
/// many times and leaves zero under the pointer.
pub proof fn lemma_linear_loop(
    body: Seq<Node>,
    deltas: Seq<int>,
    tape: Tape,
    budget: nat,
    need: nat,
)
    requires
        tape.wf(),
        deltas.len() == tape.cells.len(),
        deltas[tape.pointer as int] == -1,
        forall|cells: Seq<u8>, b: nat|
            cells.len() == tape.cells.len() && b >= need ==> #[trigger] run_list(
                body,
                Tape { cells, ..tape },
                b,
            ) == finished(Tape { cells: bump(cells, deltas, 1), ..tape }),
        budget >= need + tape.current(),
    ensures
        run_loop(body, tape, budget) == finished(
            Tape { cells: bump(tape.cells, deltas, tape.current() as int), ..tape },
        ),
    decreases tape.current(),
{
    if tape.current() == 0 {
        assert(bump(tape.cells, deltas, 0) =~= tape.cells);
    } else {
        let next = Tape { cells: bump(tape.cells, deltas, 1), ..tape };
        assert(run_list(body, Tape { cells: tape.cells, ..tape }, (budget - 1) as nat) == finished(
            next,
        ));
        assert(tape == Tape { cells: tape.cells, ..tape });
        assert(next.current() == tape.current() - 1);
        assert forall|cells: Seq<u8>, b: nat|
            cells.len() == next.cells.len() && b >= need implies #[trigger] run_list(
            body,
            Tape { cells, ..next },
            b,
        ) == finished(Tape { cells: bump(cells, deltas, 1), ..next }) by {
            assert(Tape { cells, ..next } == Tape { cells, ..tape });
        }
        lemma_linear_loop(body, deltas, next, (budget - 1) as nat, need);
        lemma_bump_again(tape.cells, deltas, tape.current() as int);
    }
}

/// `deltas` for a loop at `from` that puts `step` on `to` each time round.
pub open spec fn one_to_one(len: nat, from: nat, to: nat, step: int) -> Seq<int> {
    no_change(len).update(from as int, -1).update(to as int, step)
}

/// The byte for going up or down by one.
pub open spec fn sign(up: bool) -> int {
    if up {
        1
    } else {
        -1
    }
}

/// The instruction for going up or down by one.
pub open spec fn step_node(up: bool) -> Node {
    if up {
        Node::Increment
    } else {
        Node::Decrement
    }
}

/// The character for going up or down by one.
pub open spec fn step_char(up: bool) -> char {
    if up {
        '+'
    } else {
        '-'
    }
}

impl Plan {
    /// The body of a loop at `other` that takes one from it and puts one on,
    /// or takes one off, `target`.
    pub open spec fn drain_body(target: nat, other: nat, up: bool) -> Plan {
        Plan::start(other).at(target, seq![step_node(up)]).at(other, seq![Node::Decrement])
    }

    /// The instructions of `Session::drain`.
    pub open spec fn drain(self, target: nat, other: nat, up: bool) -> Plan {
        self.repeat_at(other, Plan::drain_body(target, other, up))
    }

    /// The body of a loop at `source` that moves it into `target`.
    pub open spec fn move_body(source: nat, target: nat) -> Plan {
        Plan::start(source).at(source, seq![Node::Decrement]).at(target, seq![Node::Increment])
    }

    /// The instructions of `Session::fan_out` with one target.
    pub open spec fn move_value(self, source: nat, target: nat) -> Plan {
        self.at(target, zero_nodes()).repeat_at(source, Plan::move_body(source, target))
    }
}

/// The text of one step up or down is a plus or a minus sign.
pub proof fn lemma_flatten_step(up: bool)
    ensures
        flatten(seq![step_node(up)]) == seq![step_char(up)],
{
    lemma_flatten_one(step_node(up));
}

/// The text that `drain` adds is the text of the plan's `drain`.
pub proof fn lemma_mirror_drain(
    before: Session,
    now: Session,
    plan: Plan,
    target: nat,
    other: nat,
    up: bool,
)
    requires
        mirrors(before, now, plan),
    ensures
        mirrors(
            before,
            now.drain(target, other, seq![step_char(up)]),
            plan.drain(target, other, up),
        ),
{
    let base = now.at(other, seq!['[']);
    lemma_flatten_step(up);
    lemma_flatten_step(false);
    lemma_mirror_start(base);
    lemma_mirror_at(
        base,
        base,
        Plan::start(other),
        target,
        seq![step_node(up)],
        seq![step_char(up)],
    );
    lemma_mirror_at(
        base,
        base.at(target, seq![step_char(up)]),
        Plan::start(other).at(target, seq![step_node(up)]),
        other,
        seq![Node::Decrement],
        seq!['-'],
    );
    lemma_mirror_loop(
        before,
        now,
        plan,
        other,
        base.at(target, seq![step_char(up)]).at(other, seq!['-']),
        Plan::drain_body(target, other, up),
    );
}

/// The text that a move into one cell adds is the text of the plan's `move_value`.
pub proof fn lemma_mirror_move(before: Session, now: Session, plan: Plan, source: nat, target: nat)
    requires
        mirrors(before, now, plan),
    ensures
        mirrors(before, now.fan_out(source, seq![target]), plan.move_value(source, target)),
        now.fan_out(source, seq![target]).occupied == now.occupied,
{
    let targets = seq![target];
    assert(targets.drop_last() =~= Seq::<nat>::empty());
    reveal_with_fuel(Session::fan_zero, 2);
    reveal_with_fuel(Session::fan_inc, 2);
    let zeroed = now.at(target, zero_code());
    assert(now.fan_zero(targets) == zeroed);
    let base = zeroed.at(source, seq!['[']);
    let inside = base.emit(seq!['-']).at(target, seq!['+']);
    assert(base.emit(seq!['-']).fan_inc(targets) == inside);
    assert(base.emit(seq!['-']) == base.at(source, seq!['-'])) by {
        assert(base.emit(seq!['-']).code =~= base.at(source, seq!['-']).code);
    }
    lemma_flatten_zero();
    lemma_flatten_step(true);
    lemma_flatten_step(false);
    lemma_mirror_at(before, now, plan, target, zero_nodes(), zero_code());
    lemma_mirror_start(base);
    lemma_mirror_at(base, base, Plan::start(source), source, seq![Node::Decrement], seq!['-']);
    lemma_mirror_at(
        base,
        base.at(source, seq!['-']),
        Plan::start(source).at(source, seq![Node::Decrement]),
        target,
        seq![Node::Increment],
        seq!['+'],
    );
    lemma_mirror_loop(
        before,
        zeroed,
        plan.at(target, zero_nodes()),
        source,
        inside,
        Plan::move_body(source, target),
    );
}

/// A loop node runs as its loop does.
pub proof fn lemma_run_loop_node(body: Seq<Node>, tape: Tape, budget: nat)
    ensures
        run_list(seq![Node::Loop(body)], tape, budget) == run_loop(body, tape, budget),
{
    reveal_with_fuel(run_list, 2);
    assert(seq![Node::Loop(body)].drop_first() =~= Seq::<Node>::empty());
    assert(seq![Node::Loop(body)][0] == Node::Loop(body));
}

/// One pass over the body of a loop at `from` that puts `sign(up)` on `to`.
proof fn lemma_one_to_one_body(
    body: Plan,
    from: nat,
    to: nat,
    up: bool,
    take_first: bool,
    tape: Tape,
    budget: nat,
)
    requires
        tape.wf(),
        tape.pointer == from,
        to < tape.cells.len(),
        from != to,
        body == if take_first {
            Plan::start(from).at(from, seq![Node::Decrement]).at(to, seq![step_node(up)])
        } else {
            Plan::start(from).at(to, seq![step_node(up)]).at(from, seq![Node::Decrement])
        },
    ensures
        run_list(body.goto(from).nodes, tape, budget) == finished(
            Tape {
                cells: bump(
                    tape.cells,
                    one_to_one(tape.cells.len(), from, to, sign(up)),
                    1,
                ),
                ..tape
            },
        ),
{
    let deltas = one_to_one(tape.cells.len(), from, to, sign(up));
    let target = Tape { cells: bump(tape.cells, deltas, 1), ..tape };
    lemma_lands_start(tape, budget);
    if take_first {
        let first = Plan::start(from).at(from, seq![Node::Decrement]);
        lemma_lands_touch(Plan::start(from), tape, budget, tape, from, false);
        let a = touch(tape, from, -1);
        lemma_lands_touch(first, tape, budget, a, to, up);
        let b = touch(a, to, sign(up));
        lemma_lands_goto(body, tape, budget, b, from);
        assert(point_at(b, from).cells =~= target.cells);
    } else {
        let first = Plan::start(from).at(to, seq![step_node(up)]);
        lemma_lands_touch(Plan::start(from), tape, budget, tape, to, up);
        let a = touch(tape, to, sign(up));
        lemma_lands_touch(first, tape, budget, a, from, false);
        let b = touch(a, from, -1);
        lemma_lands_goto(body, tape, budget, b, from);
        assert(point_at(b, from).cells =~= target.cells);
    }
}

/// A loop at `from` that takes one from it and puts `sign(up)` on `to`
/// each time round: `to` gains or loses what `from` held, and `from` ends
/// at zero.
proof fn lemma_one_to_one_loop(
    body: Plan,
    from: nat,
    to: nat,
    up: bool,
    take_first: bool,
    tape: Tape,
    budget: nat,
)
    requires
        tape.wf(),
        tape.pointer == from,
        to < tape.cells.len(),
        from != to,
        budget >= 255,
        body == if take_first {
            Plan::start(from).at(from, seq![Node::Decrement]).at(to, seq![step_node(up)])
        } else {
            Plan::start(from).at(to, seq![step_node(up)]).at(from, seq![Node::Decrement])
        },
    ensures
        run_list(seq![Node::Loop(body.goto(from).nodes)], tape, budget) == finished(
            with_cell(
                with_cell(
                    tape,
                    to,
                    wrap(tape.cells[to as int] + sign(up) * tape.cells[from as int]),
                ),
                from,
                0,
            ),
        ),
{
    let deltas = one_to_one(tape.cells.len(), from, to, sign(up));
    let nodes = body.goto(from).nodes;
    let times = tape.current() as int;
    assert forall|cells: Seq<u8>, b: nat|
        cells.len() == tape.cells.len() && b >= 0 implies #[trigger] run_list(
        nodes,
        Tape { cells, ..tape },
        b,
    ) == finished(Tape { cells: bump(cells, deltas, 1), ..tape }) by {
        lemma_one_to_one_body(body, from, to, up, take_first, Tape { cells, ..tape }, b);
    }
    lemma_linear_loop(nodes, deltas, tape, budget, 0);
    lemma_run_loop_node(nodes, tape, budget);
    let end = with_cell(
        with_cell(tape, to, wrap(tape.cells[to as int] + sign(up) * tape.cells[from as int])),
        from,
        0,
    );
    assert forall|i: int| 0 <= i < tape.cells.len() implies bump(tape.cells, deltas, times)[i]
        == end.cells[i] by {
        assert(times * 0 == 0);
        assert(times * 1 == times);
        assert(times * (-1) == -times);
    }
    assert(bump(tape.cells, deltas, times) =~= end.cells);
}

/// Run after `plan`, `drain` adds what `other` held to `target`, or takes
/// it off, and leaves zero in `other`, with the pointer on it.
pub proof fn lemma_lands_drain(
    plan: Plan,
    start: Tape,
    budget: nat,
    mid: Tape,
    target: nat,
    other: nat,
    up: bool,
)
    requires
        lands(plan, start, budget, mid),
        target < mid.cells.len(),
        other < mid.cells.len(),
        target != other,
        budget >= 255,
    ensures
        lands(
            plan.drain(target, other, up),
            start,
            budget,
            point_at(
                with_cell(
                    with_cell(
                        mid,
                        target,
                        wrap(mid.cells[target as int] + sign(up) * mid.cells[other as int]),
                    ),
                    other,
                    0,
                ),
                other,
            ),
        ),
{
    let there = point_at(mid, other);
    let body = Plan::drain_body(target, other, up);
    lemma_one_to_one_loop(body, other, target, up, false, there, budget);
    lemma_lands_at(
        plan,
        start,
        budget,
        mid,
        other,
        seq![Node::Loop(body.goto(other).nodes)],
        point_at(
            with_cell(
                with_cell(
                    mid,
                    target,
                    wrap(mid.cells[target as int] + sign(up) * mid.cells[other as int]),
                ),
                other,
                0,
            ),
            other,
        ),
    );
}

/// Run after `plan`, a move leaves in `target` what `source` held and zero
/// in `source`, with the pointer on `source`.
pub proof fn lemma_lands_move(
    plan: Plan,
    start: Tape,
    budget: nat,
    mid: Tape,
    source: nat,
    target: nat,
)
    requires
        lands(plan, start, budget, mid),
        source < mid.cells.len(),
        target < mid.cells.len(),
        source != target,
        budget >= 255,
    ensures
        lands(
            plan.move_value(source, target),
            start,
            budget,
            point_at(
                with_cell(with_cell(mid, target, mid.cells[source as int]), source, 0),
                source,
            ),
        ),
{
    let zeroed = point_at(with_cell(mid, target, 0), target);
    let there = point_at(zeroed, source);
    let body = Plan::move_body(source, target);
    let end = point_at(
        with_cell(with_cell(mid, target, mid.cells[source as int]), source, 0),
        source,
    );
    lemma_lands_zero(plan, start, budget, mid, target);
    lemma_one_to_one_loop(body, source, target, true, true, there, budget);
    assert(with_cell(
        with_cell(there, target, wrap(there.cells[target as int] + 1 * there.cells[source as int])),
        source,
        0,
    ) == end) by {
        assert(with_cell(
            with_cell(
                there,
                target,
                wrap(there.cells[target as int] + 1 * there.cells[source as int]),
            ),
            source,
            0,
        ).cells =~= end.cells);
    }
    lemma_lands_at(
        plan.at(target, zero_nodes()),
        start,
        budget,
        zeroed,
        source,
        seq![Node::Loop(body.goto(source).nodes)],
        end,
    );
}

impl Plan {
    /// The body of a loop at `source` that moves it into `first` and `second`.
    pub open spec fn share_body(source: nat, first: nat, second: nat) -> Plan {
        Plan::start(source).at(source, seq![Node::Decrement]).at(
            first,
            seq![Node::Increment],
        ).at(second, seq![Node::Increment])
    }

    /// The instructions of `Session::fan_out` with two targets.
    pub open spec fn share_value(self, source: nat, first: nat, second: nat) -> Plan {
        self.at(first, zero_nodes()).at(second, zero_nodes()).repeat_at(
            source,
            Plan::share_body(source, first, second),
        )
    }

    /// The instructions of `Session::copy`, with `temp` its free slot.
    pub open spec fn copy(self, source: nat, temp: nat, target: nat) -> Plan {
        self.move_value(source, temp).share_value(temp, source, target)
    }
}

/// The text that a move into two cells adds is the text of the plan's `share_value`.
pub proof fn lemma_mirror_share(
    before: Session,
    now: Session,
    plan: Plan,
    source: nat,
    first: nat,
    second: nat,
)
    requires
        mirrors(before, now, plan),
    ensures
        mirrors(
            before,
            now.fan_out(source, seq![first, second]),
            plan.share_value(source, first, second),
        ),
        now.fan_out(source, seq![first, second]).occupied == now.occupied,
{
    let targets = seq![first, second];
    assert(targets.drop_last() =~= seq![first]);
    assert(seq![first].drop_last() =~= Seq::<nat>::empty());
    reveal_with_fuel(Session::fan_zero, 3);
    reveal_with_fuel(Session::fan_inc, 3);
    let zeroed = now.at(first, zero_code()).at(second, zero_code());
    assert(now.fan_zero(targets) == zeroed);
    let base = zeroed.at(source, seq!['[']);
    let inside = base.emit(seq!['-']).at(first, seq!['+']).at(second, seq!['+']);
    assert(base.emit(seq!['-']).fan_inc(targets) == inside);
    assert(base.emit(seq!['-']) == base.at(source, seq!['-'])) by {
        assert(base.emit(seq!['-']).code =~= base.at(source, seq!['-']).code);
    }
    lemma_flatten_zero();
    lemma_flatten_step(true);
    lemma_flatten_step(false);
    lemma_mirror_at(before, now, plan, first, zero_nodes(), zero_code());
    lemma_mirror_at(
        before,
        now.at(first, zero_code()),
        plan.at(first, zero_nodes()),
        second,
        zero_nodes(),
        zero_code(),
    );
    lemma_mirror_start(base);
    let one = Plan::start(source).at(source, seq![Node::Decrement]);
    lemma_mirror_at(base, base, Plan::start(source), source, seq![Node::Decrement], seq!['-']);
    lemma_mirror_at(
        base,
        base.at(source, seq!['-']),
        one,
        first,
        seq![Node::Increment],
        seq!['+'],
    );
    lemma_mirror_at(
        base,
        base.at(source, seq!['-']).at(first, seq!['+']),
        one.at(first, seq![Node::Increment]),
        second,
        seq![Node::Increment],
        seq!['+'],
    );
    lemma_mirror_loop(
        before,
        zeroed,
        plan.at(first, zero_nodes()).at(second, zero_nodes()),
        source,
        inside,
        Plan::share_body(source, first, second),
    );
}

/// The text that `copy` adds is the text of the plan's `copy` by way of the
/// next free slot.
pub proof fn lemma_mirror_copy(before: Session, now: Session, plan: Plan, source: nat, target: nat)
    requires
        mirrors(before, now, plan),
    ensures
        mirrors(before, now.copy(source, target), plan.copy(source, now.next_free(), target)),
        now.copy(source, target).occupied == now.occupied.update(
            now.next_free() as int,
            true,
        ).update(now.next_free() as int, false),
{
    let temp = now.next_free();
    let taken = now.take(temp);
    lemma_mirror_move(before, taken, plan, source, temp);
    lemma_mirror_share(
        before,
        taken.fan_out(source, seq![temp]),
        plan.move_value(source, temp),
        temp,
        source,
        target,
    );
}

/// `deltas` for a loop at `from` that puts one on each of `first` and `second`.
pub open spec fn one_to_two(len: nat, from: nat, first: nat, second: nat) -> Seq<int> {
    no_change(len).update(from as int, -1).update(first as int, 1).update(second as int, 1)
}

/// One pass over the body of a move into two cells.
proof fn lemma_share_body(source: nat, first: nat, second: nat, tape: Tape, budget: nat)
    requires
        tape.wf(),
        tape.pointer == source,
        first < tape.cells.len(),
        second < tape.cells.len(),
        source != first,
        source != second,
        first != second,
    ensures
        run_list(Plan::share_body(source, first, second).goto(source).nodes, tape, budget)
            == finished(
            Tape {
                cells: bump(tape.cells, one_to_two(tape.cells.len(), source, first, second), 1),
                ..tape
            },
        ),
{
    let deltas = one_to_two(tape.cells.len(), source, first, second);
    let target = Tape { cells: bump(tape.cells, deltas, 1), ..tape };
    let one = Plan::start(source).at(source, seq![Node::Decrement]);
    let two = one.at(first, seq![Node::Increment]);
    lemma_lands_start(tape, budget);
    lemma_lands_touch(Plan::start(source), tape, budget, tape, source, false);
    let a = touch(tape, source, -1);
    lemma_lands_touch(one, tape, budget, a, first, true);
    let b = touch(a, first, 1);
    lemma_lands_touch(two, tape, budget, b, second, true);
    let c = touch(b, second, 1);
    lemma_lands_goto(Plan::share_body(source, first, second), tape, budget, c, source);
    assert(point_at(c, source).cells =~= target.cells);
}

/// Run after `plan`, a move into two cells leaves in both what `source`
/// held and zero in `source`, with the pointer on `source`.
pub proof fn lemma_lands_share(
    plan: Plan,
    start: Tape,
    budget: nat,
    mid: Tape,
    source: nat,
    first: nat,
    second: nat,
)
    requires
        lands(plan, start, budget, mid),
        source < mid.cells.len(),
        first < mid.cells.len(),
        second < mid.cells.len(),
        source != first,
        source != second,
        first != second,
        budget >= 255,
    ensures
        lands(
            plan.share_value(source, first, second),
            start,
            budget,
            point_at(
                with_cell(
                    with_cell(
                        with_cell(mid, first, mid.cells[source as int]),
                        second,
                        mid.cells[source as int],
                    ),
                    source,
                    0,
                ),
                source,
            ),
        ),
{
    let value = mid.cells[source as int];
    let zeroed_one = point_at(with_cell(mid, first, 0), first);
    let zeroed = point_at(with_cell(zeroed_one, second, 0), second);
    let there = point_at(zeroed, source);
    let body = Plan::share_body(source, first, second);
    let nodes = body.goto(source).nodes;
    let deltas = one_to_two(there.cells.len(), source, first, second);
    let end = point_at(
        with_cell(with_cell(with_cell(mid, first, value), second, value), source, 0),
        source,
    );
    lemma_lands_zero(plan, start, budget, mid, first);
    lemma_lands_zero(plan.at(first, zero_nodes()), start, budget, zeroed_one, second);
    assert forall|cells: Seq<u8>, b: nat|
        cells.len() == there.cells.len() && b >= 0 implies #[trigger] run_list(
        nodes,
        Tape { cells, ..there },
        b,
    ) == finished(Tape { cells: bump(cells, deltas, 1), ..there }) by {
        lemma_share_body(source, first, second, Tape { cells, ..there }, b);
    }
    lemma_linear_loop(nodes, deltas, there, budget, 0);
    lemma_run_loop_node(nodes, there, budget);
    let times = there.current() as int;
    assert forall|i: int| 0 <= i < there.cells.len() implies bump(there.cells, deltas, times)[i]
        == end.cells[i] by {
        assert(times * 0 == 0);
        assert(times * 1 == times);
        assert(times * (-1) == -times);
    }
    assert(bump(there.cells, deltas, times) =~= end.cells);
    lemma_lands_at(
        plan.at(first, zero_nodes()).at(second, zero_nodes()),
        start,
        budget,
        zeroed,
        source,
        seq![Node::Loop(nodes)],
        end,
    );
}

/// Run after `plan`, a copy leaves in `target` what `source` holds, leaves
/// `source` as it was and `temp` at zero, with the pointer on `temp`.
pub proof fn lemma_lands_copy(
    plan: Plan,
    start: Tape,
    budget: nat,
    mid: Tape,
    source: nat,
    temp: nat,
    target: nat,
)
    requires
        lands(plan, start, budget, mid),
        source < mid.cells.len(),
        temp < mid.cells.len(),
        target < mid.cells.len(),
        source != temp,
        source != target,
        temp != target,
        budget >= 255,
    ensures
        lands(
            plan.copy(source, temp, target),
            start,
            budget,
            point_at(with_cell(with_cell(mid, target, mid.cells[source as int]), temp, 0), temp),
        ),
{
    let value = mid.cells[source as int];
    let moved = point_at(with_cell(with_cell(mid, temp, value), source, 0), source);
    lemma_lands_move(plan, start, budget, mid, source, temp);
    lemma_lands_share(plan.move_value(source, temp), start, budget, moved, temp, source, target);
    let end = point_at(with_cell(with_cell(mid, target, value), temp, 0), temp);
    let got = point_at(
        with_cell(with_cell(with_cell(moved, source, value), target, value), temp, 0),
        temp,
    );
    assert(got.cells =~= end.cells);
}

/// Where the text so far is complete and runs from `start` to `tape`, and
/// the session has since gained the text of `plan`, which runs from `tape`
/// to `end`, the session's text is complete and runs from `start` to `end`.
pub proof fn lemma_then_run(
    before: Session,
    after: Session,
    plan: Plan,
    start: Tape,
    tape: Tape,
    end: Tape,
    budget: nat,
)
    requires
        complete(before.code),
        run_list(parse_tree(before.code), start, budget) == finished(tape),
        mirrors(before, after, plan),
        lands(plan, tape, budget, end),
    ensures
        complete(after.code),
        run_list(parse_tree(after.code), start, budget) == finished(end),
        end.pointer == after.position,
{
    lemma_run_appended(before.code, plan.nodes, start, tape, end, budget);
}

/// The session's pointer is where the tape's is, both on the tape, and the
/// pool has a flag for each cell.
pub open spec fn in_step(session: Session, tape: Tape) -> bool {
    tape.wf() && tape.pointer == session.position && session.occupied.len() == tape.cells.len()
}

/// A move leaves the source at zero and the target at what the source held.
///
/// Where the text so far is complete and runs from `start` to `tape`, in
/// step with the session, the text after the move runs from `start` to
/// `tape` with the source's value in `target`, zero in `source` and the
/// pointer on `source`, where the session has it.
pub proof fn lemma_move_then_run(
    before: Session,
    source: nat,
    target: nat,
    start: Tape,
    tape: Tape,
    budget: nat,
)
    requires
        complete(before.code),
        run_list(parse_tree(before.code), start, budget) == finished(tape),
        in_step(before, tape),
        source < tape.cells.len(),
        target < tape.cells.len(),
        source != target,
        budget >= 255,
    ensures
        complete(before.fan_out(source, seq![target]).code),
        run_list(parse_tree(before.fan_out(source, seq![target]).code), start, budget) == finished(
            point_at(
                with_cell(with_cell(tape, target, tape.cells[source as int]), source, 0),
                source,
            ),
        ),
        before.fan_out(source, seq![target]).position == source,
{
    let plan = Plan::start(before.position);
    lemma_mirror_start(before);
    lemma_mirror_move(before, before, plan, source, target);
    lemma_lands_start(tape, budget);
    lemma_lands_move(plan, tape, budget, tape, source, target);
    lemma_then_run(
        before,
        before.fan_out(source, seq![target]),
        plan.move_value(source, target),
        start,
        tape,
        point_at(with_cell(with_cell(tape, target, tape.cells[source as int]), source, 0), source),
        budget,
    );
}

/// Adding `other` into `target`, or subtracting it, leaves in `target` the
/// sum or the difference modulo 256 and zero in `other`.
pub proof fn lemma_drain_then_run(
    before: Session,
    target: nat,
    other: nat,
    up: bool,
    start: Tape,
    tape: Tape,
    budget: nat,
)
    requires
        complete(before.code),
        run_list(parse_tree(before.code), start, budget) == finished(tape),
        in_step(before, tape),
        target < tape.cells.len(),
        other < tape.cells.len(),
        target != other,
        budget >= 255,
    ensures
        complete(before.drain(target, other, seq![step_char(up)]).code),
        run_list(
            parse_tree(before.drain(target, other, seq![step_char(up)]).code),
            start,
            budget,
        ) == finished(
            point_at(
                with_cell(
                    with_cell(
                        tape,
                        target,
                        wrap(tape.cells[target as int] + sign(up) * tape.cells[other as int]),
                    ),
                    other,
                    0,
                ),
                other,
            ),
        ),
        before.drain(target, other, seq![step_char(up)]).position == other,
{
    let plan = Plan::start(before.position);
    lemma_mirror_start(before);
    lemma_mirror_drain(before, before, plan, target, other, up);
    lemma_lands_start(tape, budget);
    lemma_lands_drain(plan, tape, budget, tape, target, other, up);
    lemma_then_run(
        before,
        before.drain(target, other, seq![step_char(up)]),
        plan.drain(target, other, up),
        start,
        tape,
        point_at(
            with_cell(
                with_cell(
                    tape,
                    target,
                    wrap(tape.cells[target as int] + sign(up) * tape.cells[other as int]),
                ),
                other,
                0,
            ),
            other,
        ),
        budget,
    );
}

/// The first free slot is on the tape where a slot is free, and is none of
/// the slots that are taken.
pub proof fn lemma_next_free_is_new(session: Session, held: nat)
    requires
        session.free() > 0,
        held < session.occupied.len(),
        session.occupied[held as int],
    ensures
        session.next_free() < session.occupied.len(),
        session.next_free() != held,
        !session.occupied[session.next_free() as int],
{
    lemma_free_count_bounds(session.occupied);
    lemma_first_free(session.occupied, session.next_free());
}

/// A copy never changes the source: after it, source and target both hold
/// what the source held.
///
/// Where the text so far is complete and runs from `start` to `tape`, in
/// step with the session, and `source` and `target` are two taken slots,
/// the text after the copy runs from `start` to `tape` with the source's
/// value in `target` and zero in the slot that the copy borrowed.
pub proof fn lemma_copy_then_run(
    before: Session,
    source: nat,
    target: nat,
    start: Tape,
    tape: Tape,
    budget: nat,
)
    requires
        complete(before.code),
        run_list(parse_tree(before.code), start, budget) == finished(tape),
        in_step(before, tape),
        source < tape.cells.len(),
        target < tape.cells.len(),
        source != target,
        before.occupied[source as int],
        before.occupied[target as int],
        before.free() > 0,
        budget >= 255,
    ensures
        complete(before.copy(source, target).code),
        run_list(parse_tree(before.copy(source, target).code), start, budget) == finished(
            point_at(
                with_cell(
                    with_cell(tape, target, tape.cells[source as int]),
                    before.next_free(),
                    0,
                ),
                before.next_free(),
            ),
        ),
        before.copy(source, target).position == before.next_free(),
        before.next_free() != source,
        before.next_free() != target,
        before.copy(source, target).occupied == before.occupied,
{
    let temp = before.next_free();
    let plan = Plan::start(before.position);
    lemma_next_free_is_new(before, source);
    lemma_next_free_is_new(before, target);
    lemma_mirror_start(before);
    lemma_mirror_copy(before, before, plan, source, target);
    lemma_lands_start(tape, budget);
    lemma_lands_copy(plan, tape, budget, tape, source, temp, target);
    lemma_then_run(
        before,
        before.copy(source, target),
        plan.copy(source, temp, target),
        start,
        tape,
        point_at(with_cell(with_cell(tape, target, tape.cells[source as int]), temp, 0), temp),
        budget,
    );
    assert(before.copy(source, target).occupied =~= before.occupied);
}

impl Plan {
    /// The body of the loop of `Session::test`: clear `source`, change
    /// `answer` by one.
    pub open spec fn test_body(source: nat, answer: nat, for_zero: bool) -> Plan {
        Plan::start(source).at(source, zero_nodes()).at(answer, seq![step_node(!for_zero)])
    }

    /// The instructions of `Session::test`, with `answer` its fresh slot.
    pub open spec fn test(self, source: nat, answer: nat, for_zero: bool) -> Plan {
        self.at(answer, zero_nodes() + add_nodes(bool_byte(for_zero))).repeat_at(
            source,
            Plan::test_body(source, answer, for_zero),
        )
    }

    /// The body of the loop of `Session::multiply`: take one from `counter`,
    /// copy `other` into `fresh` by way of `temp`, add `fresh` into `target`.
    pub open spec fn multiply_body(
        target: nat,
        counter: nat,
        fresh: nat,
        temp: nat,
        other: nat,
    ) -> Plan {
        Plan::start(counter).at(counter, seq![Node::Decrement]).copy(other, temp, fresh).drain(
            target,
            fresh,
            true,
        )
    }

    /// The instructions of `Session::multiply`, with `counter`, `fresh` and
    /// `temp` the free slots it takes, in that order.
    pub open spec fn multiply(
        self,
        target: nat,
        counter: nat,
        fresh: nat,
        temp: nat,
        other: nat,
    ) -> Plan {
        self.move_value(target, counter).repeat_at(
            counter,
            Plan::multiply_body(target, counter, fresh, temp, other),
        )
    }
}

/// The text that `test` adds is the text of the plan's `test` with the next
/// free slot for the answer.
pub proof fn lemma_mirror_test(
    before: Session,
    now: Session,
    plan: Plan,
    source: nat,
    for_zero: bool,
)
    requires
        mirrors(before, now, plan),
    ensures
        mirrors(before, now.test(source, for_zero), plan.test(source, now.next_free(), for_zero)),
{
    let answer = now.next_free();
    let value = bool_byte(for_zero);
    let made = now.take(answer).at(answer, set_code(value));
    let base = made.at(source, seq!['[']);
    lemma_flatten_zero();
    lemma_flatten_add(value);
    lemma_flatten_concat(zero_nodes(), add_nodes(value));
    lemma_flatten_step(!for_zero);
    lemma_mirror_at(
        before,
        now.take(answer),
        plan,
        answer,
        zero_nodes() + add_nodes(value),
        set_code(value),
    );
    lemma_mirror_start(base);
    lemma_mirror_at(base, base, Plan::start(source), source, zero_nodes(), zero_code());
    lemma_mirror_at(
        base,
        base.at(source, zero_code()),
        Plan::start(source).at(source, zero_nodes()),
        answer,
        seq![step_node(!for_zero)],
        seq![step_char(!for_zero)],
    );
    lemma_mirror_loop(
        before,
        made,
        plan.at(answer, zero_nodes() + add_nodes(value)),
        source,
        base.at(source, zero_code()).at(answer, seq![step_char(!for_zero)]),
        Plan::test_body(source, answer, for_zero),
    );
    assert(seq![step_char(!for_zero)] == if for_zero {
        seq!['-']
    } else {
        seq!['+']
    });
}

/// Run after `plan`, a test leaves in `answer` whether `source` held zero,
/// or whether it did not, and zero in `source`, with the pointer on `source`.
pub proof fn lemma_lands_test(
    plan: Plan,
    start: Tape,
    budget: nat,
    mid: Tape,
    source: nat,
    answer: nat,
    for_zero: bool,
)
    requires
        lands(plan, start, budget, mid),
        source < mid.cells.len(),
        answer < mid.cells.len(),
        source != answer,
        budget >= 256,
    ensures
        lands(
            plan.test(source, answer, for_zero),
            start,
            budget,
            point_at(
                with_cell(
                    with_cell(
                        mid,
                        answer,
                        bool_byte((mid.cells[source as int] == 0) == for_zero),
                    ),
                    source,
                    0,
                ),
                source,
            ),
        ),
{
    let value = bool_byte(for_zero);
    let onto = point_at(mid, answer);
    let made = point_at(with_cell(mid, answer, value), answer);
    lemma_run_zero(onto, budget);
    lemma_run_add(value, onto.store(0), budget);
    lemma_run_concat(zero_nodes(), add_nodes(value), onto, budget);
    assert(onto.store(0).store(wrap(onto.store(0).current() + value)) == made) by {
        assert(onto.store(0).store(wrap(onto.store(0).current() + value)).cells =~= made.cells);
    }
    lemma_lands_at(plan, start, budget, mid, answer, zero_nodes() + add_nodes(value), made);
    let there = point_at(made, source);
    let body = Plan::test_body(source, answer, for_zero);
    let nodes = body.goto(source).nodes;
    let end = point_at(
        with_cell(
            with_cell(mid, answer, bool_byte((mid.cells[source as int] == 0) == for_zero)),
            source,
            0,
        ),
        source,
    );
    if there.current() == 0 {
        assert(there.cells =~= end.cells);
    } else {
        let less = (budget - 1) as nat;
        lemma_lands_start(there, less);
        lemma_lands_zero(Plan::start(source), there, less, there, source);
        let cleared = point_at(with_cell(there, source, 0), source);
        lemma_lands_touch(
            Plan::start(source).at(source, zero_nodes()),
            there,
            less,
            cleared,
            answer,
            !for_zero,
        );
        let changed = touch(cleared, answer, sign(!for_zero));
        lemma_lands_goto(body, there, less, changed, source);
        let once = point_at(changed, source);
        assert(run_list(nodes, there, less) == finished(once));
        assert(once.current() == 0);
        assert(run_loop(nodes, once, less) == finished(once));
        assert(once.cells =~= end.cells);
    }
    lemma_run_loop_node(nodes, there, budget);
    lemma_lands_at(
        plan.at(answer, zero_nodes() + add_nodes(value)),
        start,
        budget,
        made,
        source,
        seq![Node::Loop(nodes)],
        end,
    );
}

/// A test for zero answers true exactly for zero, and a test for nonzero
/// answers the opposite; either leaves zero in the cell it tested.
///
/// Where the text so far is complete and runs from `start` to `tape`, in
/// step with the session, the text after the test runs from `start` to
/// `tape` with the answer in the next free slot, as one or zero, and zero
/// in `source`.
pub proof fn lemma_test_then_run(
    before: Session,
    source: nat,
    for_zero: bool,
    start: Tape,
    tape: Tape,
    budget: nat,
)
    requires
        complete(before.code),
        run_list(parse_tree(before.code), start, budget) == finished(tape),
        in_step(before, tape),
        source < tape.cells.len(),
        before.occupied[source as int],
        before.free() > 0,
        budget >= 256,
    ensures
        complete(before.test(source, for_zero).code),
        run_list(parse_tree(before.test(source, for_zero).code), start, budget) == finished(
            point_at(
                with_cell(
                    with_cell(
                        tape,
                        before.next_free(),
                        bool_byte((tape.cells[source as int] == 0) == for_zero),
                    ),
                    source,
                    0,
                ),
                source,
            ),
        ),
        before.test(source, for_zero).position == source,
        before.next_free() != source,
{
    let answer = before.next_free();
    let plan = Plan::start(before.position);
    lemma_next_free_is_new(before, source);
    lemma_mirror_start(before);
    lemma_mirror_test(before, before, plan, source, for_zero);
    lemma_lands_start(tape, budget);
    lemma_lands_test(plan, tape, budget, tape, source, answer, for_zero);
    lemma_then_run(
        before,
        before.test(source, for_zero),
        plan.test(source, answer, for_zero),
        start,
        tape,
        point_at(
            with_cell(
                with_cell(tape, answer, bool_byte((tape.cells[source as int] == 0) == for_zero)),
                source,
                0,
            ),
            source,
        ),
        budget,
    );
}

/// The text that `multiply` adds is the text of the plan's `multiply`
/// with the three slots that it takes from the pool, in that order.
pub proof fn lemma_mirror_multiply(
    before: Session,
    now: Session,
    plan: Plan,
    target: nat,
    other: nat,
)
    requires
        mirrors(before, now, plan),
    ensures
        mirrors(
            before,
            now.multiply(target, other),
            plan.multiply(
                target,
                now.next_free(),
                now.take(now.next_free()).next_free(),
                now.take(now.next_free()).take(now.take(now.next_free()).next_free()).next_free(),
                other,
            ),
        ),
{
    let counter = now.next_free();
    let taken = now.take(counter);
    let fresh = taken.next_free();
    let temp = taken.take(fresh).next_free();
    let moved = taken.fan_out(target, seq![counter]);
    lemma_mirror_move(before, taken, plan, target, counter);
    assert(moved.next_free() == fresh);
    let base = moved.at(counter, seq!['[']);
    let less = base.at(counter, seq!['-']);
    let copied = less.take(fresh).copy(other, fresh);
    let added = copied.drain(target, fresh, seq!['+']);
    assert(less.next_free() == fresh);
    assert(less.take(fresh).next_free() == temp);
    assert(less.add_ref(target, other) == added.release(fresh));
    lemma_flatten_step(false);
    lemma_mirror_start(base);
    lemma_mirror_at(base, base, Plan::start(counter), counter, seq![Node::Decrement], seq!['-']);
    let one = Plan::start(counter).at(counter, seq![Node::Decrement]);
    lemma_mirror_copy(base, less.take(fresh), one, other, fresh);
    lemma_mirror_drain(base, copied, one.copy(other, temp, fresh), target, fresh, true);
    lemma_mirror_loop(
        before,
        moved,
        plan.move_value(target, counter),
        counter,
        added.release(fresh),
        Plan::multiply_body(target, counter, fresh, temp, other),
    );
}

/// The tape after one pass over the body of the multiplication.
pub open spec fn multiplied_once(
    tape: Tape,
    target: nat,
    counter: nat,
    fresh: nat,
    temp: nat,
    other: nat,
) -> Tape {
    with_cell(
        with_cell(
            with_cell(
                with_cell(tape, counter, wrap(tape.cells[counter as int] - 1)),
                temp,
                0,
            ),
            fresh,
            0,
        ),
        target,
        wrap(tape.cells[target as int] + tape.cells[other as int]),
    )
}

/// The tape after the loop of the multiplication: where the counter held
/// zero nothing has changed; otherwise the counter and the two borrowed
/// slots hold zero and `target` has gained the product.
pub open spec fn multiplied(
    tape: Tape,
    target: nat,
    counter: nat,
    fresh: nat,
    temp: nat,
    other: nat,
) -> Tape {
    if tape.cells[counter as int] == 0 {
        tape
    } else {
        with_cell(
            with_cell(with_cell(with_cell(tape, counter, 0), temp, 0), fresh, 0),
            target,
            wrap(tape.cells[target as int] + tape.cells[counter as int] * tape.cells[other as int]),
        )
    }
}

/// The five slots of a multiplication are on the tape and no two are the same.
pub open spec fn five_apart(
    len: nat,
    target: nat,
    counter: nat,
    fresh: nat,
    temp: nat,
    other: nat,
) -> bool {
    target < len && counter < len && fresh < len && temp < len && other < len && target != counter
        && target != fresh && target != temp && target != other && counter != fresh && counter
        != temp && counter != other && fresh != temp && fresh != other && temp != other
}

/// One pass over the body of the multiplication.
proof fn lemma_multiply_body(
    target: nat,
    counter: nat,
    fresh: nat,
    temp: nat,
    other: nat,
    tape: Tape,
    budget: nat,
)
    requires
        tape.wf(),
        tape.pointer == counter,
        five_apart(tape.cells.len(), target, counter, fresh, temp, other),
        budget >= 255,
    ensures
        run_list(
            Plan::multiply_body(target, counter, fresh, temp, other).goto(counter).nodes,
            tape,
            budget,
        ) == finished(multiplied_once(tape, target, counter, fresh, temp, other)),
{
    let one = Plan::start(counter).at(counter, seq![Node::Decrement]);
    let two = one.copy(other, temp, fresh);
    let body = Plan::multiply_body(target, counter, fresh, temp, other);
    lemma_lands_start(tape, budget);
    lemma_lands_touch(Plan::start(counter), tape, budget, tape, counter, false);
    let a = touch(tape, counter, -1);
    lemma_lands_copy(one, tape, budget, a, other, temp, fresh);
    let b = point_at(with_cell(with_cell(a, fresh, a.cells[other as int]), temp, 0), temp);
    lemma_lands_drain(two, tape, budget, b, target, fresh, true);
    let c = point_at(
        with_cell(
            with_cell(b, target, wrap(b.cells[target as int] + 1 * b.cells[fresh as int])),
            fresh,
            0,
        ),
        fresh,
    );
    lemma_lands_goto(body, tape, budget, c, counter);
    assert(point_at(c, counter).cells =~= multiplied_once(
        tape,
        target,
        counter,
        fresh,
        temp,
        other,
    ).cells);
}

/// The loop of the multiplication runs as often as the counter says.
proof fn lemma_multiply_loop(
    target: nat,
    counter: nat,
    fresh: nat,
    temp: nat,
    other: nat,
    tape: Tape,
    budget: nat,
)
    requires
        tape.wf(),
        tape.pointer == counter,
        five_apart(tape.cells.len(), target, counter, fresh, temp, other),
        budget >= 255 + tape.cells[counter as int],
    ensures
        run_loop(
            Plan::multiply_body(target, counter, fresh, temp, other).goto(counter).nodes,
            tape,
            budget,
        ) == finished(multiplied(tape, target, counter, fresh, temp, other)),
    decreases tape.cells[counter as int],
{
    let nodes = Plan::multiply_body(target, counter, fresh, temp, other).goto(counter).nodes;
    let count = tape.cells[counter as int] as int;
    let factor = tape.cells[other as int] as int;
    let held = tape.cells[target as int] as int;
    if count != 0 {
        let less = (budget - 1) as nat;
        let once = multiplied_once(tape, target, counter, fresh, temp, other);
        lemma_multiply_body(target, counter, fresh, temp, other, tape, less);
        lemma_multiply_loop(target, counter, fresh, temp, other, once, less);
        let end = multiplied(once, target, counter, fresh, temp, other);
        let goal = multiplied(tape, target, counter, fresh, temp, other);
        if count == 1 {
            assert(count * factor == factor);
            assert(end.cells =~= goal.cells);
        } else {
            assert((count - 1) * factor + factor == count * factor) by (nonlinear_arith);
            let rest = (count - 1) * factor;
            assert(((held + factor) % 256 + rest) % 256 == (held + factor + rest) % 256);
            assert(end.cells =~= goal.cells);
        }
    }
}

/// Run after `plan`, a multiplication leaves in `target` the product of
/// what it held and what `other` holds, modulo 256, and `other` as it was,
/// with the pointer on `counter`.
pub proof fn lemma_lands_multiply(
    plan: Plan,
    start: Tape,
    budget: nat,
    mid: Tape,
    target: nat,
    counter: nat,
    fresh: nat,
    temp: nat,
    other: nat,
)
    requires
        lands(plan, start, budget, mid),
        five_apart(mid.cells.len(), target, counter, fresh, temp, other),
        budget >= 510,
    ensures
        lands(
            plan.multiply(target, counter, fresh, temp, other),
            start,
            budget,
            multiplied(
                point_at(
                    with_cell(with_cell(mid, counter, mid.cells[target as int]), target, 0),
                    counter,
                ),
                target,
                counter,
                fresh,
                temp,
                other,
            ),
        ),
{
    let moved = point_at(
        with_cell(with_cell(mid, counter, mid.cells[target as int]), target, 0),
        target,
    );
    let there = point_at(moved, counter);
    let nodes = Plan::multiply_body(target, counter, fresh, temp, other).goto(counter).nodes;
    lemma_lands_move(plan, start, budget, mid, target, counter);
    lemma_multiply_loop(target, counter, fresh, temp, other, there, budget);
    lemma_run_loop_node(nodes, there, budget);
    lemma_lands_at(
        plan.move_value(target, counter),
        start,
        budget,
        moved,
        counter,
        seq![Node::Loop(nodes)],
        multiplied(there, target, counter, fresh, temp, other),
    );
}

/// A multiplication leaves in `target` the product modulo 256 and leaves
/// `other` unchanged, and every other slot that was taken.
///
/// Where the text so far is complete and runs from `start` to `tape`, in
/// step with the session, `target` and `other` are two taken slots and
/// three slots are free, the text after the multiplication is complete and
/// runs from `start` to a tape that differs from `tape` in `target`, which
/// holds the product, and in free slots at most.
pub proof fn lemma_multiply_then_run(
    before: Session,
    target: nat,
    other: nat,
    start: Tape,
    tape: Tape,
    budget: nat,
) -> (end: Tape)
    requires
        complete(before.code),
        run_list(parse_tree(before.code), start, budget) == finished(tape),
        in_step(before, tape),
        target < tape.cells.len(),
        other < tape.cells.len(),
        target != other,
        before.occupied[target as int],
        before.occupied[other as int],
        before.free() > 2,
        budget >= 510,
    ensures
        complete(before.multiply(target, other).code),
        run_list(parse_tree(before.multiply(target, other).code), start, budget) == finished(end),
        end.pointer == before.multiply(target, other).position,
        end.cells.len() == tape.cells.len(),
        end.cells[target as int] == wrap(tape.cells[target as int] * tape.cells[other as int]),
        forall|slot: int|
            0 <= slot < tape.cells.len() && before.occupied[slot] && slot != target
                ==> end.cells[slot] == tape.cells[slot],
        end.input == tape.input,
        end.output == tape.output,
{
    let counter = before.next_free();
    let taken = before.take(counter);
    let fresh = taken.next_free();
    let taken_two = taken.take(fresh);
    let temp = taken_two.next_free();
    let plan = Plan::start(before.position);
    lemma_free_count_bounds(before.occupied);
    lemma_first_free(before.occupied, counter);
    lemma_free_count_update(before.occupied, counter as int, true);
    lemma_free_count_bounds(taken.occupied);
    lemma_first_free(taken.occupied, fresh);
    lemma_free_count_update(taken.occupied, fresh as int, true);
    lemma_free_count_bounds(taken_two.occupied);
    lemma_first_free(taken_two.occupied, temp);
    lemma_mirror_start(before);
    lemma_mirror_multiply(before, before, plan, target, other);
    lemma_lands_start(tape, budget);
    lemma_lands_multiply(plan, tape, budget, tape, target, counter, fresh, temp, other);
    let there = point_at(
        with_cell(with_cell(tape, counter, tape.cells[target as int]), target, 0),
        counter,
    );
    let end = multiplied(there, target, counter, fresh, temp, other);
    lemma_then_run(
        before,
        before.multiply(target, other),
        plan.multiply(target, counter, fresh, temp, other),
        start,
        tape,
        end,
        budget,
    );
    assert(0 * tape.cells[other as int] == 0);
    end
}

impl Plan {
    /// The instructions of `set` at `slot`.
    pub open spec fn set(self, slot: nat, value: u8) -> Plan {
        self.at(slot, zero_nodes() + add_nodes(value))
    }

    /// The instructions of `Session::negate`, with `fresh` and `temp` the
    /// free slots it takes, in that order.
    pub open spec fn negate(self, target: nat, fresh: nat, temp: nat) -> Plan {
        self.copy(target, temp, fresh).set(target, 1).drain(target, fresh, false)
    }

    /// The instructions of `Session::or_cell`.
    pub open spec fn or_cell(self, target: nat, other: nat) -> Plan {
        self.drain(other, target, true).repeat_at(
            other,
            Plan::start(other).at(target, seq![Node::Increment]).at(other, zero_nodes()),
        )
    }

    /// The instructions of `Session::and_cell`.
    pub open spec fn and_cell(self, target: nat, other: nat) -> Plan {
        self.at(other, seq![Node::Decrement]).repeat_at(
            other,
            Plan::start(other).at(other, seq![Node::Increment]).set(target, 0),
        )
    }

    /// The instructions of `Session::xor_cell`, with `fresh` and `temp` the
    /// free slots it takes, in that order.
    pub open spec fn xor_cell(self, target: nat, other: nat, fresh: nat, temp: nat) -> Plan {
        self.repeat_at(
            other,
            Plan::start(other).negate(target, fresh, temp).at(other, zero_nodes()),
        )
    }
}

/// The text that `set` adds is the text of the plan's `set`.
pub proof fn lemma_mirror_set(before: Session, now: Session, plan: Plan, slot: nat, value: u8)
    requires
        mirrors(before, now, plan),
    ensures
        mirrors(before, now.at(slot, set_code(value)), plan.set(slot, value)),
{
    lemma_flatten_zero();
    lemma_flatten_add(value);
    lemma_flatten_concat(zero_nodes(), add_nodes(value));
    lemma_mirror_at(before, now, plan, slot, zero_nodes() + add_nodes(value), set_code(value));
}

/// Run after `plan`, `set` leaves `value` in `slot`, with the pointer on it.
pub proof fn lemma_lands_set(
    plan: Plan,
    start: Tape,
    budget: nat,
    mid: Tape,
    slot: nat,
    value: u8,
)
    requires
        lands(plan, start, budget, mid),
        slot < mid.cells.len(),
        budget >= 255,
    ensures
        lands(plan.set(slot, value), start, budget, point_at(with_cell(mid, slot, value), slot)),
{
    let onto = point_at(mid, slot);
    let made = point_at(with_cell(mid, slot, value), slot);
    lemma_run_zero(onto, budget);
    lemma_run_add(value, onto.store(0), budget);
    lemma_run_concat(zero_nodes(), add_nodes(value), onto, budget);
    assert(onto.store(0).store(wrap(onto.store(0).current() + value)) == made) by {
        assert(onto.store(0).store(wrap(onto.store(0).current() + value)).cells =~= made.cells);
    }
    lemma_lands_at(plan, start, budget, mid, slot, zero_nodes() + add_nodes(value), made);
}

/// A loop whose body leaves zero under the pointer runs once or not at all.
pub proof fn lemma_lands_once(
    plan: Plan,
    start: Tape,
    budget: nat,
    mid: Tape,
    slot: nat,
    body: Plan,
    after: Tape,
)
    requires
        lands(plan, start, budget, mid),
        slot < mid.cells.len(),
        budget >= 1,
        mid.cells[slot as int] != 0 ==> lands(
            body.goto(slot),
            point_at(mid, slot),
            (budget - 1) as nat,
            after,
        ) && after.cells[slot as int] == 0,
    ensures
        lands(
            plan.repeat_at(slot, body),
            start,
            budget,
            if mid.cells[slot as int] == 0 {
                point_at(mid, slot)
            } else {
                after
            },
        ),
{
    let there = point_at(mid, slot);
    let nodes = body.goto(slot).nodes;
    let end = if mid.cells[slot as int] == 0 {
        there
    } else {
        after
    };
    if there.current() != 0 {
        assert(run_list(nodes, there, (budget - 1) as nat) == finished(after));
        assert(run_loop(nodes, after, (budget - 1) as nat) == finished(after));
    }
    lemma_run_loop_node(nodes, there, budget);
    lemma_lands_at(plan, start, budget, mid, slot, seq![Node::Loop(nodes)], end);
}

/// The text that `negate` adds is the text of the plan's `negate` with the
/// two slots that it takes from the pool.
pub proof fn lemma_mirror_negate(before: Session, now: Session, plan: Plan, target: nat)
    requires
        mirrors(before, now, plan),
    ensures
        mirrors(
            before,
            now.negate(target),
            plan.negate(target, now.next_free(), now.take(now.next_free()).next_free()),
        ),
{
    let fresh = now.next_free();
    let temp = now.take(fresh).next_free();
    let copied = now.take(fresh).copy(target, fresh);
    lemma_mirror_copy(before, now.take(fresh), plan, target, fresh);
    lemma_mirror_set(before, copied, plan.copy(target, temp, fresh), target, 1);
    lemma_mirror_drain(
        before,
        copied.at(target, set_code(1)),
        plan.copy(target, temp, fresh).set(target, 1),
        target,
        fresh,
        false,
    );
}

/// Run after `plan`, `negate` leaves in `target` one minus what it held,
/// wrapping, and zero in the two slots it took, with the pointer on `fresh`.
pub proof fn lemma_lands_negate(
    plan: Plan,
    start: Tape,
    budget: nat,
    mid: Tape,
    target: nat,
    fresh: nat,
    temp: nat,
)
    requires
        lands(plan, start, budget, mid),
        target < mid.cells.len(),
        fresh < mid.cells.len(),
        temp < mid.cells.len(),
        target != fresh,
        target != temp,
        fresh != temp,
        budget >= 255,
    ensures
        lands(
            plan.negate(target, fresh, temp),
            start,
            budget,
            point_at(
                with_cell(
                    with_cell(
                        with_cell(mid, target, wrap(1 - mid.cells[target as int])),
                        temp,
                        0,
                    ),
                    fresh,
                    0,
                ),
                fresh,
            ),
        ),
{
    let held = mid.cells[target as int];
    let copied = point_at(with_cell(with_cell(mid, fresh, held), temp, 0), temp);
    let made = point_at(with_cell(copied, target, 1), target);
    lemma_lands_copy(plan, start, budget, mid, target, temp, fresh);
    lemma_lands_set(plan.copy(target, temp, fresh), start, budget, copied, target, 1);
    lemma_lands_drain(
        plan.copy(target, temp, fresh).set(target, 1),
        start,
        budget,
        made,
        target,
        fresh,
        false,
    );
    let end = point_at(
        with_cell(with_cell(with_cell(mid, target, wrap(1 - held)), temp, 0), fresh, 0),
        fresh,
    );
    let got = point_at(
        with_cell(
            with_cell(
                made,
                target,
                wrap(made.cells[target as int] + (-1) * made.cells[fresh as int]),
            ),
            fresh,
            0,
        ),
        fresh,
    );
    assert(made.cells[target as int] == 1);
    assert(made.cells[fresh as int] == held);
    assert((-1) * made.cells[fresh as int] == -(held as int));
    assert(got.cells =~= end.cells);
}

/// The text that `or_cell` adds is the text of the plan's `or_cell`.
pub proof fn lemma_mirror_or(before: Session, now: Session, plan: Plan, target: nat, other: nat)
    requires
        mirrors(before, now, plan),
    ensures
        mirrors(before, now.or_cell(target, other), plan.or_cell(target, other)),
{
    let drained = now.drain(other, target, seq!['+']);
    let base = drained.at(other, seq!['[']);
    lemma_mirror_drain(before, now, plan, other, target, true);
    lemma_flatten_step(true);
    lemma_flatten_zero();
    lemma_mirror_start(base);
    lemma_mirror_at(base, base, Plan::start(other), target, seq![Node::Increment], seq!['+']);
    lemma_mirror_at(
        base,
        base.at(target, seq!['+']),
        Plan::start(other).at(target, seq![Node::Increment]),
        other,
        zero_nodes(),
        zero_code(),
    );
    lemma_mirror_loop(
        before,
        drained,
        plan.drain(other, target, true),
        other,
        base.at(target, seq!['+']).at(other, zero_code()),
        Plan::start(other).at(target, seq![Node::Increment]).at(other, zero_nodes()),
    );
}

/// Run after `plan`, `or_cell` leaves one in `target` where `target` and
/// `other` did not add up to zero, and zero where they did, and zero in
/// `other`, with the pointer on `other`.
pub proof fn lemma_lands_or(
    plan: Plan,
    start: Tape,
    budget: nat,
    mid: Tape,
    target: nat,
    other: nat,
)
    requires
        lands(plan, start, budget, mid),
        target < mid.cells.len(),
        other < mid.cells.len(),
        target != other,
        budget >= 256,
    ensures
        lands(
            plan.or_cell(target, other),
            start,
            budget,
            point_at(
                with_cell(
                    with_cell(
                        mid,
                        target,
                        bool_byte(
                            wrap(mid.cells[other as int] + mid.cells[target as int]) != 0,
                        ),
                    ),
                    other,
                    0,
                ),
                other,
            ),
        ),
{
    let sum = wrap(mid.cells[other as int] + 1 * mid.cells[target as int]);
    let drained = point_at(with_cell(with_cell(mid, other, sum), target, 0), target);
    let there = point_at(drained, other);
    let body = Plan::start(other).at(target, seq![Node::Increment]).at(other, zero_nodes());
    let less = (budget - 1) as nat;
    let end = point_at(
        with_cell(with_cell(mid, target, bool_byte(sum != 0)), other, 0),
        other,
    );
    lemma_lands_drain(plan, start, budget, mid, other, target, true);
    let raised = touch(there, target, 1);
    let cleared = point_at(with_cell(raised, other, 0), other);
    if sum != 0 {
        lemma_lands_start(there, less);
        lemma_lands_touch(Plan::start(other), there, less, there, target, true);
        lemma_lands_zero(
            Plan::start(other).at(target, seq![Node::Increment]),
            there,
            less,
            raised,
            other,
        );
        lemma_lands_goto(body, there, less, cleared, other);
        assert(point_at(cleared, other).cells =~= end.cells);
    } else {
        assert(there.cells =~= end.cells);
    }
    lemma_lands_once(
        plan.drain(other, target, true),
        start,
        budget,
        drained,
        other,
        body,
        point_at(cleared, other),
    );
}

/// The text that `and_cell` adds is the text of the plan's `and_cell`.
pub proof fn lemma_mirror_and(before: Session, now: Session, plan: Plan, target: nat, other: nat)
    requires
        mirrors(before, now, plan),
    ensures
        mirrors(before, now.and_cell(target, other), plan.and_cell(target, other)),
{
    let lowered = now.at(other, seq!['-']);
    let base = lowered.at(other, seq!['[']);
    lemma_flatten_step(true);
    lemma_flatten_step(false);
    lemma_mirror_at(before, now, plan, other, seq![Node::Decrement], seq!['-']);
    lemma_mirror_start(base);
    lemma_mirror_at(base, base, Plan::start(other), other, seq![Node::Increment], seq!['+']);
    lemma_mirror_set(
        base,
        base.at(other, seq!['+']),
        Plan::start(other).at(other, seq![Node::Increment]),
        target,
        0,
    );
    lemma_mirror_loop(
        before,
        lowered,
        plan.at(other, seq![Node::Decrement]),
        other,
        base.at(other, seq!['+']).at(target, set_code(0)),
        Plan::start(other).at(other, seq![Node::Increment]).set(target, 0),
    );
}

/// Run after `plan`, with zero or one in `other`, `and_cell` leaves
/// `target` as it was where `other` held one and at zero where it held
/// zero, and zero in `other`, with the pointer on `other`.
pub proof fn lemma_lands_and(
    plan: Plan,
    start: Tape,
    budget: nat,
    mid: Tape,
    target: nat,
    other: nat,
)
    requires
        lands(plan, start, budget, mid),
        target < mid.cells.len(),
        other < mid.cells.len(),
        target != other,
        mid.cells[other as int] <= 1,
        budget >= 256,
    ensures
        lands(
            plan.and_cell(target, other),
            start,
            budget,
            point_at(
                with_cell(
                    with_cell(
                        mid,
                        target,
                        if mid.cells[other as int] == 1 {
                            mid.cells[target as int]
                        } else {
                            0
                        },
                    ),
                    other,
                    0,
                ),
                other,
            ),
        ),
{
    let lowered = touch(mid, other, -1);
    let body = Plan::start(other).at(other, seq![Node::Increment]).set(target, 0);
    let less = (budget - 1) as nat;
    let end = point_at(
        with_cell(
            with_cell(
                mid,
                target,
                if mid.cells[other as int] == 1 {
                    mid.cells[target as int]
                } else {
                    0
                },
            ),
            other,
            0,
        ),
        other,
    );
    lemma_lands_touch(plan, start, budget, mid, other, false);
    let raised = touch(lowered, other, 1);
    let cleared = point_at(with_cell(raised, target, 0), target);
    if mid.cells[other as int] == 0 {
        lemma_lands_start(lowered, less);
        lemma_lands_touch(Plan::start(other), lowered, less, lowered, other, true);
        lemma_lands_set(
            Plan::start(other).at(other, seq![Node::Increment]),
            lowered,
            less,
            raised,
            target,
            0,
        );
        lemma_lands_goto(body, lowered, less, cleared, other);
        assert(point_at(cleared, other).cells =~= end.cells);
    } else {
        assert(lowered.cells =~= end.cells);
    }
    lemma_lands_once(
        plan.at(other, seq![Node::Decrement]),
        start,
        budget,
        lowered,
        other,
        body,
        point_at(cleared, other),
    );
}

/// The text that `xor_cell` adds is the text of the plan's `xor_cell` with
/// the two slots that it takes from the pool.
pub proof fn lemma_mirror_xor(before: Session, now: Session, plan: Plan, target: nat, other: nat)
    requires
        mirrors(before, now, plan),
    ensures
        mirrors(
            before,
            now.xor_cell(target, other),
            plan.xor_cell(
                target,
                other,
                now.next_free(),
                now.take(now.next_free()).next_free(),
            ),
        ),
{
    let fresh = now.next_free();
    let temp = now.take(fresh).next_free();
    let base = now.at(other, seq!['[']);
    lemma_flatten_zero();
    lemma_mirror_start(base);
    lemma_mirror_negate(base, base, Plan::start(other), target);
    lemma_mirror_at(
        base,
        base.negate(target),
        Plan::start(other).negate(target, fresh, temp),
        other,
        zero_nodes(),
        zero_code(),
    );
    lemma_mirror_loop(
        before,
        now,
        plan,
        other,
        base.negate(target).at(other, zero_code()),
        Plan::start(other).negate(target, fresh, temp).at(other, zero_nodes()),
    );
}

/// Run after `plan`, `xor_cell` leaves the tape as it was where `other`
/// held zero; otherwise it leaves in `target` one minus what it held,
/// wrapping, and zero in `other` and in the two slots it took. The pointer
/// ends on `other`.
pub proof fn lemma_lands_xor(
    plan: Plan,
    start: Tape,
    budget: nat,
    mid: Tape,
    target: nat,
    other: nat,
    fresh: nat,
    temp: nat,
)
    requires
        lands(plan, start, budget, mid),
        target < mid.cells.len(),
        other < mid.cells.len(),
        fresh < mid.cells.len(),
        temp < mid.cells.len(),
        target != other,
        target != fresh,
        target != temp,
        other != fresh,
        other != temp,
        fresh != temp,
        budget >= 256,
    ensures
        lands(
            plan.xor_cell(target, other, fresh, temp),
            start,
            budget,
            if mid.cells[other as int] == 0 {
                point_at(mid, other)
            } else {
                point_at(
                    with_cell(
                        with_cell(
                            with_cell(
                                with_cell(mid, target, wrap(1 - mid.cells[target as int])),
                                temp,
                                0,
                            ),
                            fresh,
                            0,
                        ),
                        other,
                        0,
                    ),
                    other,
                )
            },
        ),
{
    let there = point_at(mid, other);
    let body = Plan::start(other).negate(target, fresh, temp).at(other, zero_nodes());
    let less = (budget - 1) as nat;
    let negated = point_at(
        with_cell(
            with_cell(with_cell(there, target, wrap(1 - there.cells[target as int])), temp, 0),
            fresh,
            0,
        ),
        fresh,
    );
    let cleared = point_at(with_cell(negated, other, 0), other);
    if mid.cells[other as int] != 0 {
        lemma_lands_start(there, less);
        lemma_lands_negate(Plan::start(other), there, less, there, target, fresh, temp);
        lemma_lands_zero(
            Plan::start(other).negate(target, fresh, temp),
            there,
            less,
            negated,
            other,
        );
        lemma_lands_goto(body, there, less, cleared, other);
    }
    lemma_lands_once(plan, start, budget, mid, other, body, point_at(cleared, other));
}

/// The two slots that the pool hands out next are on the tape, apart from
/// each other and from every slot that is taken.
pub proof fn lemma_two_free_are_new(session: Session, held: nat)
    requires
        session.free() > 1,
        held < session.occupied.len(),
        session.occupied[held as int],
    ensures
        session.next_free() < session.occupied.len(),
        session.take(session.next_free()).next_free() < session.occupied.len(),
        session.next_free() != session.take(session.next_free()).next_free(),
        session.next_free() != held,
        session.take(session.next_free()).next_free() != held,
        !session.occupied[session.next_free() as int],
        !session.occupied[session.take(session.next_free()).next_free() as int],
{
    let fresh = session.next_free();
    let taken = session.take(fresh);
    lemma_free_count_bounds(session.occupied);
    lemma_first_free(session.occupied, fresh);
    lemma_free_count_update(session.occupied, fresh as int, true);
    lemma_free_count_bounds(taken.occupied);
    lemma_first_free(taken.occupied, taken.next_free());
}

/// Negating a boolean cell leaves one where it held zero and zero where it
/// held one, and every other taken slot as it was.
///
/// Where the text so far is complete and runs from `start` to `tape`, in
/// step with the session, the text after the negation is complete and runs
/// from `start` to the tape `end`.
pub proof fn lemma_negate_then_run(
    before: Session,
    target: nat,
    start: Tape,
    tape: Tape,
    budget: nat,
) -> (end: Tape)
    requires
        complete(before.code),
        run_list(parse_tree(before.code), start, budget) == finished(tape),
        in_step(before, tape),
        target < tape.cells.len(),
        tape.cells[target as int] <= 1,
        before.occupied[target as int],
        before.free() > 1,
        budget >= 255,
    ensures
        complete(before.negate(target).code),
        run_list(parse_tree(before.negate(target).code), start, budget) == finished(end),
        end.pointer == before.negate(target).position,
        end.cells.len() == tape.cells.len(),
        end.cells[target as int] == bool_byte(tape.cells[target as int] == 0),
        forall|slot: int|
            0 <= slot < tape.cells.len() && before.occupied[slot] && slot != target
                ==> end.cells[slot] == tape.cells[slot],
        end.input == tape.input,
        end.output == tape.output,
{
    let fresh = before.next_free();
    let temp = before.take(fresh).next_free();
    let plan = Plan::start(before.position);
    lemma_two_free_are_new(before, target);
    lemma_mirror_start(before);
    lemma_mirror_negate(before, before, plan, target);
    lemma_lands_start(tape, budget);
    lemma_lands_negate(plan, tape, budget, tape, target, fresh, temp);
    let end = point_at(
        with_cell(
            with_cell(with_cell(tape, target, wrap(1 - tape.cells[target as int])), temp, 0),
            fresh,
            0,
        ),
        fresh,
    );
    lemma_then_run(
        before,
        before.negate(target),
        plan.negate(target, fresh, temp),
        start,
        tape,
        end,
        budget,
    );
    end
}

/// After `or` on two boolean cells the target holds one where either held
/// one, and zero where neither did; the other cell is used up.
pub proof fn lemma_or_then_run(
    before: Session,
    target: nat,
    other: nat,
    start: Tape,
    tape: Tape,
    budget: nat,
)
    requires
        complete(before.code),
        run_list(parse_tree(before.code), start, budget) == finished(tape),
        in_step(before, tape),
        target < tape.cells.len(),
        other < tape.cells.len(),
        target != other,
        tape.cells[target as int] <= 1,
        tape.cells[other as int] <= 1,
        budget >= 256,
    ensures
        complete(before.or_cell(target, other).code),
        run_list(parse_tree(before.or_cell(target, other).code), start, budget) == finished(
            point_at(
                with_cell(
                    with_cell(
                        tape,
                        target,
                        bool_byte(tape.cells[target as int] == 1 || tape.cells[other as int] == 1),
                    ),
                    other,
                    0,
                ),
                other,
            ),
        ),
        before.or_cell(target, other).position == other,
{
    let plan = Plan::start(before.position);
    lemma_mirror_start(before);
    lemma_mirror_or(before, before, plan, target, other);
    lemma_lands_start(tape, budget);
    lemma_lands_or(plan, tape, budget, tape, target, other);
    lemma_then_run(
        before,
        before.or_cell(target, other),
        plan.or_cell(target, other),
        start,
        tape,
        point_at(
            with_cell(
                with_cell(
                    tape,
                    target,
                    bool_byte(tape.cells[target as int] == 1 || tape.cells[other as int] == 1),
                ),
                other,
                0,
            ),
            other,
        ),
        budget,
    );
}

/// After `and` on two boolean cells the target holds one where both held
/// one, and zero otherwise; the other cell is used up.
pub proof fn lemma_and_then_run(
    before: Session,
    target: nat,
    other: nat,
    start: Tape,
    tape: Tape,
    budget: nat,
)
    requires
        complete(before.code),
        run_list(parse_tree(before.code), start, budget) == finished(tape),
        in_step(before, tape),
        target < tape.cells.len(),
        other < tape.cells.len(),
        target != other,
        tape.cells[target as int] <= 1,
        tape.cells[other as int] <= 1,
        budget >= 256,
    ensures
        complete(before.and_cell(target, other).code),
        run_list(parse_tree(before.and_cell(target, other).code), start, budget) == finished(
            point_at(
                with_cell(
                    with_cell(
                        tape,
                        target,
                        bool_byte(tape.cells[target as int] == 1 && tape.cells[other as int] == 1),
                    ),
                    other,
                    0,
                ),
                other,
            ),
        ),
        before.and_cell(target, other).position == other,
{
    let plan = Plan::start(before.position);
    lemma_mirror_start(before);
    lemma_mirror_and(before, before, plan, target, other);
    lemma_lands_start(tape, budget);
    lemma_lands_and(plan, tape, budget, tape, target, other);
    lemma_then_run(
        before,
        before.and_cell(target, other),
        plan.and_cell(target, other),
        start,
        tape,
        point_at(
            with_cell(
                with_cell(
                    tape,
                    target,
                    bool_byte(tape.cells[target as int] == 1 && tape.cells[other as int] == 1),
                ),
                other,
                0,
            ),
            other,
        ),
        budget,
    );
}

/// After `xor` on two boolean cells the target holds one where exactly one
/// of them held one, and zero otherwise; the other cell is used up, and
/// every other taken slot is as it was.
pub proof fn lemma_xor_then_run(
    before: Session,
    target: nat,
    other: nat,
    start: Tape,
    tape: Tape,
    budget: nat,
) -> (end: Tape)
    requires
        complete(before.code),
        run_list(parse_tree(before.code), start, budget) == finished(tape),
        in_step(before, tape),
        target < tape.cells.len(),
        other < tape.cells.len(),
        target != other,
        tape.cells[target as int] <= 1,
        tape.cells[other as int] <= 1,
        before.occupied[target as int],
        before.occupied[other as int],
        before.free() > 1,
        budget >= 256,
    ensures
        complete(before.xor_cell(target, other).code),
        run_list(parse_tree(before.xor_cell(target, other).code), start, budget) == finished(end),
        end.pointer == before.xor_cell(target, other).position,
        end.cells.len() == tape.cells.len(),
        end.cells[target as int] == bool_byte(
            (tape.cells[target as int] == 1) != (tape.cells[other as int] == 1),
        ),
        end.cells[other as int] == 0,
        forall|slot: int|
            0 <= slot < tape.cells.len() && before.occupied[slot] && slot != target && slot
                != other ==> end.cells[slot] == tape.cells[slot],
        end.input == tape.input,
        end.output == tape.output,
{
    let fresh = before.next_free();
    let temp = before.take(fresh).next_free();
    let plan = Plan::start(before.position);
    lemma_two_free_are_new(before, target);
    lemma_two_free_are_new(before, other);
    lemma_mirror_start(before);
    lemma_mirror_xor(before, before, plan, target, other);
    lemma_lands_start(tape, budget);
    lemma_lands_xor(plan, tape, budget, tape, target, other, fresh, temp);
    let end = if tape.cells[other as int] == 0 {
        point_at(tape, other)
    } else {
        point_at(
            with_cell(
                with_cell(
                    with_cell(
                        with_cell(tape, target, wrap(1 - tape.cells[target as int])),
                        temp,
                        0,
                    ),
                    fresh,
                    0,
                ),
                other,
                0,
            ),
            other,
        )
    };
    lemma_then_run(
        before,
        before.xor_cell(target, other),
        plan.xor_cell(target, other, fresh, temp),
        start,
        tape,
        end,
        budget,
    );
    end
}

/// A comparison of two cells answers one exactly where they hold the same
/// value, for `eq`, or exactly where they do not, for `ne`; both cells are
/// used up, and every other taken slot is as it was.
pub proof fn lemma_compare_then_run(
    before: Session,
    left: nat,
    right: nat,
    for_equal: bool,
    start: Tape,
    tape: Tape,
    budget: nat,
) -> (end: Tape)
    requires
        complete(before.code),
        run_list(parse_tree(before.code), start, budget) == finished(tape),
        in_step(before, tape),
        left < tape.cells.len(),
        right < tape.cells.len(),
        left != right,
        before.occupied[left as int],
        before.occupied[right as int],
        budget >= 256,
    ensures
        complete(before.sub_cell(left, right).test(left, for_equal).code),
        run_list(
            parse_tree(before.sub_cell(left, right).test(left, for_equal).code),
            start,
            budget,
        ) == finished(end),
        end.pointer == before.sub_cell(left, right).test(left, for_equal).position,
        end.cells.len() == tape.cells.len(),
        before.sub_cell(left, right).next_free() < tape.cells.len(),
        end.cells[before.sub_cell(left, right).next_free() as int] == bool_byte(
            (tape.cells[left as int] == tape.cells[right as int]) == for_equal,
        ),
        forall|slot: int|
            0 <= slot < tape.cells.len() && before.occupied[slot] && slot != left && slot
                != right ==> end.cells[slot] == tape.cells[slot],
        end.input == tape.input,
        end.output == tape.output,
{
    let plan = Plan::start(before.position);
    let drained = before.drain(left, right, seq!['-']);
    let given = drained.release(right);
    let answer = given.next_free();
    lemma_free_count_update(before.occupied, right as int, false);
    lemma_next_free_is_new(given, left);
    lemma_first_free(given.occupied, answer);
    lemma_mirror_start(before);
    lemma_mirror_drain(before, before, plan, left, right, false);
    lemma_mirror_test(before, given, plan.drain(left, right, false), left, for_equal);
    lemma_lands_start(tape, budget);
    lemma_lands_drain(plan, tape, budget, tape, left, right, false);
    let difference = wrap(tape.cells[left as int] + (-1) * tape.cells[right as int]);
    assert((difference == 0) == (tape.cells[left as int] == tape.cells[right as int])) by {
        let a = tape.cells[left as int] as int;
        let b = tape.cells[right as int] as int;
        assert((-1) * b == -b);
        assert(-255 <= a - b <= 255);
        if a != b {
            if a > b {
                assert((a - b) % 256 == a - b);
            } else {
                assert((a - b) % 256 == a - b + 256);
            }
        }
    }
    let mid = point_at(with_cell(with_cell(tape, left, difference), right, 0), right);
    assert(mid.cells[left as int] == difference);
    lemma_lands_test(plan.drain(left, right, false), tape, budget, mid, left, answer, for_equal);
    let end = point_at(
        with_cell(
            with_cell(mid, answer, bool_byte((mid.cells[left as int] == 0) == for_equal)),
            left,
            0,
        ),
        left,
    );
    lemma_then_run(
        before,
        given.test(left, for_equal),
        plan.drain(left, right, false).test(left, answer, for_equal),
        start,
        tape,
        end,
        budget,
    );
    end
}

/// Text without a character is complete, stands for the program without
/// an instruction, and runs from every tape to itself.
pub proof fn lemma_empty_runs(tape: Tape, budget: nat)
    ensures
        complete(Seq::<char>::empty()),
        parse_tree(Seq::<char>::empty()) == Seq::<Node>::empty(),
        run_list(parse_tree(Seq::<char>::empty()), tape, budget) == finished(tape),
{
    lemma_scan_facts(Seq::<char>::empty());
}

/// Clearing a cell leaves zero in it, with the pointer on it and nothing
/// else changed.
pub proof fn lemma_zero_then_run(
    before: Session,
    slot: nat,
    start: Tape,
    tape: Tape,
    budget: nat,
)
    requires
        complete(before.code),
        run_list(parse_tree(before.code), start, budget) == finished(tape),
        in_step(before, tape),
        slot < tape.cells.len(),
        budget >= 255,
    ensures
        complete(before.at(slot, zero_code()).code),
        run_list(parse_tree(before.at(slot, zero_code()).code), start, budget) == finished(
            point_at(with_cell(tape, slot, 0), slot),
        ),
        before.at(slot, zero_code()).position == slot,
{
    let plan = Plan::start(before.position);
    lemma_flatten_zero();
    lemma_mirror_start(before);
    lemma_mirror_at(before, before, plan, slot, zero_nodes(), zero_code());
    lemma_lands_start(tape, budget);
    lemma_lands_zero(plan, tape, budget, tape, slot);
    lemma_then_run(
        before,
        before.at(slot, zero_code()),
        plan.at(slot, zero_nodes()),
        start,
        tape,
        point_at(with_cell(tape, slot, 0), slot),
        budget,
    );
}

/// Where the session mirrors the plan, the session after `goto` mirrors
/// the plan after `goto`.
pub proof fn lemma_mirror_goto(before: Session, now: Session, plan: Plan, slot: nat)
    requires
        mirrors(before, now, plan),
    ensures
        mirrors(before, now.goto(slot), plan.goto(slot)),
{
    lemma_flatten_shift(plan.position, slot);
    lemma_flatten_concat(plan.nodes, shift_nodes(plan.position, slot));
    assert(now.goto(slot).code =~= before.code + flatten(plan.goto(slot).nodes));
}

/// Moving the pointer to a cell leaves the machine's pointer on that cell,
/// where the session has it, and changes nothing else.
pub proof fn lemma_goto_then_run(
    before: Session,
    slot: nat,
    start: Tape,
    tape: Tape,
    budget: nat,
)
    requires
        complete(before.code),
        run_list(parse_tree(before.code), start, budget) == finished(tape),
        in_step(before, tape),
        slot < tape.cells.len(),
    ensures
        complete(before.goto(slot).code),
        run_list(parse_tree(before.goto(slot).code), start, budget) == finished(
            point_at(tape, slot),
        ),
        before.goto(slot).position == slot,
{
    let plan = Plan::start(before.position);
    lemma_mirror_start(before);
    lemma_mirror_goto(before, before, plan, slot);
    lemma_lands_start(tape, budget);
    lemma_lands_goto(plan, tape, budget, tape, slot);
    lemma_then_run(
        before,
        before.goto(slot),
        plan.goto(slot),
        start,
        tape,
        point_at(tape, slot),
        budget,
    );
}

/// Incrementing or decrementing a cell changes it by one, wrapping, with
/// the pointer on it and nothing else changed.
pub proof fn lemma_step_then_run(
    before: Session,
    slot: nat,
    up: bool,
    start: Tape,
    tape: Tape,
    budget: nat,
)
    requires
        complete(before.code),
        run_list(parse_tree(before.code), start, budget) == finished(tape),
        in_step(before, tape),
        slot < tape.cells.len(),
    ensures
        complete(before.at(slot, seq![step_char(up)]).code),
        run_list(parse_tree(before.at(slot, seq![step_char(up)]).code), start, budget) == finished(
            touch(tape, slot, sign(up)),
        ),
        before.at(slot, seq![step_char(up)]).position == slot,
{
    let plan = Plan::start(before.position);
    lemma_flatten_step(up);
    lemma_mirror_start(before);
    lemma_mirror_at(before, before, plan, slot, seq![step_node(up)], seq![step_char(up)]);
    lemma_lands_start(tape, budget);
    lemma_lands_touch(plan, tape, budget, tape, slot, up);
    lemma_then_run(
        before,
        before.at(slot, seq![step_char(up)]),
        plan.at(slot, seq![step_node(up)]),
        start,
        tape,
        touch(tape, slot, sign(up)),
        budget,
    );
}

/// Adding a value to a cell, or subtracting it, leaves the sum or the
/// difference modulo 256, with the pointer on the cell and nothing else
/// changed, whichever way round the text goes.
pub proof fn lemma_add_then_run(
    before: Session,
    slot: nat,
    value: u8,
    up: bool,
    start: Tape,
    tape: Tape,
    budget: nat,
)
    requires
        complete(before.code),
        run_list(parse_tree(before.code), start, budget) == finished(tape),
        in_step(before, tape),
        slot < tape.cells.len(),
    ensures
        complete(
            before.at(
                slot,
                if up {
                    add_code(value)
                } else {
                    sub_code(value)
                },
            ).code,
        ),
        run_list(
            parse_tree(
                before.at(
                    slot,
                    if up {
                        add_code(value)
                    } else {
                        sub_code(value)
                    },
                ).code,
            ),
            start,
            budget,
        ) == finished(touch(tape, slot, sign(up) * value)),
        before.at(
            slot,
            if up {
                add_code(value)
            } else {
                sub_code(value)
            },
        ).position == slot,
{
    let plan = Plan::start(before.position);
    let text = if up {
        add_code(value)
    } else {
        sub_code(value)
    };
    let piece = if up {
        add_nodes(value)
    } else {
        sub_nodes(value)
    };
    let there = point_at(tape, slot);
    lemma_flatten_add(value);
    lemma_mirror_start(before);
    lemma_mirror_at(before, before, plan, slot, piece, text);
    lemma_lands_start(tape, budget);
    lemma_run_add(value, there, budget);
    let end = touch(tape, slot, sign(up) * value);
    assert(there.store(wrap(there.current() + sign(up) * value)) == end);
    lemma_lands_at(plan, tape, budget, tape, slot, piece, end);
    lemma_then_run(before, before.at(slot, text), plan.at(slot, piece), start, tape, end, budget);
}

/// Reading into a cell takes the next byte of the input, or zero where
/// there is none; writing a cell adds its byte to the output. Either
/// leaves the pointer on the cell.
pub proof fn lemma_transfer_then_run(
    before: Session,
    slot: nat,
    reading: bool,
    start: Tape,
    tape: Tape,
    budget: nat,
)
    requires
        complete(before.code),
        run_list(parse_tree(before.code), start, budget) == finished(tape),
        in_step(before, tape),
        slot < tape.cells.len(),
    ensures
        complete(
            before.at(
                slot,
                seq![if reading {
                    ','
                } else {
                    '.'
                }],
            ).code,
        ),
        run_list(
            parse_tree(
                before.at(
                    slot,
                    seq![if reading {
                        ','
                    } else {
                        '.'
                    }],
                ).code,
            ),
            start,
            budget,
        ) == finished(
            if reading {
                point_at(tape, slot).read()
            } else {
                point_at(tape, slot).write()
            },
        ),
        before.at(
            slot,
            seq![if reading {
                ','
            } else {
                '.'
            }],
        ).position == slot,
{
    let plan = Plan::start(before.position);
    let node = if reading {
        Node::Read
    } else {
        Node::Write
    };
    let c = if reading {
        ','
    } else {
        '.'
    };
    let there = point_at(tape, slot);
    let end = there.step(node);
    lemma_flatten_one(node);
    lemma_mirror_start(before);
    lemma_mirror_at(before, before, plan, slot, seq![node], seq![c]);
    lemma_lands_start(tape, budget);
    reveal_with_fuel(run_list, 2);
    assert(seq![node].drop_first() =~= Seq::<Node>::empty());
    assert(run_list(seq![node], there, budget) == finished(end));
    lemma_lands_at(plan, tape, budget, tape, slot, seq![node], end);
    lemma_then_run(
        before,
        before.at(slot, seq![c]),
        plan.at(slot, seq![node]),
        start,
        tape,
        end,
        budget,
    );
}

/// Adding the value of another cell, or subtracting it, by way of a copy
/// leaves the sum or the difference modulo 256 in `target` and every other
/// taken slot, `other` among them, as it was.
pub proof fn lemma_add_ref_then_run(
    before: Session,
    target: nat,
    other: nat,
    up: bool,
    start: Tape,
    tape: Tape,
    budget: nat,
) -> (end: Tape)
    requires
        complete(before.code),
        run_list(parse_tree(before.code), start, budget) == finished(tape),
        in_step(before, tape),
        target < tape.cells.len(),
        other < tape.cells.len(),
        target != other,
        before.occupied[target as int],
        before.occupied[other as int],
        before.free() > 1,
        budget >= 255,
    ensures
        complete(
            if up {
                before.add_ref(target, other)
            } else {
                before.sub_ref(target, other)
            }.code,
        ),
        run_list(
            parse_tree(
                if up {
                    before.add_ref(target, other)
                } else {
                    before.sub_ref(target, other)
                }.code,
            ),
            start,
            budget,
        ) == finished(end),
        end.pointer == before.add_ref(target, other).position,
        end.pointer == before.sub_ref(target, other).position,
        end.cells.len() == tape.cells.len(),
        end.cells[target as int] == wrap(
            tape.cells[target as int] + sign(up) * tape.cells[other as int],
        ),
        forall|slot: int|
            0 <= slot < tape.cells.len() && before.occupied[slot] && slot != target
                ==> end.cells[slot] == tape.cells[slot],
        end.input == tape.input,
        end.output == tape.output,
{
    let fresh = before.next_free();
    let temp = before.take(fresh).next_free();
    let plan = Plan::start(before.position);
    let copied = before.take(fresh).copy(other, fresh);
    let after = copied.drain(target, fresh, seq![step_char(up)]).release(fresh);
    lemma_two_free_are_new(before, target);
    lemma_two_free_are_new(before, other);
    lemma_mirror_start(before);
    lemma_mirror_copy(before, before.take(fresh), plan, other, fresh);
    lemma_mirror_drain(before, copied, plan.copy(other, temp, fresh), target, fresh, up);
    lemma_lands_start(tape, budget);
    lemma_lands_copy(plan, tape, budget, tape, other, temp, fresh);
    let mid = point_at(with_cell(with_cell(tape, fresh, tape.cells[other as int]), temp, 0), temp);
    lemma_lands_drain(plan.copy(other, temp, fresh), tape, budget, mid, target, fresh, up);
    let end = point_at(
        with_cell(
            with_cell(
                mid,
                target,
                wrap(mid.cells[target as int] + sign(up) * mid.cells[fresh as int]),
            ),
            fresh,
            0,
        ),
        fresh,
    );
    lemma_then_run(
        before,
        after,
        plan.copy(other, temp, fresh).drain(target, fresh, up),
        start,
        tape,
        end,
        budget,
    );
    end
}

} // verus!
