use tapegen::compiler::{Instruction, Program};
use tapegen::runner::{Runner, Status};

#[test]
fn three_increments_then_write_outputs_three() {
    let program = Program::new("+++.").unwrap();
    let (runner, status) = program.run::<1>(b"", 1000);
    assert_eq!(status, Status::Finished);
    let (data, index, input, output) = runner.into_inner();
    assert_eq!(data, [3]);
    assert_eq!(index, 0);
    assert_eq!(input, Vec::<u8>::new());
    assert_eq!(output, vec![3]);
}

#[test]
fn clearing_loop_then_write_outputs_zero() {
    let program = Program::new("+[-].").unwrap();
    let (runner, status) = program.run::<1>(b"", 1000);
    assert_eq!(status, Status::Finished);
    let (_, _, _, output) = runner.into_inner();
    assert_eq!(output, vec![0]);
}

#[test]
fn parser_rejects_two_opening_brackets() {
    assert_eq!(Program::new("[[").unwrap_err(), "unmatched opening bracket");
}

#[test]
fn parser_rejects_lone_closing_bracket() {
    assert_eq!(Program::new("]").unwrap_err(), "unmatched closing bracket");
}

#[test]
fn parser_reports_the_early_close_before_the_open_bracket() {
    assert_eq!(Program::new("][").unwrap_err(), "unmatched closing bracket");
    assert_eq!(Program::new("[]][[").unwrap_err(), "unmatched closing bracket");
    assert_eq!(Program::new("[[]").unwrap_err(), "unmatched opening bracket");
}

#[test]
fn parser_ignores_comments() {
    let plain = Program::new("+[->+<]>.").unwrap();
    let noisy = Program::new("add + loop [ - > + < ] then > print . done").unwrap();
    let (a, _) = plain.run::<4>(b"", 100);
    let (b, _) = noisy.run::<4>(b"", 100);
    assert_eq!(a.into_inner(), b.into_inner());
}

#[test]
fn empty_source_is_the_empty_program() {
    let program = Program::new("").unwrap();
    let (runner, status) = program.run::<3>(b"xy", 0);
    assert_eq!(status, Status::Finished);
    let (data, index, input, output) = runner.into_inner();
    assert_eq!(data, [0, 0, 0]);
    assert_eq!(index, 0);
    assert_eq!(input, vec![b'y', b'x']);
    assert_eq!(output, Vec::<u8>::new());
}

#[test]
fn cells_wrap_around_at_both_ends() {
    let mut runner = Runner::<2>::new(b"");
    runner.dec();
    assert_eq!(runner.window(), "<FF> 00");
    runner.inc();
    runner.inc();
    assert_eq!(runner.window(), "<01> 00");
    let (data, _, _, _) = runner.into_inner();
    assert_eq!(data, [1, 0]);
}

#[test]
fn pointer_wraps_around_the_tape() {
    let mut runner = Runner::<3>::new(b"");
    runner.shl();
    runner.inc();
    let (data, index, _, _) = runner.into_inner();
    assert_eq!(index, 2);
    assert_eq!(data, [0, 0, 1]);

    let mut runner = Runner::<3>::new(b"");
    runner.shr();
    runner.shr();
    runner.shr();
    let (_, index, _, _) = runner.into_inner();
    assert_eq!(index, 0);
}

#[test]
fn read_takes_bytes_in_order_and_then_zero() {
    let mut runner = Runner::<4>::new(b"ab");
    runner.read();
    runner.write();
    runner.shr();
    runner.read();
    runner.write();
    runner.shr();
    runner.inc();
    runner.read();
    runner.write();
    let (data, index, input, output) = runner.into_inner();
    assert_eq!(data, [b'a', b'b', 0, 0]);
    assert_eq!(index, 2);
    assert_eq!(input, Vec::<u8>::new());
    assert_eq!(output, vec![b'a', b'b', 0]);
}

#[test]
fn unread_input_comes_back_last_byte_first() {
    let mut runner = Runner::<1>::new(b"abc");
    runner.read();
    let (_, _, input, _) = runner.into_inner();
    assert_eq!(input, vec![b'c', b'b']);
}

#[test]
fn echo_program_copies_input_to_output() {
    let program = Program::new(",[.,]").unwrap();
    let (runner, status) = program.run::<1>(b"hello", 10);
    assert_eq!(status, Status::Finished);
    let (_, _, input, output) = runner.into_inner();
    assert_eq!(input, Vec::<u8>::new());
    assert_eq!(output, b"hello".to_vec());
}

#[test]
fn loop_that_moves_the_pointer_is_reported() {
    let program = Program::new("+[>]").unwrap();
    let (runner, status) = program.run::<4>(b"", 100);
    assert_eq!(status, Status::PointerMoved);
    let (data, index, _, _) = runner.into_inner();
    assert_eq!(data, [1, 0, 0, 0]);
    assert_eq!(index, 1);
}

#[test]
fn loop_that_never_runs_may_move_the_pointer() {
    let program = Program::new("[>]+.").unwrap();
    let (runner, status) = program.run::<4>(b"", 0);
    assert_eq!(status, Status::Finished);
    let (_, _, _, output) = runner.into_inner();
    assert_eq!(output, vec![1]);
}

#[test]
fn endless_loop_runs_out_of_budget() {
    let program = Program::new("+[]").unwrap();
    let (runner, status) = program.run::<1>(b"", 50);
    assert_eq!(status, Status::BudgetExhausted);
    let (data, _, _, _) = runner.into_inner();
    assert_eq!(data, [1]);
}

#[test]
fn budget_counts_the_passes_of_one_loop() {
    let program = Program::new("+++[-]").unwrap();
    let (_, status) = program.run::<1>(b"", 2);
    assert_eq!(status, Status::BudgetExhausted);
    let (runner, status) = program.run::<1>(b"", 3);
    assert_eq!(status, Status::Finished);
    let (data, _, _, _) = runner.into_inner();
    assert_eq!(data, [0]);
}

#[test]
fn repeat_runs_a_body_given_as_instructions() {
    let mut runner = Runner::<2>::new(b"");
    runner.inc();
    runner.inc();
    runner.inc();
    let body = vec![
        Instruction::Decrement,
        Instruction::ShiftRight,
        Instruction::Increment,
        Instruction::Increment,
        Instruction::ShiftLeft,
    ];
    assert_eq!(runner.repeat(&body, 10), Status::Finished);
    let (data, index, _, _) = runner.into_inner();
    assert_eq!(data, [0, 6]);
    assert_eq!(index, 0);
}

#[test]
fn execute_runs_nested_loops() {
    let mut runner = Runner::<3>::new(b"");
    let inner = vec![
        Instruction::Decrement,
        Instruction::ShiftRight,
        Instruction::Increment,
        Instruction::ShiftLeft,
    ];
    let outer = vec![
        Instruction::Decrement,
        Instruction::ShiftRight,
        Instruction::Increment,
        Instruction::Increment,
        Instruction::Increment,
        Instruction::Loop(inner),
        Instruction::ShiftLeft,
    ];
    let list = vec![Instruction::Increment, Instruction::Increment, Instruction::Loop(outer)];
    assert_eq!(runner.execute(&list, 100), Status::Finished);
    let (data, _, _, _) = runner.into_inner();
    assert_eq!(data, [0, 0, 6]);
}

#[test]
fn window_shows_eight_cells_before_and_seven_after() {
    let mut runner = Runner::<32>::new(b"");
    for _ in 0..10 {
        runner.inc();
        runner.shr();
    }
    for _ in 0..171 {
        runner.inc();
    }
    assert_eq!(
        runner.window(),
        "01 01 01 01 01 01 01 01 <AB> 00 00 00 00 00 00 00"
    );
}

#[test]
fn window_stops_at_the_ends_of_the_tape() {
    let mut runner = Runner::<4>::new(b"");
    runner.shl();
    runner.dec();
    runner.dec();
    assert_eq!(runner.window(), "00 00 00 <FE>");
    let runner = Runner::<1>::new(b"");
    assert_eq!(runner.window(), "<00>");
}

#[test]
fn runners_compare_by_what_they_hold() {
    let mut a = Runner::<2>::new(b"x");
    let b = a.clone();
    assert!(a == b);
    a.inc();
    assert!(a != b);
    let mut c = b.clone();
    c.inc();
    assert!(a == c);
}
