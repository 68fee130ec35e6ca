use tapegen::builder::raw::Builder;
use tapegen::builder::tracking::TrackingBuilder;
use tapegen::runner::Status;

#[test]
fn raw_builder_adds_one_character_per_instruction() {
    let mut builder = Builder::new();
    assert_eq!(builder.source(), "");
    builder.inc();
    builder.dec();
    builder.shl();
    builder.shr();
    builder.read();
    builder.write();
    builder.open_loop();
    builder.close_loop();
    assert_eq!(builder.source(), "+-<>,.[]");
}

#[test]
fn inc_by_takes_the_shorter_way_round() {
    let mut builder = Builder::new();
    builder.inc_by(0);
    assert_eq!(builder.source(), "");
    builder.inc_by(3);
    assert_eq!(builder.source(), "+++");

    let mut builder = Builder::new();
    builder.inc_by(128);
    assert_eq!(builder.source(), "+".repeat(128));

    let mut builder = Builder::new();
    builder.inc_by(129);
    assert_eq!(builder.source(), "-".repeat(127));

    let mut builder = Builder::new();
    builder.inc_by(255);
    assert_eq!(builder.source(), "-");
}

#[test]
fn dec_by_takes_the_shorter_way_round() {
    let mut builder = Builder::new();
    builder.dec_by(2);
    assert_eq!(builder.source(), "--");

    let mut builder = Builder::new();
    builder.dec_by(128);
    assert_eq!(builder.source(), "-".repeat(128));

    let mut builder = Builder::new();
    builder.dec_by(200);
    assert_eq!(builder.source(), "+".repeat(56));
}

#[test]
fn raw_repeat_puts_the_body_between_brackets() {
    let mut builder = Builder::new();
    builder.inc();
    builder.repeat(|b: &mut Builder| {
        b.dec();
        b.repeat(|inner: &mut Builder| inner.write());
    });
    assert_eq!(builder.source(), "+[-[.]]");
    assert!(builder.compile().is_ok());
}

#[test]
fn raw_compile_reports_unbalanced_text() {
    let mut builder = Builder::new();
    builder.open_loop();
    assert_eq!(builder.compile().unwrap_err(), "unmatched opening bracket");
    builder.close_loop();
    builder.close_loop();
    assert_eq!(builder.compile().unwrap_err(), "unmatched closing bracket");
}

#[test]
fn goto_emits_the_distance_in_shifts() {
    let mut builder = TrackingBuilder::<8>::new();
    assert_eq!(builder.index(), 0);
    builder.goto(3);
    assert_eq!(builder.source(), ">>>");
    assert_eq!(builder.index(), 3);
    builder.goto(3);
    assert_eq!(builder.source(), ">>>");
    builder.goto(1);
    assert_eq!(builder.source(), ">>><<");
    assert_eq!(builder.index(), 1);
}

#[test]
fn goto_from_last_cell_to_first_does_not_wrap() {
    let mut builder = TrackingBuilder::<8>::new();
    builder.goto(7);
    assert_eq!(builder.source(), ">".repeat(7));
    builder.goto(0);
    assert_eq!(builder.source(), format!("{}{}", ">".repeat(7), "<".repeat(7)));
}

#[test]
fn shifts_add_up_to_the_sum_of_the_distances() {
    let targets = [5usize, 2, 2, 9, 0, 9];
    let mut builder = TrackingBuilder::<10>::new();
    let mut expected = 0;
    let mut at = 0usize;
    for target in targets {
        builder.goto(target);
        expected += if target > at { target - at } else { at - target };
        at = target;
    }
    assert_eq!(expected, 5 + 3 + 0 + 7 + 9 + 9);
    assert_eq!(builder.source().len(), expected);
    assert!(builder.source().chars().all(|c| c == '<' || c == '>'));
}

#[test]
fn tracking_zero_and_set() {
    let mut builder = TrackingBuilder::<2>::new();
    builder.zero();
    assert_eq!(builder.source(), "[-]");
    builder.set(2);
    assert_eq!(builder.source(), "[-][-]++");
    builder.set(254);
    assert_eq!(builder.source(), "[-][-]++[-]--");
}

#[test]
fn tracking_passes_the_single_instructions_on() {
    let mut builder = TrackingBuilder::<2>::new();
    builder.inc();
    builder.dec();
    builder.inc_by(2);
    builder.dec_by(1);
    builder.read();
    builder.write();
    assert_eq!(builder.source(), "+-++-,.");
    assert_eq!(builder.index(), 0);
}

#[test]
fn tracking_repeat_keeps_the_pointer() {
    let mut builder = TrackingBuilder::<4>::new();
    builder.inc_by(3);
    builder.repeat(|b: &mut TrackingBuilder<4>| {
        b.dec();
        b.goto(2);
        b.inc();
        b.goto(0);
    });
    assert_eq!(builder.source(), "+++[->>+<<]");
    let (runner, status) = builder.run(b"", 10).unwrap();
    assert_eq!(status, Status::Finished);
    let (data, index, _, _) = runner.into_inner();
    assert_eq!(data, [0, 0, 3, 0]);
    assert_eq!(index, 0);
}

#[test]
fn repeat_at_goes_to_the_cell_before_and_after() {
    let mut builder = TrackingBuilder::<4>::new();
    builder.goto(1);
    builder.inc_by(2);
    builder.goto(3);
    builder.repeat_at(1, |b: &mut TrackingBuilder<4>| {
        b.dec();
        b.goto(0);
        b.inc();
    });
    assert_eq!(builder.source(), ">++>><<[-<+>]");
    assert_eq!(builder.index(), 1);
    let (runner, _) = builder.run(b"", 10).unwrap();
    let (data, index, _, _) = runner.into_inner();
    assert_eq!(data, [2, 0, 0, 0]);
    assert_eq!(index, 1);
}

#[test]
fn tracking_run_reports_unbalanced_text() {
    let mut builder = TrackingBuilder::<4>::new();
    builder.open_loop();
    assert_eq!(builder.run(b"", 10).err(), Some("unmatched opening bracket"));
    assert_eq!(builder.compile().err(), Some("unmatched opening bracket"));
    builder.close_loop();
    builder.close_loop();
    assert_eq!(builder.run(b"", 10).err(), Some("unmatched closing bracket"));
}

#[test]
fn the_pointer_of_the_machine_ends_where_the_builder_has_it() {
    let mut builder = TrackingBuilder::<6>::new();
    builder.goto(4);
    builder.set(9);
    builder.goto(2);
    builder.inc();
    let (runner, status) = builder.run(b"", 300).unwrap();
    assert_eq!(status, Status::Finished);
    let (data, index, _, _) = runner.into_inner();
    assert_eq!(index, builder.index());
    assert_eq!(data, [0, 0, 1, 0, 9, 0]);
}

#[test]
fn a_loop_closed_away_from_where_it_was_opened_is_caught_at_run_time() {
    let mut builder = TrackingBuilder::<4>::new();
    builder.inc();
    builder.open_loop();
    builder.dec();
    builder.goto(1);
    builder.close_loop();
    assert_eq!(builder.source(), "+[->]");
    let (_, status) = builder.run(b"", 10).unwrap();
    assert_eq!(status, Status::PointerMoved);
}

#[test]
fn a_loop_closed_where_it_was_opened_keeps_the_pointer() {
    let mut builder = TrackingBuilder::<4>::new();
    builder.goto(3);
    builder.inc_by(2);
    builder.open_loop();
    builder.dec();
    builder.goto(0);
    builder.inc();
    builder.goto(3);
    builder.close_loop();
    builder.goto(1);
    let (runner, status) = builder.run(b"", 10).unwrap();
    assert_eq!(status, Status::Finished);
    let (data, index, _, _) = runner.into_inner();
    assert_eq!(data, [2, 0, 0, 0]);
    assert_eq!(index, builder.index());
}
