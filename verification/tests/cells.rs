use tapegen::builder::allocator::cell::IntoCell;
use tapegen::builder::allocator::cell_u8::CellU8;
use tapegen::builder::allocator::ops::eq::PartialEq as CellEq;
use tapegen::builder::allocator::session::AllocatingBuilder;
use tapegen::runner::Status;

const BUDGET: u64 = 100_000;

fn tape<const N: usize>(memory: &AllocatingBuilder<N>) -> [u8; N] {
    let (runner, status) = memory.run(b"", BUDGET).unwrap();
    assert_eq!(status, Status::Finished);
    let (data, index, _, _) = runner.into_inner();
    assert!(index < N);
    data
}

#[test]
fn new_builder_has_every_slot_free() {
    let memory = AllocatingBuilder::<5>::new();
    assert_eq!(memory.free_slots(), 5);
    assert_eq!(memory.source(), "");
}

#[test]
fn slots_are_handed_out_lowest_first_and_reused() {
    let mut memory = AllocatingBuilder::<4>::new();
    let a = memory.u8_uninit();
    let b = memory.u8_uninit();
    let c = memory.u8_uninit();
    assert_eq!((a.location(), b.location(), c.location()), (0, 1, 2));
    assert_eq!(memory.free_slots(), 1);
    a.release(&mut memory);
    assert_eq!(memory.free_slots(), 2);
    let d = memory.u8_uninit();
    assert_eq!(d.location(), 0);
    let e = memory.u8_uninit();
    assert_eq!(e.location(), 3);
    assert_eq!(memory.free_slots(), 0);
    b.release(&mut memory);
    c.release(&mut memory);
    let f = memory.u8_uninit();
    assert_eq!(f.location(), 1);
    assert_eq!(memory.source(), "");
}

#[test]
fn live_cells_never_share_a_slot() {
    let mut memory = AllocatingBuilder::<8>::new();
    let mut live: Vec<CellU8<8>> = Vec::new();
    for round in 0..40usize {
        if round % 3 == 2 && !live.is_empty() {
            let cell = live.remove(round % live.len());
            cell.release(&mut memory);
        } else if memory.free_slots() > 0 {
            live.push(memory.u8_uninit());
        }
        assert!(live.len() <= 8);
        assert_eq!(live.len() + memory.free_slots(), 8);
        for i in 0..live.len() {
            for j in i + 1..live.len() {
                assert_ne!(live[i].location(), live[j].location());
            }
        }
    }
}

#[test]
fn allocate_and_deallocate_work_on_slots() {
    let mut memory = AllocatingBuilder::<3>::new();
    assert_eq!(memory.allocate(), 0);
    assert_eq!(memory.allocate(), 1);
    memory.deallocate(0);
    assert_eq!(memory.allocate(), 0);
    assert_eq!(memory.allocate(), 2);
    assert_eq!(memory.free_slots(), 0);
    memory.deallocate(1);
    assert_eq!(memory.free_slots(), 1);
}

#[test]
fn set_leaves_every_value_in_the_cell() {
    for value in 0..=255u8 {
        let mut memory = AllocatingBuilder::<3>::new();
        let mut first = memory.u8(77);
        let mut cell = memory.u8(200);
        cell.set(&mut memory, value);
        first.inc(&mut memory);
        assert_eq!(tape(&memory), [78, value, 0]);
    }
}

#[test]
fn u8_emits_the_text_of_set() {
    let mut memory = AllocatingBuilder::<4>::new();
    let _a = memory.u8(2);
    let _b = memory.u8(255);
    assert_eq!(memory.source(), "[-]++>[-]-");
}

#[test]
fn single_instructions_go_to_the_cell_first() {
    let mut memory = AllocatingBuilder::<4>::new();
    let mut a = memory.u8_uninit();
    let mut b = memory.u8_uninit();
    b.inc(&mut memory);
    a.dec(&mut memory);
    b.inc_by(&mut memory, 2);
    a.dec_by(&mut memory, 3);
    b.zero(&mut memory);
    a.read(&mut memory);
    b.write(&mut memory);
    assert_eq!(memory.source(), ">+<->++<--->[-]<,>.");
}

#[test]
fn read_and_write_pass_bytes_through() {
    let mut memory = AllocatingBuilder::<4>::new();
    let mut a = memory.u8_uninit();
    a.read(&mut memory);
    a.inc(&mut memory);
    a.write(&mut memory);
    let (runner, _) = memory.run(b"A", BUDGET).unwrap();
    let (_, _, _, output) = runner.into_inner();
    assert_eq!(output, vec![b'B']);
}

#[test]
fn move_into_leaves_the_source_at_zero() {
    for value in [0u8, 1, 7, 128, 255] {
        let mut memory = AllocatingBuilder::<4>::new();
        let mut a = memory.u8(value);
        let mut b = memory.u8(99);
        a.move_into(&mut memory, &mut b);
        assert_eq!(tape(&memory), [0, value, 0, 0]);
    }
}

#[test]
fn move_into_emits_zero_then_one_loop() {
    let mut memory = AllocatingBuilder::<4>::new();
    let mut a = memory.u8_uninit();
    let mut b = memory.u8_uninit();
    a.move_into(&mut memory, &mut b);
    assert_eq!(memory.source(), ">[-]<[->+<]");
}

#[test]
fn move_from_is_move_into_the_other_way() {
    let mut memory = AllocatingBuilder::<4>::new();
    let mut a = memory.u8(5);
    let mut b = memory.u8(9);
    a.move_from(&mut memory, &mut b);
    assert_eq!(tape(&memory), [9, 0, 0, 0]);
}

#[test]
fn copy_into_keeps_the_source() {
    for value in [0u8, 1, 42, 255] {
        let mut memory = AllocatingBuilder::<4>::new();
        let a = memory.u8(value);
        let mut b = memory.u8(13);
        assert_eq!(memory.free_slots(), 2);
        a.copy_into(&mut memory, &mut b);
        assert_eq!(memory.free_slots(), 2);
        assert_eq!(tape(&memory), [value, value, 0, 0]);
    }
}

#[test]
fn copy_into_overwrites_what_the_target_held() {
    let mut memory = AllocatingBuilder::<4>::new();
    let a = memory.u8(3);
    let mut b = memory.u8(250);
    let mut used = memory.u8(9);
    used.release(&mut memory);
    a.copy_into(&mut memory, &mut b);
    assert_eq!(tape(&memory), [3, 3, 0, 0]);
}

#[test]
fn copy_from_and_clone_from_copy_the_other_cell() {
    let mut memory = AllocatingBuilder::<5>::new();
    let a = memory.u8(8);
    let mut b = memory.u8(1);
    let mut c = memory.u8(2);
    b.copy_from(&mut memory, &a);
    c.clone_from(&mut memory, &b);
    assert_eq!(tape(&memory), [8, 8, 8, 0, 0]);
}

#[test]
fn clone_makes_a_fresh_copy() {
    let mut memory = AllocatingBuilder::<4>::new();
    let a = memory.u8(21);
    let b = a.clone(&mut memory);
    assert_eq!(b.location(), 1);
    assert_eq!(memory.free_slots(), 2);
    assert_eq!(tape(&memory), [21, 21, 0, 0]);
}

#[test]
fn add_and_zero_wraps_and_clears_the_other() {
    for (a, b, sum) in [(250u8, 10u8, 4u8), (0, 0, 0), (1, 2, 3), (255, 255, 254), (7, 0, 7)] {
        let mut memory = AllocatingBuilder::<2>::new();
        let mut x = memory.u8(a);
        let mut y = memory.u8(b);
        x.add_and_zero(&mut memory, &mut y);
        assert_eq!(tape(&memory), [sum, 0]);
    }
}

#[test]
fn sub_and_zero_wraps_and_clears_the_other() {
    for (a, b, difference) in [(10u8, 3u8, 7u8), (3, 10, 249), (0, 255, 1), (5, 5, 0)] {
        let mut memory = AllocatingBuilder::<2>::new();
        let mut x = memory.u8(a);
        let mut y = memory.u8(b);
        x.sub_and_zero(&mut memory, &mut y);
        assert_eq!(tape(&memory), [difference, 0]);
    }
}

#[test]
fn is_zero_and_is_nonzero_are_opposites() {
    for value in [0u8, 1, 2, 128, 255] {
        let mut memory = AllocatingBuilder::<3>::new();
        let a = memory.u8(value);
        let zero = a.is_zero(&mut memory);
        assert_eq!(zero.location(), 1);
        assert_eq!(tape(&memory), [0, (value == 0) as u8, 0]);

        let mut memory = AllocatingBuilder::<3>::new();
        let a = memory.u8(value);
        let nonzero = a.is_nonzero(&mut memory);
        assert_eq!(nonzero.location(), 1);
        assert_eq!(tape(&memory), [0, (value != 0) as u8, 0]);
        assert_eq!(memory.free_slots(), 2);
    }
}

#[test]
fn multiply_gives_the_product_modulo_256() {
    let cases =
        [(4u8, 7u8, 28u8), (200, 200, 64), (0, 9, 0), (9, 0, 0), (1, 255, 255), (16, 16, 0)];
    for (a, b, product) in cases {
        let mut memory = AllocatingBuilder::<6>::new();
        let mut x = memory.u8(a);
        let y = memory.u8(b);
        x.mul_assign(&mut memory, y);
        assert_eq!(memory.free_slots(), 5);
        let data = tape(&memory);
        assert_eq!(data[0], product);
        assert_eq!(data[1], b);
        assert_eq!(((a as u32 * b as u32) % 256) as u8, product);
    }
}

#[test]
fn multiply_needs_a_budget_for_both_loops() {
    let mut memory = AllocatingBuilder::<6>::new();
    let mut x = memory.u8(255);
    let y = memory.u8(255);
    x.mul_assign(&mut memory, y);
    let (_, status) = memory.run(b"", 509).unwrap();
    assert_eq!(status, Status::BudgetExhausted);
    let (runner, status) = memory.run(b"", 510).unwrap();
    assert_eq!(status, Status::Finished);
    let (data, _, _, _) = runner.into_inner();
    assert_eq!(data[0], 1);
}

#[test]
fn while_nonzero_wraps_the_body_in_a_loop_at_the_cell() {
    let mut memory = AllocatingBuilder::<4>::new();
    let mut a = memory.u8(3);
    let mut b = memory.u8(0);
    a.while_nonzero(&mut memory, |m: &mut AllocatingBuilder<4>, this: &CellU8<4>| {
        m.goto(this.location());
        m.dec();
        b.inc_by(m, 2);
    });
    assert_eq!(memory.source(), "[-]+++>[-]<[->++<]");
    assert_eq!(tape(&memory), [0, 6, 0, 0]);
    a.set(&mut memory, 1);
    assert_eq!(tape(&memory), [1, 6, 0, 0]);
}

#[test]
fn while_nonzero_mut_hands_the_cell_to_the_body() {
    let mut memory = AllocatingBuilder::<4>::new();
    let mut a = memory.u8(4);
    let mut b = memory.u8(1);
    a.while_nonzero_mut(&mut memory, |m: &mut AllocatingBuilder<4>, this: &mut CellU8<4>| {
        this.dec(m);
        b.inc(m);
    });
    assert_eq!(tape(&memory), [0, 5, 0, 0]);
}

#[test]
fn assignments_with_values_and_cells() {
    let mut memory = AllocatingBuilder::<6>::new();
    let mut a = memory.u8(10);
    let b = memory.u8(3);
    a.add_assign_value(&mut memory, 250);
    a.add_assign_ref(&mut memory, &b);
    a.sub_assign_value(&mut memory, 1);
    a.sub_assign_ref(&mut memory, &b);
    assert_eq!(memory.free_slots(), 4);
    assert_eq!(tape(&memory), [3, 3, 0, 0, 0, 0]);
    let c = memory.u8(5);
    a.add_assign(&mut memory, c);
    assert_eq!(memory.free_slots(), 4);
    a.sub_assign(&mut memory, b);
    assert_eq!(memory.free_slots(), 5);
    assert_eq!(tape(&memory), [5, 0, 0, 0, 0, 0]);
}

#[test]
fn sums_of_cells_and_values() {
    let mut memory = AllocatingBuilder::<8>::new();
    let a = memory.u8(200);
    let b = memory.u8(100);
    let c = a.ref_plus_value(&mut memory, 60);
    assert_eq!(c.location(), 2);
    let d = a.ref_plus_ref(&mut memory, &b);
    assert_eq!(d.location(), 3);
    let e = c.plus_value(&mut memory, 1);
    assert_eq!(e.location(), 2);
    let f = d.plus_ref(&mut memory, &b);
    assert_eq!(f.location(), 3);
    assert_eq!(tape(&memory), [200, 100, 5, 144, 0, 0, 0, 0]);
    let g = a.ref_plus(&mut memory, e);
    assert_eq!(g.location(), 2);
    let h = g.plus(&mut memory, f);
    assert_eq!(h.location(), 2);
    assert_eq!(memory.free_slots(), 5);
    assert_eq!(tape(&memory), [200, 100, 93, 0, 0, 0, 0, 0]);
}

#[test]
fn differences_of_cells_and_values() {
    let mut memory = AllocatingBuilder::<8>::new();
    let a = memory.u8(5);
    let b = memory.u8(9);
    let c = a.ref_minus_value(&mut memory, 6);
    let d = a.ref_minus_ref(&mut memory, &b);
    let e = CellU8::value_minus_ref(&mut memory, 20, &b);
    assert_eq!((c.location(), d.location(), e.location()), (2, 3, 4));
    assert_eq!(tape(&memory), [5, 9, 255, 252, 11, 0, 0, 0]);
    let c = c.minus_value(&mut memory, 255);
    let d = d.minus_ref(&mut memory, &a);
    let e = e.minus(&mut memory, c);
    assert_eq!(memory.free_slots(), 4);
    assert_eq!(tape(&memory), [5, 9, 0, 247, 11, 0, 0, 0]);
    let f = a.ref_minus(&mut memory, d);
    assert_eq!(f.location(), 2);
    let g = CellU8::value_minus(&mut memory, 1, e);
    assert_eq!(g.location(), 3);
    assert_eq!(tape(&memory), [5, 9, 14, 246, 0, 0, 0, 0]);
}

#[test]
fn negation_is_zero_minus_the_value() {
    let mut memory = AllocatingBuilder::<6>::new();
    let a = memory.u8(1);
    let b = a.ref_negated(&mut memory);
    let c = b.ref_negated(&mut memory);
    let d = c.negated(&mut memory);
    assert_eq!(d.location(), 2);
    assert_eq!(memory.free_slots(), 3);
    assert_eq!(tape(&memory), [1, 255, 255, 0, 0, 0]);
    let zero = memory.u8(0);
    let still = zero.negated(&mut memory);
    assert_eq!(still.location(), 3);
    assert_eq!(tape(&memory), [1, 255, 255, 0, 0, 0]);
}

#[test]
fn comparisons_with_values() {
    for (value, other) in [(3u8, 3u8), (3, 4), (0, 0), (0, 255), (255, 0)] {
        let mut memory = AllocatingBuilder::<5>::new();
        let a = memory.u8(value);
        let same = a.ref_equals_value(&mut memory, other);
        let different = a.ref_differs_value(&mut memory, other);
        let data = tape(&memory);
        assert_eq!(data[0], value);
        assert_eq!(data[same.location()], (value == other) as u8);
        assert_eq!(data[different.location()], (value != other) as u8);

        let mut memory = AllocatingBuilder::<5>::new();
        let a = memory.u8(value);
        let b = memory.u8(value);
        let same = a.equals_value(&mut memory, other);
        let different = b.differs_value(&mut memory, other);
        let data = tape(&memory);
        assert_eq!(data[same.location()], (value == other) as u8);
        assert_eq!(data[different.location()], (value != other) as u8);
        assert_eq!(memory.free_slots(), 3);
    }
}

#[test]
fn comparisons_between_cells() {
    for (left, right) in [(3u8, 3u8), (3, 4), (0, 0), (200, 100)] {
        let mut memory = AllocatingBuilder::<8>::new();
        let a = memory.u8(left);
        let b = memory.u8(right);
        let same = a.ref_equals_ref(&mut memory, &b);
        let different = a.ref_differs_ref(&mut memory, &b);
        let data = tape(&memory);
        assert_eq!((data[0], data[1]), (left, right));
        assert_eq!(data[same.location()], (left == right) as u8);
        assert_eq!(data[different.location()], (left != right) as u8);
        assert_eq!(memory.free_slots(), 4);

        let c = memory.u8(right);
        let same = a.ref_equals(&mut memory, c);
        let c = memory.u8(right);
        let different = a.ref_differs(&mut memory, c);
        let data = tape(&memory);
        assert_eq!(data[same.location()], (left == right) as u8);
        assert_eq!(data[different.location()], (left != right) as u8);

        let mut memory = AllocatingBuilder::<8>::new();
        let a = memory.u8(left);
        let b = memory.u8(right);
        let c = memory.u8(left);
        let same = a.equals_ref(&mut memory, &b);
        let different = c.differs_ref(&mut memory, &b);
        let data = tape(&memory);
        assert_eq!(data[1], right);
        assert_eq!(data[same.location()], (left == right) as u8);
        assert_eq!(data[different.location()], (left != right) as u8);
        assert_eq!(memory.free_slots(), 5);

        let mut memory = AllocatingBuilder::<8>::new();
        let a = memory.u8(left);
        let b = memory.u8(right);
        let c = memory.u8(left);
        let d = memory.u8(right);
        let same = a.equals(&mut memory, b);
        let different = c.differs(&mut memory, d);
        let data = tape(&memory);
        assert_eq!(data[same.location()], (left == right) as u8);
        assert_eq!(data[different.location()], (left != right) as u8);
        assert_eq!(memory.free_slots(), 6);
    }
}

#[test]
fn the_text_parses_to_what_it_flattens_from() {
    let mut memory = AllocatingBuilder::<6>::new();
    let mut x = memory.u8(3);
    let y = memory.u8(5);
    x.mul_assign(&mut memory, y);
    let source = memory.source();
    assert!(memory.compile().is_ok());
    assert!(source.chars().all(|c| "+-<>[],.".contains(c)));
    let opens = source.chars().filter(|c| *c == '[').count();
    let closes = source.chars().filter(|c| *c == ']').count();
    assert_eq!(opens, closes);
    let (runner, _) = memory.run(b"", BUDGET).unwrap();
    let (data, _, _, _) = runner.into_inner();
    assert_eq!(data[0], 15);
}

#[test]
fn comparison_traits_give_the_named_comparisons() {
    for (left, right) in [(3u8, 3u8), (3, 4)] {
        let mut memory = AllocatingBuilder::<8>::new();
        let a = memory.u8(left);
        let b = memory.u8(right);
        let c = memory.u8(left);
        let d = memory.u8(right);
        let same = CellEq::eq(&a, &mut memory, &b);
        let different = CellEq::ne(&a, &mut memory, right);
        let by_value = CellEq::eq(c, &mut memory, right);
        let both = CellEq::ne(a, &mut memory, b);
        let last = CellEq::eq(&d, &mut memory, 0);
        let data = tape(&memory);
        assert_eq!(data[same.location()], (left == right) as u8);
        assert_eq!(data[different.location()], (left != right) as u8);
        assert_eq!(data[by_value.location()], (left == right) as u8);
        assert_eq!(data[both.location()], (left != right) as u8);
        assert_eq!(data[last.location()], 0);
    }
}

#[test]
fn a_bool_becomes_a_boolean_cell() {
    let mut memory = AllocatingBuilder::<2>::new();
    let flag = true.into_cell(&mut memory);
    assert_eq!(flag.location(), 0);
    assert_eq!(memory.source(), "[-]+");
    assert_eq!(tape(&memory), [1, 0]);
}

#[test]
fn a_value_on_the_left_adds_the_same_way() {
    let mut memory = AllocatingBuilder::<6>::new();
    let a = memory.u8(40);
    let b = CellU8::value_plus_ref(&mut memory, 2, &a);
    assert_eq!(b.location(), 1);
    let c = CellU8::value_plus(&mut memory, 250, b);
    assert_eq!(c.location(), 1);
    assert_eq!(tape(&memory), [40, 36, 0, 0, 0, 0]);
}
