use tapegen::builder::allocator::cell_bool::CellBool;
use tapegen::builder::allocator::session::AllocatingBuilder;
use tapegen::runner::Status;

const BUDGET: u64 = 100_000;
const BOTH: [bool; 2] = [false, true];

fn tape<const N: usize>(memory: &AllocatingBuilder<N>) -> [u8; N] {
    let (runner, status) = memory.run(b"", BUDGET).unwrap();
    assert_eq!(status, Status::Finished);
    let (data, _, _, _) = runner.into_inner();
    data
}

#[test]
fn bool_cells_hold_zero_or_one() {
    let mut memory = AllocatingBuilder::<3>::new();
    let mut a = memory.bool(true);
    let b = memory.bool(false);
    assert_eq!((a.location(), b.location()), (0, 1));
    assert_eq!(memory.source(), "[-]+>[-]");
    assert_eq!(tape(&memory), [1, 0, 0]);
    a.set(&mut memory, false);
    assert_eq!(tape(&memory), [0, 0, 0]);
}

#[test]
fn bool_uninit_emits_nothing() {
    let mut memory = AllocatingBuilder::<3>::new();
    let a = memory.bool_uninit();
    assert_eq!(a.location(), 0);
    assert_eq!(memory.source(), "");
    assert_eq!(memory.free_slots(), 2);
    a.release(&mut memory);
    assert_eq!(memory.free_slots(), 3);
}

#[test]
fn byte_cells_and_bool_cells_convert() {
    let mut memory = AllocatingBuilder::<3>::new();
    let byte = memory.u8(1);
    let flag = CellBool::from_u8(byte);
    assert_eq!(flag.location(), 0);
    let byte = flag.into_u8();
    assert_eq!(byte.location(), 0);
}

#[test]
fn negate_flips_the_value() {
    for value in BOTH {
        let mut memory = AllocatingBuilder::<4>::new();
        let mut a = memory.bool(value);
        a.negate(&mut memory);
        assert_eq!(memory.free_slots(), 3);
        assert_eq!(tape(&memory), [!value as u8, 0, 0, 0]);
        let b = a.not(&mut memory);
        assert_eq!(b.location(), 0);
        assert_eq!(tape(&memory), [value as u8, 0, 0, 0]);
        let c = b.ref_not(&mut memory);
        assert_eq!(c.location(), 1);
        assert_eq!(tape(&memory), [value as u8, !value as u8, 0, 0]);
    }
}

#[test]
fn moves_and_copies_of_booleans() {
    for value in BOTH {
        let mut memory = AllocatingBuilder::<6>::new();
        let mut a = memory.bool(value);
        let mut b = memory.bool(!value);
        let mut c = memory.bool(!value);
        a.copy_into(&mut memory, &mut b);
        c.copy_from(&mut memory, &a);
        let d = a.clone(&mut memory);
        assert_eq!(d.location(), 3);
        let v = value as u8;
        assert_eq!(tape(&memory), [v, v, v, v, 0, 0]);
        a.move_into(&mut memory, &mut b);
        assert_eq!(tape(&memory), [0, v, v, v, 0, 0]);
        a.move_from(&mut memory, &mut c);
        assert_eq!(tape(&memory), [v, v, 0, v, 0, 0]);
        c.clone_from(&mut memory, &d);
        assert_eq!(tape(&memory), [v, v, v, v, 0, 0]);
    }
}

#[test]
fn or_of_two_cells() {
    for left in BOTH {
        for right in BOTH {
            let expected = (left | right) as u8;

            let mut memory = AllocatingBuilder::<8>::new();
            let mut a = memory.bool(left);
            let b = memory.bool(right);
            a.bitor_assign(&mut memory, b);
            assert_eq!(memory.free_slots(), 7);
            assert_eq!(tape(&memory)[0], expected);

            let mut memory = AllocatingBuilder::<8>::new();
            let mut a = memory.bool(left);
            let b = memory.bool(right);
            a.bitor_assign_ref(&mut memory, &b);
            assert_eq!(memory.free_slots(), 6);
            let data = tape(&memory);
            assert_eq!((data[0], data[1]), (expected, right as u8));

            let mut memory = AllocatingBuilder::<8>::new();
            let a = memory.bool(left);
            let b = memory.bool(right);
            let c = a.ref_bitor_ref(&mut memory, &b);
            let data = tape(&memory);
            assert_eq!((data[0], data[1], data[c.location()]), (left as u8, right as u8, expected));
            let d = a.ref_bitor(&mut memory, b);
            assert_eq!(d.location(), 1);
            assert_eq!(tape(&memory)[1], expected);
            let e = c.bitor_ref(&mut memory, &a);
            assert_eq!(tape(&memory)[e.location()], expected);
            let f = a.bitor(&mut memory, d);
            assert_eq!(f.location(), 1);
            assert_eq!(tape(&memory)[1], expected);
        }
    }
}

#[test]
fn and_of_two_cells() {
    for left in BOTH {
        for right in BOTH {
            let expected = (left & right) as u8;

            let mut memory = AllocatingBuilder::<8>::new();
            let mut a = memory.bool(left);
            let b = memory.bool(right);
            a.bitand_assign(&mut memory, b);
            assert_eq!(memory.free_slots(), 7);
            assert_eq!(tape(&memory)[0], expected);

            let mut memory = AllocatingBuilder::<8>::new();
            let mut a = memory.bool(left);
            let b = memory.bool(right);
            a.bitand_assign_ref(&mut memory, &b);
            assert_eq!(memory.free_slots(), 6);
            let data = tape(&memory);
            assert_eq!((data[0], data[1]), (expected, right as u8));

            let mut memory = AllocatingBuilder::<8>::new();
            let a = memory.bool(left);
            let b = memory.bool(right);
            let c = a.ref_bitand_ref(&mut memory, &b);
            let data = tape(&memory);
            assert_eq!((data[0], data[1], data[c.location()]), (left as u8, right as u8, expected));
            let d = a.ref_bitand(&mut memory, b);
            assert_eq!(d.location(), 1);
            assert_eq!(tape(&memory)[1], expected);
            let e = c.bitand_ref(&mut memory, &a);
            assert_eq!(tape(&memory)[e.location()], expected);
            let f = d.bitand(&mut memory, e);
            assert_eq!(f.location(), 1);
            assert_eq!(tape(&memory)[1], expected);
        }
    }
}

#[test]
fn xor_of_two_cells() {
    for left in BOTH {
        for right in BOTH {
            let expected = (left ^ right) as u8;

            let mut memory = AllocatingBuilder::<8>::new();
            let mut a = memory.bool(left);
            let b = memory.bool(right);
            a.bitxor_assign(&mut memory, b);
            assert_eq!(memory.free_slots(), 7);
            assert_eq!(tape(&memory)[0], expected);

            let mut memory = AllocatingBuilder::<8>::new();
            let mut a = memory.bool(left);
            let b = memory.bool(right);
            a.bitxor_assign_ref(&mut memory, &b);
            assert_eq!(memory.free_slots(), 6);
            let data = tape(&memory);
            assert_eq!((data[0], data[1]), (expected, right as u8));

            let mut memory = AllocatingBuilder::<8>::new();
            let a = memory.bool(left);
            let b = memory.bool(right);
            let c = a.ref_bitxor_ref(&mut memory, &b);
            let data = tape(&memory);
            assert_eq!((data[0], data[1], data[c.location()]), (left as u8, right as u8, expected));
            let d = a.ref_bitxor(&mut memory, b);
            assert_eq!(d.location(), 1);
            assert_eq!(tape(&memory)[1], expected);
            let e = c.bitxor_ref(&mut memory, &a);
            assert_eq!(tape(&memory)[e.location()], right as u8);
            let f = d.bitxor(&mut memory, e);
            assert_eq!(f.location(), 1);
            assert_eq!(tape(&memory)[1], left as u8);
        }
    }
}

#[test]
fn connectives_with_plain_values() {
    for left in BOTH {
        for right in BOTH {
            let mut memory = AllocatingBuilder::<8>::new();
            let mut a = memory.bool(left);
            let mut b = memory.bool(left);
            let mut c = memory.bool(left);
            a.bitor_assign_value(&mut memory, right);
            b.bitand_assign_value(&mut memory, right);
            c.bitxor_assign_value(&mut memory, right);
            assert_eq!(
                tape(&memory)[..3],
                [(left | right) as u8, (left & right) as u8, (left ^ right) as u8]
            );

            let mut memory = AllocatingBuilder::<8>::new();
            let a = memory.bool(left);
            let d = a.ref_bitor_value(&mut memory, right);
            let e = a.ref_bitand_value(&mut memory, right);
            let f = a.ref_bitxor_value(&mut memory, right);
            assert_eq!((d.location(), e.location(), f.location()), (1, 2, 3));
            assert_eq!(
                tape(&memory)[..4],
                [left as u8, (left | right) as u8, (left & right) as u8, (left ^ right) as u8]
            );
            let d = d.bitor_value(&mut memory, right);
            let e = e.bitand_value(&mut memory, right);
            let f = f.bitxor_value(&mut memory, right);
            assert_eq!((d.location(), e.location(), f.location()), (1, 2, 3));
            assert_eq!(
                tape(&memory)[..4],
                [left as u8, (left | right) as u8, (left & right) as u8, left as u8]
            );
        }
    }
}

#[test]
fn if_true_runs_the_body_once_or_not_at_all() {
    for value in BOTH {
        let mut memory = AllocatingBuilder::<4>::new();
        let flag = memory.bool(value);
        let mut count = memory.u8(10);
        flag.if_true(&mut memory, |m: &mut AllocatingBuilder<4>| {
            count.inc_by(m, 5);
        });
        assert_eq!(memory.free_slots(), 3);
        assert_eq!(tape(&memory), [0, if value { 15 } else { 10 }, 0, 0]);
    }
}

#[test]
fn if_true_emits_the_body_and_clears_the_flag() {
    let mut memory = AllocatingBuilder::<4>::new();
    let flag = memory.bool_uninit();
    let mut other = memory.u8_uninit();
    flag.if_true(&mut memory, |m: &mut AllocatingBuilder<4>| {
        other.inc(m);
    });
    assert_eq!(memory.source(), "[>+<[-]]");
}

#[test]
fn while_true_runs_until_the_flag_is_cleared() {
    let mut memory = AllocatingBuilder::<4>::new();
    let mut flag = memory.bool(true);
    let mut count = memory.u8(0);
    flag.while_true(&mut memory, |m: &mut AllocatingBuilder<4>, this: &CellBool<4>| {
        count.inc(m);
        m.goto(this.location());
        m.dec();
    });
    assert_eq!(tape(&memory), [0, 1, 0, 0]);
    flag.set(&mut memory, true);
    flag.while_true_mut(&mut memory, |m: &mut AllocatingBuilder<4>, this: &mut CellBool<4>| {
        count.inc_by(m, 2);
        this.set(m, false);
    });
    assert_eq!(tape(&memory), [0, 3, 0, 0]);
}

#[test]
fn while_true_on_a_true_flag_that_stays_true_never_ends() {
    let mut memory = AllocatingBuilder::<2>::new();
    let flag = memory.bool(true);
    flag.while_true(&mut memory, |_m: &mut AllocatingBuilder<2>, _this: &CellBool<2>| {});
    let (_, status) = memory.run(b"", 1000).unwrap();
    assert_eq!(status, Status::BudgetExhausted);
}

#[test]
fn connectives_with_the_plain_value_on_the_left() {
    for left in BOTH {
        for right in BOTH {
            let mut memory = AllocatingBuilder::<8>::new();
            let a = memory.bool(right);
            let d = CellBool::value_bitor_ref(&mut memory, left, &a);
            let e = CellBool::value_bitand_ref(&mut memory, left, &a);
            let f = CellBool::value_bitxor_ref(&mut memory, left, &a);
            assert_eq!((d.location(), e.location(), f.location()), (1, 2, 3));
            assert_eq!(
                tape(&memory)[..4],
                [right as u8, (left | right) as u8, (left & right) as u8, (left ^ right) as u8]
            );
            let d = CellBool::value_bitor(&mut memory, left, d);
            let e = CellBool::value_bitand(&mut memory, left, e);
            let f = CellBool::value_bitxor(&mut memory, left, f);
            assert_eq!((d.location(), e.location(), f.location()), (1, 2, 3));
            assert_eq!(
                tape(&memory)[..4],
                [right as u8, (left | right) as u8, (left & right) as u8, right as u8]
            );
        }
    }
}
