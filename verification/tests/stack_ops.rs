use num_bigint::BigInt;
use piet::color::Color;
use piet::interp::Interpreter;
use piet::program::{CodelChooser, DirectionPointer, Program};

/// An interpreter over a trivial one-codel program, used to exercise the
/// stack instructions directly.
fn fresh() -> Interpreter {
    let pixels = vec![Color::Red.to_rgb8()];
    Program::new_from_imagebuffer(&pixels, 1, 1, 1, false).into_interpreter()
}

fn stack_of(it: &Interpreter) -> Vec<BigInt> {
    let mut out = Vec::new();
    let mut i = 0;
    while i < it.stack_len() {
        out.push(it.stack_value_at(i).clone());
        i += 1;
    }
    out
}

fn ints(vs: &[i64]) -> Vec<BigInt> {
    vs.iter().map(|v| BigInt::from(*v)).collect()
}

/// Put a possibly negative value on the stack through the numeric input
/// instruction.
fn push_i64(it: &mut Interpreter, v: i64) {
    it.in_number(&format!("{}", v));
}

#[test]
fn push_and_pop() {
    let mut it = fresh();
    it.push(3);
    it.push(7);
    assert_eq!(stack_of(&it), ints(&[3, 7]));
    it.pop();
    assert_eq!(stack_of(&it), ints(&[3]));
}

#[test]
fn add_subtract_multiply() {
    let mut it = fresh();
    it.push(6);
    it.push(4);
    it.add();
    assert_eq!(stack_of(&it), ints(&[10]));
    it.push(3);
    it.subtract();
    assert_eq!(stack_of(&it), ints(&[7]));
    it.push(5);
    it.multiply();
    assert_eq!(stack_of(&it), ints(&[35]));
}

#[test]
fn divide_truncates_toward_zero() {
    let mut it = fresh();
    push_i64(&mut it, -7);
    it.push(2);
    it.divide();
    assert_eq!(stack_of(&it), ints(&[-3]));
}

#[test]
fn divide_by_zero_is_a_no_op() {
    let mut it = fresh();
    it.push(9);
    it.push(0);
    it.divide();
    assert_eq!(stack_of(&it), ints(&[9, 0]));
}

#[test]
fn mod_by_zero_is_a_no_op() {
    let mut it = fresh();
    it.push(5);
    it.push(0);
    it.modulo();
    assert_eq!(stack_of(&it), ints(&[5, 0]));
}

#[test]
fn mod_carries_the_divisor_sign() {
    let mut it = fresh();
    it.push(5);
    push_i64(&mut it, -3);
    it.modulo();
    assert_eq!(stack_of(&it), ints(&[-1]));

    let mut it2 = fresh();
    push_i64(&mut it2, -5);
    it2.push(3);
    it2.modulo();
    assert_eq!(stack_of(&it2), ints(&[1]));

    let mut it3 = fresh();
    it3.push(5);
    it3.push(3);
    it3.modulo();
    assert_eq!(stack_of(&it3), ints(&[2]));
}

#[test]
fn not_replaces_zero_and_nonzero() {
    let mut it = fresh();
    it.push(0);
    it.not();
    assert_eq!(stack_of(&it), ints(&[1]));
    it.not();
    assert_eq!(stack_of(&it), ints(&[0]));
}

#[test]
fn greater_compares_second_to_top() {
    let mut it = fresh();
    it.push(2);
    it.push(1);
    it.greater();
    assert_eq!(stack_of(&it), ints(&[1]));
    it.push(9);
    it.greater();
    assert_eq!(stack_of(&it), ints(&[0]));
}

#[test]
fn pointer_rotates_clockwise() {
    let mut it = fresh();
    it.push(1);
    it.pointer();
    assert_eq!(it.dp(), DirectionPointer::Down);
    it.push(2);
    it.pointer();
    assert_eq!(it.dp(), DirectionPointer::Up);
}

#[test]
fn negative_pointer_rotates_like_its_modulus() {
    let mut it = fresh();
    assert_eq!(it.dp(), DirectionPointer::Right);
    push_i64(&mut it, -1);
    it.pointer();
    assert_eq!(it.dp(), DirectionPointer::Up);
    assert_eq!(stack_of(&it), ints(&[]));
}

#[test]
fn large_pointer_counts_reduce_modulo_four() {
    let mut it = fresh();
    push_i64(&mut it, 7);
    it.pointer();
    assert_eq!(it.dp(), DirectionPointer::Up);
}

#[test]
fn switch_toggles_on_odd_counts_only() {
    let mut it = fresh();
    push_i64(&mut it, 3);
    it.switch();
    assert_eq!(it.cc(), CodelChooser::Right);
    push_i64(&mut it, -3);
    it.switch();
    assert_eq!(it.cc(), CodelChooser::Left);
    push_i64(&mut it, 4);
    it.switch();
    assert_eq!(it.cc(), CodelChooser::Left);
}

#[test]
fn duplicate_copies_the_top() {
    let mut it = fresh();
    it.push(8);
    it.duplicate();
    assert_eq!(stack_of(&it), ints(&[8, 8]));
}

#[test]
fn roll_buries_the_top_on_positive_counts() {
    let mut it = fresh();
    for v in [1, 2, 3, 4, 5] {
        it.push(v);
    }
    it.push(3);
    it.push(1);
    it.roll();
    assert_eq!(stack_of(&it), ints(&[1, 2, 5, 3, 4]));
}

#[test]
fn roll_lifts_the_bottom_on_negative_counts() {
    let mut it = fresh();
    for v in [1, 2, 3, 4, 5] {
        it.push(v);
    }
    it.push(3);
    push_i64(&mut it, -1);
    it.roll();
    assert_eq!(stack_of(&it), ints(&[1, 2, 4, 5, 3]));
}

#[test]
fn roll_with_bad_depth_changes_nothing() {
    let mut it = fresh();
    it.push(1);
    it.push(5);
    it.push(1);
    it.roll();
    assert_eq!(stack_of(&it), ints(&[1, 5, 1]));

    let mut it2 = fresh();
    it2.push(1);
    push_i64(&mut it2, -2);
    it2.push(1);
    it2.roll();
    assert_eq!(stack_of(&it2), ints(&[1, -2, 1]));
}

#[test]
fn underflow_changes_nothing() {
    let mut it = fresh();
    it.pop();
    it.add();
    it.subtract();
    it.multiply();
    it.divide();
    it.modulo();
    it.not();
    it.greater();
    it.pointer();
    it.switch();
    it.duplicate();
    it.roll();
    it.out_number();
    it.out_char();
    assert_eq!(stack_of(&it), ints(&[]));
    assert_eq!(it.dp(), DirectionPointer::Right);
    assert_eq!(it.cc(), CodelChooser::Left);
    assert_eq!(it.take_output(), "");
}

#[test]
fn binary_underflow_keeps_a_single_value() {
    let mut it = fresh();
    it.push(4);
    it.add();
    it.subtract();
    it.multiply();
    it.divide();
    it.modulo();
    it.greater();
    it.roll();
    assert_eq!(stack_of(&it), ints(&[4]));
}

#[test]
fn in_number_parses_signed_decimals_with_whitespace() {
    let mut it = fresh();
    it.in_number(" -42 \n");
    assert_eq!(stack_of(&it), ints(&[-42]));
    it.in_number("not a number");
    assert_eq!(stack_of(&it), ints(&[-42]));
    it.in_number("");
    assert_eq!(stack_of(&it), ints(&[-42]));
}

#[test]
fn in_char_pushes_the_first_scalar() {
    let mut it = fresh();
    it.in_char("hi");
    assert_eq!(stack_of(&it), ints(&['h' as i64]));
    it.in_char("");
    assert_eq!(stack_of(&it), ints(&['h' as i64]));
}

#[test]
fn out_number_writes_base_ten() {
    let mut it = fresh();
    push_i64(&mut it, -42);
    it.out_number();
    it.push(0);
    it.out_number();
    assert_eq!(it.take_output(), "-420");
    assert_eq!(stack_of(&it), ints(&[]));
}

#[test]
fn out_char_writes_the_scalar() {
    let mut it = fresh();
    it.push(65);
    it.out_char();
    assert_eq!(it.take_output(), "A");
    assert_eq!(stack_of(&it), ints(&[]));
}

#[test]
fn out_char_pops_but_skips_invalid_scalars() {
    let mut it = fresh();
    push_i64(&mut it, -5);
    it.out_char();
    assert_eq!(it.take_output(), "");
    assert_eq!(stack_of(&it), ints(&[]));

    let mut it2 = fresh();
    push_i64(&mut it2, 0xD800);
    it2.out_char();
    assert_eq!(it2.take_output(), "");
    assert_eq!(stack_of(&it2), ints(&[]));
}

#[test]
fn arbitrary_precision_survives_arithmetic() {
    let mut it = fresh();
    it.in_number("123456789012345678901234567890");
    it.duplicate();
    it.multiply();
    it.out_number();
    assert_eq!(
        it.take_output(),
        "15241578753238836750495351562536198787501905199875019052100"
    );
}
