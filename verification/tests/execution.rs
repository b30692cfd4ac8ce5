use num_bigint::BigInt;
use piet::color::Color;
use piet::color::Rgb8;
use piet::interp::{Interpreter, StepResult};
use piet::point::Point;
use piet::program::{DirectionPointer, Program};

fn strip(colors: &[Color]) -> Program {
    let pixels: Vec<Rgb8> = colors.iter().map(|c| c.to_rgb8()).collect();
    Program::new_from_imagebuffer(&pixels, colors.len() as u32, 1, 1, false)
}

fn stack_of(it: &Interpreter) -> Vec<BigInt> {
    let mut out = Vec::new();
    let mut i = 0;
    while i < it.stack_len() {
        out.push(it.stack_value_at(i).clone());
        i += 1;
    }
    out
}

#[test]
fn single_red_codel_ends_after_eight_attempts() {
    let mut it = strip(&[Color::Red]).into_interpreter();
    let r = it.step();
    assert_eq!(r, StepResult::Done);
    assert_eq!(it.take_output(), "");
    assert_eq!(stack_of(&it), Vec::<BigInt>::new());
}

#[test]
fn first_transition_of_red_darkred_strip_pushes_the_block_size() {
    let mut it = strip(&[Color::Red, Color::DarkRed, Color::White]).into_interpreter();
    let r = it.run_until(1);
    assert_eq!(r, StepResult::Continue);
    assert_eq!(stack_of(&it), vec![BigInt::from(1)]);
    assert_eq!(it.take_output(), "");
    // the program keeps circling in this strip and writes nothing
    let r2 = it.run_until(50);
    assert_eq!(r2, StepResult::Continue);
    assert_eq!(it.take_output(), "");
}

#[test]
fn steps_advance_the_position_and_the_counter() {
    let mut it = strip(&[Color::Red, Color::DarkRed, Color::White]).into_interpreter();
    assert_eq!(it.position(), Point(0, 0));
    assert_eq!(it.steps_taken(), 0);
    assert_eq!(it.step(), StepResult::Continue);
    assert_eq!(it.position(), Point(0, 1));
    assert_eq!(it.steps_taken(), 1);
}

#[test]
fn white_codels_are_crossed_without_an_instruction() {
    // red, white, dark red in a row: the second transition crosses white
    // and must not fire push or anything else
    let mut it = strip(&[Color::Red, Color::White, Color::DarkRed]).into_interpreter();
    assert_eq!(it.step(), StepResult::Continue);
    // red -> white: no instruction
    assert_eq!(stack_of(&it), Vec::<BigInt>::new());
    assert_eq!(it.step(), StepResult::Continue);
    // white -> dark red: still no instruction
    assert_eq!(stack_of(&it), Vec::<BigInt>::new());
}

#[test]
fn all_white_grid_terminates_on_a_repeated_state() {
    let mut it = strip(&[Color::White, Color::White]).into_interpreter();
    let r = it.run_until(100);
    assert_eq!(r, StepResult::Done);
    assert_eq!(it.take_output(), "");
}

#[test]
fn black_start_is_reported() {
    let mut it = strip(&[Color::Black, Color::Red]).into_interpreter();
    assert_eq!(it.step(), StepResult::Stuck);
}

#[test]
fn input_instruction_waits_for_a_line_and_then_runs() {
    // red -> light blue encodes in(number): hue shift 4, lightness shift 2
    let mut it = strip(&[Color::Red, Color::LightBlue]).into_interpreter();
    assert_eq!(it.step(), StepResult::AwaitInput);
    assert_eq!(stack_of(&it), Vec::<BigInt>::new());
    it.supply_input(String::from("12\n"));
    assert_eq!(it.step(), StepResult::Continue);
    assert_eq!(stack_of(&it), vec![BigInt::from(12)]);
}

#[test]
fn unparsable_input_line_is_consumed_as_a_no_op() {
    let mut it = strip(&[Color::Red, Color::LightBlue]).into_interpreter();
    it.supply_input(String::from("what\n"));
    assert_eq!(it.step(), StepResult::Continue);
    assert_eq!(stack_of(&it), Vec::<BigInt>::new());
}

#[test]
fn push_then_out_number_prints_the_block_size() {
    // red block of one codel; dark red encodes push; then
    // dark red -> light magenta encodes out(number): hue 5, lightness 1
    let mut it = strip(&[Color::Red, Color::DarkRed, Color::LightMagenta]).into_interpreter();
    assert_eq!(it.step(), StepResult::Continue);
    assert_eq!(stack_of(&it), vec![BigInt::from(1)]);
    assert_eq!(it.step(), StepResult::Continue);
    assert_eq!(it.take_output(), "1");
    assert_eq!(stack_of(&it), Vec::<BigInt>::new());
}

#[test]
fn hand_crafted_out_char_prints_a() {
    // leave 65 on top, then execute out(char)
    let mut it = strip(&[Color::Red]).into_interpreter();
    it.push(65);
    it.out_char();
    assert_eq!(it.take_output(), "A");
}

#[test]
fn pointer_instruction_changes_the_walk_direction() {
    let mut it = strip(&[Color::Red]).into_interpreter();
    assert_eq!(it.dp(), DirectionPointer::Right);
    it.in_number("-1");
    it.pointer();
    assert_eq!(it.dp(), DirectionPointer::Up);
}
