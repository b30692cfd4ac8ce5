//! The Piet execution engine: the traversal state machine and the
//! seventeen stack instructions.
//!
//! Input lines are handed to the interpreter as plain values: a step that
//! needs a line while none is queued reports `AwaitInput` without changing
//! anything, and the host queues a line and steps again. Output is
//! collected in a string the host drains.

use vstd::prelude::*;
use num_bigint::BigInt;
use crate::bignum::{
    big_add, big_clone, big_div, big_from_usize, big_gt, big_is_negative, big_is_zero,
    big_low_bit, big_mul, big_parse, big_rem, big_sub, big_to_decimal, big_to_u32,
    big_to_usize, big_value, dec_str_of, lemma_piet_mod_euclid, lemma_piet_mod_props,
    parsed_number_of, piet_mod, trunc_div,
};
use crate::color::{Color, is_hue_bearing, spec_hue_shift, spec_lightness_shift};
use crate::point::{Point, spec_next_in_direction};
use crate::program::{
    CodelChooser, DirectionPointer, Program, spec_rotate_clockwise, spec_rotate_clockwise_n,
    spec_toggle,
};
use crate::stack::{Stack, rotate_window_right};
use crate::color_block::{ColorBlock, edge_index, edge_index_x};
use vstd::seq_lib::*;
use vstd::set_lib::{lemma_len_subset, lemma_int_range, set_int_range};
use crate::textio::{char_from_u32, first_char, is_unicode_scalar, push_char};

verus! {

/// What one call of `step` did.
#[derive(Debug, Copy, Clone, PartialEq, Eq, Structural)]
pub enum StepResult {
    /// A transition was performed; execution goes on.
    Continue,
    /// The program cannot move any further and ends successfully.
    Done,
    /// The next instruction reads a line and no line is queued; nothing
    /// was changed.
    AwaitInput,
    /// Execution stands on a black codel, which cannot happen from a
    /// well-formed start.
    Stuck,
}

/// The execution engine: the loaded program, the traversal state, the
/// operand stack and the queued I/O.
#[derive(Debug)]
pub struct Interpreter {
    pub program: Program,
    pub dp: DirectionPointer,
    pub cc: CodelChooser,
    pub curr_codel: Point,
    pub stack: Stack,
    pub step_no: usize,
    pub input: Vec<String>,
    pub output: String,
}

/// The stack after a binary operation: the two popped cells replaced by
/// the result.
pub open spec fn pop2_push(s: Seq<int>, v: int) -> Seq<int> {
    s.drop_last().drop_last().push(v)
}

/// The stack after a unary operation on the top cell.
pub open spec fn pop1_push(s: Seq<int>, v: int) -> Seq<int> {
    s.drop_last().push(v)
}

/// The fields an instruction never touches.
pub open spec fn ops_frame(pre: Interpreter, post: Interpreter) -> bool {
    &&& post.program == pre.program
    &&& post.curr_codel == pre.curr_codel
    &&& post.step_no == pre.step_no
    &&& post.input@ == pre.input@
}

/// The fields most instructions leave alone besides the stack.
pub open spec fn only_stack_changed(pre: Interpreter, post: Interpreter) -> bool {
    &&& ops_frame(pre, post)
    &&& post.dp == pre.dp
    &&& post.cc == pre.cc
    &&& post.output@ == pre.output@
}

/// The stack after `roll` on a stack whose two top cells are a roll
/// count and a valid depth: the counts removed and the window of the next
/// `depth` cells rotated right by the count modulo the depth (a negative
/// count rotates left).
pub open spec fn spec_roll(s: Seq<int>) -> Seq<int> {
    let rolls = s.last();
    let depth = s[s.len() - 2];
    let s2 = s.drop_last().drop_last();
    if depth == 0 {
        s2
    } else {
        rotate_window_right(s2, depth, rolls % depth)
    }
}


/// What one dispatched transition from a codel of color `src` to one of
/// color `dst` does to the execution state, per the 6-by-3 instruction
/// table: `bv` is the member count of the source block, `s`/`dp`/`cc`/
/// `out`/`inp` the stack, pointers, output and input queue before (0) and
/// after (1). When either color is white or black, nothing changes: the
/// move itself is the only effect.
#[verifier::opaque]
pub open spec fn transition_applied(
    src: Color,
    dst: Color,
    bv: int,
    s0: Seq<int>,
    dp0: DirectionPointer,
    cc0: CodelChooser,
    out0: Seq<char>,
    in0: Seq<String>,
    s1: Seq<int>,
    dp1: DirectionPointer,
    cc1: CodelChooser,
    out1: Seq<char>,
    in1: Seq<String>,
) -> bool {
    match (spec_hue_shift(src, dst), spec_lightness_shift(src, dst)) {
        (Some(h), Some(l)) => {
            if h == 0 {
                &&& dp1 == dp0 && cc1 == cc0 && out1 == out0 && in1 == in0
                &&& if l == 0 {
                    s1 == s0
                } else if l == 1 {
                    // push
                    s1 == s0.push(bv)
                } else {
                    // pop
                    &&& s0.len() == 0 ==> s1 == s0
                    &&& s0.len() > 0 ==> s1 == s0.drop_last()
                }
            } else if h == 1 {
                &&& dp1 == dp0 && cc1 == cc0 && out1 == out0 && in1 == in0
                &&& s0.len() < 2 ==> s1 == s0
                &&& s0.len() >= 2 ==> s1 == pop2_push(
                    s0,
                    if l == 0 {
                        // add
                        s0[s0.len() - 2] + s0.last()
                    } else if l == 1 {
                        // subtract
                        s0[s0.len() - 2] - s0.last()
                    } else {
                        // multiply
                        s0[s0.len() - 2] * s0.last()
                    },
                )
            } else if h == 2 {
                &&& dp1 == dp0 && cc1 == cc0 && out1 == out0 && in1 == in0
                &&& if l == 0 || l == 1 {
                    // divide / mod
                    &&& s0.len() < 2 || s0.last() == 0 ==> s1 == s0
                    &&& s0.len() >= 2 && s0.last() != 0 ==> s1 == pop2_push(
                        s0,
                        if l == 0 {
                            trunc_div(s0[s0.len() - 2], s0.last())
                        } else {
                            piet_mod(s0[s0.len() - 2], s0.last())
                        },
                    )
                } else {
                    // not
                    &&& s0.len() == 0 ==> s1 == s0
                    &&& s0.len() > 0 ==> s1 == pop1_push(
                        s0,
                        if s0.last() == 0 { 1int } else { 0int },
                    )
                }
            } else if h == 3 {
                &&& out1 == out0 && in1 == in0
                &&& if l == 0 {
                    // greater
                    &&& dp1 == dp0 && cc1 == cc0
                    &&& s0.len() < 2 ==> s1 == s0
                    &&& s0.len() >= 2 ==> s1 == pop2_push(
                        s0,
                        if s0[s0.len() - 2] > s0.last() { 1int } else { 0int },
                    )
                } else if l == 1 {
                    // pointer
                    &&& cc1 == cc0
                    &&& s0.len() == 0 ==> s1 == s0 && dp1 == dp0
                    &&& s0.len() > 0 ==> s1 == s0.drop_last()
                        && dp1 == spec_rotate_clockwise_n(dp0, (s0.last() % 4) as nat)
                } else {
                    // switch
                    &&& dp1 == dp0
                    &&& s0.len() == 0 ==> s1 == s0 && cc1 == cc0
                    &&& s0.len() > 0 ==> s1 == s0.drop_last()
                        && cc1 == (if s0.last() % 2 == 1 { spec_toggle(cc0) } else { cc0 })
                }
            } else if h == 4 {
                &&& dp1 == dp0 && cc1 == cc0 && out1 == out0
                &&& if l == 0 {
                    // duplicate
                    &&& in1 == in0
                    &&& s0.len() == 0 ==> s1 == s0
                    &&& s0.len() > 0 ==> s1 == s0.push(s0.last())
                } else if l == 1 {
                    // roll
                    &&& in1 == in0
                    &&& s0.len() < 2 ==> s1 == s0
                    &&& s0.len() >= 2 && (s0[s0.len() - 2] < 0 || s0[s0.len() - 2] > s0.len() - 2)
                        ==> s1 == s0
                    &&& s0.len() >= 2 && 0 <= s0[s0.len() - 2] <= s0.len() - 2
                        ==> s1 == spec_roll(s0)
                } else {
                    // in(number): consumes the first queued line
                    &&& in0.len() > 0 && in1 == in0.drop_first()
                    &&& match parsed_number_of(in0[0]@) {
                        Some(v) => s1 == s0.push(v),
                        None => s1 == s0,
                    }
                }
            } else {
                // h == 5
                &&& dp1 == dp0 && cc1 == cc0
                &&& if l == 0 {
                    // in(char): consumes the first queued line
                    &&& out1 == out0
                    &&& in0.len() > 0 && in1 == in0.drop_first()
                    &&& in0[0]@.len() == 0 ==> s1 == s0
                    &&& in0[0]@.len() > 0 ==> s1 == s0.push(in0[0]@[0] as u32 as int)
                } else if l == 1 {
                    // out(number)
                    &&& in1 == in0
                    &&& s0.len() == 0 ==> s1 == s0 && out1 == out0
                    &&& s0.len() > 0 ==> s1 == s0.drop_last()
                        && out1 == out0 + dec_str_of(s0.last())
                } else {
                    // out(char)
                    &&& in1 == in0
                    &&& s0.len() == 0 ==> s1 == s0 && out1 == out0
                    &&& s0.len() > 0 ==> s1 == s0.drop_last()
                        && (!is_unicode_scalar(s0.last()) ==> out1 == out0)
                        && (is_unicode_scalar(s0.last()) ==> out1.len() == out0.len() + 1
                            && out1.drop_last() == out0
                            && out1.last() as u32 as int == s0.last())
                }
            }
        },
        _ => s1 == s0 && dp1 == dp0 && cc1 == cc0 && out1 == out0 && in1 == in0,
    }
}

/// The well-formed interpreter states: the program is fully indexed and
/// execution stands on the grid.
pub open spec fn interp_wf(it: Interpreter) -> bool {
    &&& it.program.wf()
    &&& it.program.rows >= 1
    &&& it.program.cols >= 1
    &&& it.program.in_bounds(it.curr_codel)
}

impl Interpreter {
    /// Wrap a loaded program with the initial execution state: origin,
    /// direction pointer right, chooser left, empty stack.
    pub fn new(program: Program) -> (it: Interpreter)
        requires
            program.wf(),
            program.rows >= 1,
            program.cols >= 1,
        ensures
            interp_wf(it),
            it.program == program,
            it.dp == DirectionPointer::Right,
            it.cc == CodelChooser::Left,
            it.curr_codel == (Point(0, 0)),
            it.stack@ == Seq::<int>::empty(),
            it.step_no == 0,
            it.input@ == Seq::<String>::empty(),
            it.output@ == Seq::<char>::empty(),
    {
        let it = Interpreter {
            program,
            dp: DirectionPointer::Right,
            cc: CodelChooser::Left,
            curr_codel: Point(0, 0),
            stack: Stack::new(),
            step_no: 0,
            input: Vec::new(),
            output: String::new(),
        };
        proof {
            assert(it.input@ =~= Seq::<String>::empty());
        }
        it
    }

    /// Queue one line for the input instructions.
    pub fn supply_input(&mut self, line: String)
        ensures
            final(self).input@ == old(self).input@.push(line),
            final(self).program == old(self).program,
            final(self).dp == old(self).dp,
            final(self).cc == old(self).cc,
            final(self).curr_codel == old(self).curr_codel,
            final(self).stack@ == old(self).stack@,
            final(self).step_no == old(self).step_no,
            final(self).output@ == old(self).output@,
    {
        self.input.push(line);
    }

    /// Hand the collected output to the host and clear it.
    pub fn take_output(&mut self) -> (r: String)
        ensures
            r@ == old(self).output@,
            final(self).output@ == Seq::<char>::empty(),
            final(self).program == old(self).program,
            final(self).dp == old(self).dp,
            final(self).cc == old(self).cc,
            final(self).curr_codel == old(self).curr_codel,
            final(self).stack@ == old(self).stack@,
            final(self).step_no == old(self).step_no,
            final(self).input@ == old(self).input@,
    {
        let r = self.output.clone();
        self.output = String::new();
        r
    }

    /// The current direction pointer.
    pub fn dp(&self) -> (r: DirectionPointer)
        ensures
            r == self.dp,
    {
        self.dp
    }

    /// The current codel chooser.
    pub fn cc(&self) -> (r: CodelChooser)
        ensures
            r == self.cc,
    {
        self.cc
    }

    /// The current position.
    pub fn position(&self) -> (r: Point)
        ensures
            r == self.curr_codel,
    {
        self.curr_codel
    }

    /// How many productive transitions have run.
    pub fn steps_taken(&self) -> (r: usize)
        ensures
            r == self.step_no,
    {
        self.step_no
    }

    /// How many values the stack holds.
    pub fn stack_len(&self) -> (r: usize)
        ensures
            r == self.stack@.len(),
    {
        self.stack.len()
    }

    /// The stack value `i` cells above the bottom.
    pub fn stack_value_at(&self, i: usize) -> (r: &BigInt)
        requires
            i < self.stack@.len(),
        ensures
            big_value(*r) == self.stack@[i as int],
    {
        &self.stack.store[i]
    }

    /// `push`: push the member count of the source color block.
    pub fn push(&mut self, v: usize)
        ensures
            only_stack_changed(*old(self), *final(self)),
            final(self).stack@ == old(self).stack@.push(v as int),
    {
        let b = big_from_usize(v);
        self.stack.push(b);
    }

    /// `pop`: discard the top value; an underflow changes nothing.
    pub fn pop(&mut self)
        ensures
            only_stack_changed(*old(self), *final(self)),
            old(self).stack@.len() == 0 ==> final(self).stack@ == old(self).stack@,
            old(self).stack@.len() > 0 ==> final(self).stack@ == old(self).stack@.drop_last(),
    {
        let _ = self.stack.pop();
    }

    /// `add`: replace the two top values by their sum; an underflow
    /// changes nothing.
    pub fn add(&mut self)
        ensures
            only_stack_changed(*old(self), *final(self)),
            old(self).stack@.len() < 2 ==> final(self).stack@ == old(self).stack@,
            old(self).stack@.len() >= 2 ==> final(self).stack@ == pop2_push(
                old(self).stack@,
                old(self).stack@[old(self).stack@.len() - 2] + old(self).stack@.last(),
            ),
    {
        if self.stack.len() >= 2 {
            let a = self.stack.pop().unwrap();
            let b = self.stack.pop().unwrap();
            let r = big_add(&b, &a);
            self.stack.push(r);
        }
    }

    /// `subtract`: replace the two top values by second-minus-top; an
    /// underflow changes nothing.
    pub fn subtract(&mut self)
        ensures
            only_stack_changed(*old(self), *final(self)),
            old(self).stack@.len() < 2 ==> final(self).stack@ == old(self).stack@,
            old(self).stack@.len() >= 2 ==> final(self).stack@ == pop2_push(
                old(self).stack@,
                old(self).stack@[old(self).stack@.len() - 2] - old(self).stack@.last(),
            ),
    {
        if self.stack.len() >= 2 {
            let a = self.stack.pop().unwrap();
            let b = self.stack.pop().unwrap();
            let r = big_sub(&b, &a);
            self.stack.push(r);
        }
    }

    /// `multiply`: replace the two top values by their product; an
    /// underflow changes nothing.
    pub fn multiply(&mut self)
        ensures
            only_stack_changed(*old(self), *final(self)),
            old(self).stack@.len() < 2 ==> final(self).stack@ == old(self).stack@,
            old(self).stack@.len() >= 2 ==> final(self).stack@ == pop2_push(
                old(self).stack@,
                old(self).stack@[old(self).stack@.len() - 2] * old(self).stack@.last(),
            ),
    {
        if self.stack.len() >= 2 {
            let a = self.stack.pop().unwrap();
            let b = self.stack.pop().unwrap();
            let r = big_mul(&b, &a);
            self.stack.push(r);
        }
    }

    /// `divide`: replace the two top values by second-divided-by-top,
    /// truncated toward zero; an underflow or a zero divisor changes
    /// nothing.
    pub fn divide(&mut self)
        ensures
            only_stack_changed(*old(self), *final(self)),
            old(self).stack@.len() < 2 || old(self).stack@.last() == 0
                ==> final(self).stack@ == old(self).stack@,
            old(self).stack@.len() >= 2 && old(self).stack@.last() != 0
                ==> final(self).stack@ == pop2_push(
                    old(self).stack@,
                    trunc_div(old(self).stack@[old(self).stack@.len() - 2], old(self).stack@.last()),
                ),
    {
        if self.stack.len() >= 2 {
            if big_is_zero(self.stack.top().unwrap()) {
                return;
            }
            let a = self.stack.pop().unwrap();
            let b = self.stack.pop().unwrap();
            let r = big_div(&b, &a);
            self.stack.push(r);
        }
    }

    /// `mod`: replace the two top values by the Piet modulus of
    /// second-by-top, which carries the divisor's sign; an underflow or a
    /// zero divisor changes nothing.
    pub fn modulo(&mut self)
        ensures
            only_stack_changed(*old(self), *final(self)),
            old(self).stack@.len() < 2 || old(self).stack@.last() == 0
                ==> final(self).stack@ == old(self).stack@,
            old(self).stack@.len() >= 2 && old(self).stack@.last() != 0
                ==> final(self).stack@ == pop2_push(
                    old(self).stack@,
                    piet_mod(old(self).stack@[old(self).stack@.len() - 2], old(self).stack@.last()),
                ),
    {
        if self.stack.len() >= 2 {
            if big_is_zero(self.stack.top().unwrap()) {
                return;
            }
            let a = self.stack.pop().unwrap();
            let b = self.stack.pop().unwrap();
            let r = piet_mod_big(&b, &a);
            self.stack.push(r);
        }
    }

    /// `not`: replace the top value by 1 when it is zero and by 0
    /// otherwise; an underflow changes nothing.
    pub fn not(&mut self)
        ensures
            only_stack_changed(*old(self), *final(self)),
            old(self).stack@.len() == 0 ==> final(self).stack@ == old(self).stack@,
            old(self).stack@.len() > 0 ==> final(self).stack@ == pop1_push(
                old(self).stack@,
                if old(self).stack@.last() == 0 { 1int } else { 0int },
            ),
    {
        match self.stack.pop() {
            Some(a) => {
                let r = if big_is_zero(&a) {
                    big_from_usize(1)
                } else {
                    big_from_usize(0)
                };
                self.stack.push(r);
            },
            None => {},
        }
    }

    /// `greater`: replace the two top values by 1 when the second is
    /// strictly greater than the top, else by 0; an underflow changes
    /// nothing.
    pub fn greater(&mut self)
        ensures
            only_stack_changed(*old(self), *final(self)),
            old(self).stack@.len() < 2 ==> final(self).stack@ == old(self).stack@,
            old(self).stack@.len() >= 2 ==> final(self).stack@ == pop2_push(
                old(self).stack@,
                if old(self).stack@[old(self).stack@.len() - 2] > old(self).stack@.last() { 1int } else { 0int },
            ),
    {
        if self.stack.len() >= 2 {
            let a = self.stack.pop().unwrap();
            let b = self.stack.pop().unwrap();
            let r = if big_gt(&b, &a) {
                big_from_usize(1)
            } else {
                big_from_usize(0)
            };
            self.stack.push(r);
        }
    }

    /// `pointer`: pop a count and rotate the direction pointer clockwise
    /// that many times; a negative count rotates by its value modulo 4, so
    /// any integer is equivalent to `count mod 4` clockwise turns. An
    /// underflow changes nothing.
    pub fn pointer(&mut self)
        ensures
            ops_frame(*old(self), *final(self)),
            final(self).cc == old(self).cc,
            final(self).output@ == old(self).output@,
            old(self).stack@.len() == 0 ==> final(self).stack@ == old(self).stack@
                && final(self).dp == old(self).dp,
            old(self).stack@.len() > 0 ==> final(self).stack@ == old(self).stack@.drop_last()
                && final(self).dp == spec_rotate_clockwise_n(
                    old(self).dp,
                    (old(self).stack@.last() % 4) as nat,
                ),
    {
        match self.stack.pop() {
            Some(n) => {
                let four = big_from_usize(4);
                let m = piet_mod_big(&n, &four);
                proof {
                    lemma_piet_mod_props(big_value(n), 4);
                    lemma_piet_mod_euclid(big_value(n), 4);
                }
                let turns = big_to_u32(&m).unwrap();
                let ghost n_val = big_value(n);
                let mut t: u32 = 0;
                while t < turns
                    invariant
                        t <= turns,
                        turns == n_val % 4,
                        self.dp == spec_rotate_clockwise_n(old(self).dp, t as nat),
                        self.cc == old(self).cc,
                        self.stack@ == old(self).stack@.drop_last(),
                        self.program == old(self).program,
                        self.curr_codel == old(self).curr_codel,
                        self.step_no == old(self).step_no,
                        self.input@ == old(self).input@,
                        self.output@ == old(self).output@,
                    decreases turns - t,
                {
                    proof {
                        crate::program::lemma_rotate_clockwise_n_add(old(self).dp, t as nat, 1);
                        assert(spec_rotate_clockwise_n(self.dp, 1)
                            == spec_rotate_clockwise(self.dp)) by {
                            reveal_with_fuel(spec_rotate_clockwise_n, 2);
                        }
                    }
                    self.dp = self.dp.rotate_clockwise();
                    t += 1;
                }
            },
            None => {},
        }
    }

    /// `switch`: pop a count and toggle the codel chooser when the count
    /// is odd; an underflow changes nothing.
    pub fn switch(&mut self)
        ensures
            ops_frame(*old(self), *final(self)),
            final(self).dp == old(self).dp,
            final(self).output@ == old(self).output@,
            old(self).stack@.len() == 0 ==> final(self).stack@ == old(self).stack@
                && final(self).cc == old(self).cc,
            old(self).stack@.len() > 0 ==> final(self).stack@ == old(self).stack@.drop_last()
                && final(self).cc == (if old(self).stack@.last() % 2 == 1 {
                    spec_toggle(old(self).cc)
                } else {
                    old(self).cc
                }),
    {
        match self.stack.pop() {
            Some(n) => {
                if big_low_bit(&n) {
                    self.cc = self.cc.toggle();
                }
            },
            None => {},
        }
    }

    /// `duplicate`: push a copy of the top value; an underflow changes
    /// nothing.
    pub fn duplicate(&mut self)
        ensures
            only_stack_changed(*old(self), *final(self)),
            old(self).stack@.len() == 0 ==> final(self).stack@ == old(self).stack@,
            old(self).stack@.len() > 0
                ==> final(self).stack@ == old(self).stack@.push(old(self).stack@.last()),
    {
        match self.stack.top() {
            Some(t) => {
                let c = big_clone(t);
                self.stack.push(c);
            },
            None => {},
        }
    }

    /// `roll`: pop a roll count and a depth; rotate the window of the
    /// next `depth` values by the count, positive counts burying the top.
    /// An underflow, a negative depth or a depth beyond the remaining
    /// stack changes nothing.
    pub fn roll(&mut self)
        ensures
            only_stack_changed(*old(self), *final(self)),
            old(self).stack@.len() < 2 ==> final(self).stack@ == old(self).stack@,
            old(self).stack@.len() >= 2 && (old(self).stack@[old(self).stack@.len() - 2] < 0
                || old(self).stack@[old(self).stack@.len() - 2] > old(self).stack@.len() - 2)
                ==> final(self).stack@ == old(self).stack@,
            old(self).stack@.len() >= 2 && 0 <= old(self).stack@[old(self).stack@.len() - 2]
                <= old(self).stack@.len() - 2
                ==> final(self).stack@ == spec_roll(old(self).stack@),
    {
        let len = self.stack.len();
        if len < 2 {
            return;
        }
        proof {
            assert(self.stack@[len - 2] == big_value(self.stack.store@[len - 2]));
        }
        let depth_ref = &self.stack.store[len - 2];
        if big_is_negative(depth_ref) {
            return;
        }
        let d = match big_to_usize(depth_ref) {
            Some(d) => d,
            None => {
                return;
            },
        };
        if d > len - 2 {
            return;
        }
        let rolls = self.stack.pop().unwrap();
        let depth_big = self.stack.pop().unwrap();
        if d == 0 {
            return;
        }
        let ghost rolls_val = big_value(rolls);
        let m_big = piet_mod_big(&rolls, &depth_big);
        proof {
            lemma_piet_mod_props(rolls_val, d as int);
            lemma_piet_mod_euclid(rolls_val, d as int);
        }
        let m = big_to_usize(&m_big).unwrap();
        self.stack.rotate_top_right(d, m);
    }

    /// `in(number)`: parse `line` as an optionally signed decimal integer,
    /// surrounding whitespace ignored, and push it; an unparsable line
    /// changes nothing.
    pub fn in_number(&mut self, line: &str)
        ensures
            only_stack_changed(*old(self), *final(self)),
            match parsed_number_of(line@) {
                Some(v) => final(self).stack@ == old(self).stack@.push(v),
                None => final(self).stack@ == old(self).stack@,
            },
    {
        match big_parse(line) {
            Some(b) => {
                self.stack.push(b);
            },
            None => {},
        }
    }

    /// `in(char)`: push the Unicode scalar value of the first character of
    /// `line`; an empty line changes nothing.
    pub fn in_char(&mut self, line: &str)
        ensures
            only_stack_changed(*old(self), *final(self)),
            line@.len() == 0 ==> final(self).stack@ == old(self).stack@,
            line@.len() > 0 ==> final(self).stack@ == old(self).stack@.push(line@[0] as u32 as int),
    {
        match first_char(line) {
            Some(c) => {
                let v = c as u32;
                let b = big_from_usize(v as usize);
                self.stack.push(b);
            },
            None => {},
        }
    }

    /// `out(number)`: pop the top value and append its base-10 rendering
    /// to the output; an underflow changes nothing.
    pub fn out_number(&mut self)
        ensures
            ops_frame(*old(self), *final(self)),
            final(self).dp == old(self).dp,
            final(self).cc == old(self).cc,
            old(self).stack@.len() == 0 ==> final(self).stack@ == old(self).stack@
                && final(self).output@ == old(self).output@,
            old(self).stack@.len() > 0 ==> final(self).stack@ == old(self).stack@.drop_last()
                && final(self).output@ == old(self).output@ + dec_str_of(old(self).stack@.last()),
    {
        match self.stack.pop() {
            Some(b) => {
                let s = big_to_decimal(&b);
                self.output.append(s.as_str());
            },
            None => {},
        }
    }

    /// `out(char)`: pop the top value; when it is a Unicode scalar value,
    /// append that character to the output, else append nothing. An
    /// underflow changes nothing.
    pub fn out_char(&mut self)
        ensures
            ops_frame(*old(self), *final(self)),
            final(self).dp == old(self).dp,
            final(self).cc == old(self).cc,
            old(self).stack@.len() == 0 ==> final(self).stack@ == old(self).stack@
                && final(self).output@ == old(self).output@,
            old(self).stack@.len() > 0 ==> final(self).stack@ == old(self).stack@.drop_last()
                && (!is_unicode_scalar(old(self).stack@.last())
                    ==> final(self).output@ == old(self).output@)
                && (is_unicode_scalar(old(self).stack@.last())
                    ==> final(self).output@.len() == old(self).output@.len() + 1
                        && final(self).output@.drop_last() == old(self).output@
                        && final(self).output@.last() as u32 as int == old(self).stack@.last()),
    {
        match self.stack.pop() {
            Some(b) => {
                match big_to_u32(&b) {
                    Some(v) => {
                        match char_from_u32(v) {
                            Some(c) => {
                                push_char(&mut self.output, c);
                            },
                            None => {},
                        }
                    },
                    None => {},
                }
            },
            None => {},
        }
    }
}

/// A sequence of distinct codes below a bound cannot be longer than the
/// bound.
proof fn lemma_distinct_codes_bounded(s: Seq<u128>, bound: int)
    requires
        s.no_duplicates(),
        forall|i: int| 0 <= i < s.len() ==> ((#[trigger] s[i]) as int) < bound,
        bound >= 0,
    ensures
        s.len() <= bound,
{
    let si = s.map_values(|x: u128| x as int);
    assert(si.no_duplicates()) by {
        assert forall|i: int, j: int| 0 <= i < si.len() && 0 <= j < si.len() && i != j
            implies si[i] != si[j] by {
            assert(s[i] != s[j]);
        }
    }
    si.unique_seq_to_set();
    assert(si.to_set().subset_of(set_int_range(0, bound))) by {
        assert forall|v: int| si.to_set().contains(v)
            implies set_int_range(0, bound).contains(v) by {
            let i = choose|i: int| 0 <= i < si.len() && si[i] == v;
            assert((s[i] as int) < bound);
        }
    }
    lemma_int_range(0, bound);
    lemma_len_subset(si.to_set(), set_int_range(0, bound));
}


/// Where leaving a colored block lands, per the escape rules: from the
/// pair `(dp, cc)` onwards, alternating a chooser toggle (even attempts)
/// and a clockwise pointer rotation (odd attempts), the first pair whose
/// block edge has an in-grid non-black neighbor in direction `dp` gives
/// that neighbor; `None` after eight restricted attempts.
pub open spec fn spec_escape(
    prog: Program,
    block: ColorBlock,
    dp: DirectionPointer,
    cc: CodelChooser,
    tries: int,
) -> Option<(Point, DirectionPointer, CodelChooser)>
    decreases 8 - tries,
{
    if tries >= 8 {
        None
    } else {
        let e = block.edges@[edge_index(dp, cc)];
        match spec_next_in_direction(e, dp, prog.rows as int, prog.cols as int) {
            Some(n) => if prog.codel_at(n) != Color::Black {
                Some((n, dp, cc))
            } else if tries % 2 == 0 {
                spec_escape(prog, block, dp, spec_toggle(cc), tries + 1)
            } else {
                spec_escape(prog, block, spec_rotate_clockwise(dp), cc, tries + 1)
            },
            None => if tries % 2 == 0 {
                spec_escape(prog, block, dp, spec_toggle(cc), tries + 1)
            } else {
                spec_escape(prog, block, spec_rotate_clockwise(dp), cc, tries + 1)
            },
        }
    }
}

/// Whether the white walk escapes from this state: the neighbor in
/// direction `dp` is on the grid and neither black nor white.
pub open spec fn white_escapes(prog: Program, pos: Point, dp: DirectionPointer, cc: CodelChooser) -> bool {
    match spec_next_in_direction(pos, dp, prog.rows as int, prog.cols as int) {
        Some(n) => prog.codel_at(n) != Color::Black && prog.codel_at(n) != Color::White,
        None => false,
    }
}

/// The codel the white walk escapes onto, when it does.
pub open spec fn white_escape_target(prog: Program, pos: Point, dp: DirectionPointer, cc: CodelChooser) -> Point {
    spec_next_in_direction(pos, dp, prog.rows as int, prog.cols as int)->0
}

/// The next white-walk state when it does not escape: slide onto a white
/// neighbor, or stay and toggle the chooser and rotate the pointer at a
/// restriction (the border or black).
pub open spec fn white_successor(prog: Program, pos: Point, dp: DirectionPointer, cc: CodelChooser) -> (Point, DirectionPointer, CodelChooser) {
    match spec_next_in_direction(pos, dp, prog.rows as int, prog.cols as int) {
        Some(n) => if prog.codel_at(n) == Color::White {
            (n, dp, cc)
        } else {
            (pos, spec_rotate_clockwise(dp), spec_toggle(cc))
        },
        None => (pos, spec_rotate_clockwise(dp), spec_toggle(cc)),
    }
}

/// Where a white crossing started at `(pos, dp, cc)` ends up:
/// `Some((source, target, dp, cc))` with the last white codel, the codel
/// escaped onto and the pair at escape; `None` when the walk never
/// escapes. The walk is deterministic and has at most `8 * rows * cols`
/// distinct states, so `white_fuel` steps decide it: a walk that runs
/// longer has revisited a state and loops forever.
#[verifier::opaque]
pub open spec fn spec_white_walk(
    prog: Program,
    pos: Point,
    dp: DirectionPointer,
    cc: CodelChooser,
    fuel: nat,
) -> Option<(Point, Point, DirectionPointer, CodelChooser)>
    decreases fuel,
{
    if fuel == 0 {
        None
    } else if white_escapes(prog, pos, dp, cc) {
        Some((pos, white_escape_target(prog, pos, dp, cc), dp, cc))
    } else {
        let nx = white_successor(prog, pos, dp, cc);
        spec_white_walk(prog, nx.0, nx.1, nx.2, (fuel - 1) as nat)
    }
}

/// Enough fuel to decide any white walk on this grid.
pub open spec fn white_fuel(prog: Program) -> nat {
    (8 * prog.rows * prog.cols + 1) as nat
}

/// A walk that starts inside a set of states closed under the walk step
/// and free of escapes never escapes.
proof fn lemma_white_walk_trapped(
    prog: Program,
    st: (Point, DirectionPointer, CodelChooser),
    s: Set<(Point, DirectionPointer, CodelChooser)>,
    fuel: nat,
)
    requires
        s.contains(st),
        forall|t: (Point, DirectionPointer, CodelChooser)| #[trigger] s.contains(t)
            ==> !white_escapes(prog, t.0, t.1, t.2)
                && s.contains(white_successor(prog, t.0, t.1, t.2)),
    ensures
        spec_white_walk(prog, st.0, st.1, st.2, fuel) is None,
    decreases fuel,
{
    reveal(spec_white_walk);
    if fuel > 0 {
        lemma_white_walk_trapped(prog, white_successor(prog, st.0, st.1, st.2), s, (fuel - 1) as nat);
    }
}

impl Interpreter {
    /// Dispatch the instruction encoded by the hue and lightness shifts of
    /// one transition; when either side is white or black, the move alone
    /// happens. Returns `false`, changing nothing, when a read instruction
    /// finds no queued input line.
    #[verifier::rlimit(100)]
    fn action(&mut self, src_color: Color, next_color: Color, block_value: usize) -> (performed: bool)
        ensures
            final(self).program == old(self).program,
            final(self).curr_codel == old(self).curr_codel,
            final(self).step_no == old(self).step_no,
            !performed ==> *final(self) == *old(self) && old(self).input@.len() == 0,
            !(is_hue_bearing(src_color) && is_hue_bearing(next_color)) ==> performed
                && *final(self) == *old(self),
            performed ==> transition_applied(
                src_color,
                next_color,
                block_value as int,
                old(self).stack@,
                old(self).dp,
                old(self).cc,
                old(self).output@,
                old(self).input@,
                final(self).stack@,
                final(self).dp,
                final(self).cc,
                final(self).output@,
                final(self).input@,
            ),
    {
        proof {
            reveal(transition_applied);
        }
        let hc_opt = src_color.hue_change(&next_color);
        let lc_opt = src_color.lightness_change(&next_color);
        let (hc, lc) = match (hc_opt, lc_opt) {
            (Some(h), Some(l)) => (h, l),
            _ => {
                return true;
            },
        };
        match (hc, lc) {
            (0, 0) => {},
            (0, 1) => self.push(block_value),
            (0, 2) => self.pop(),
            (1, 0) => self.add(),
            (1, 1) => self.subtract(),
            (1, 2) => self.multiply(),
            (2, 0) => self.divide(),
            (2, 1) => self.modulo(),
            (2, 2) => self.not(),
            (3, 0) => self.greater(),
            (3, 1) => self.pointer(),
            (3, 2) => self.switch(),
            (4, 0) => self.duplicate(),
            (4, 1) => self.roll(),
            (4, 2) => {
                if self.input.len() == 0 {
                    return false;
                }
                let line = self.input.remove(0);
                proof {
                    assert(self.input@ =~= old(self).input@.drop_first());
                }
                self.in_number(line.as_str());
            },
            (5, 0) => {
                if self.input.len() == 0 {
                    return false;
                }
                let line = self.input.remove(0);
                proof {
                    assert(self.input@ =~= old(self).input@.drop_first());
                }
                self.in_char(line.as_str());
            },
            (5, 1) => self.out_number(),
            (5, 2) => self.out_char(),
            _ => {
                proof {
                    assert(false);
                }
            },
        }
        true
    }

    /// One execution step: find the transition the traversal rules pick
    /// from the current codel, fire its instruction, and advance.
    ///
    /// From a colored codel the escape search `spec_escape` decides the
    /// step: `Done` after eight restricted attempts (which restore the
    /// pointers, so nothing changes), else the instruction of the color
    /// pair fires and the escape target becomes the position. From a
    /// white codel the walk `spec_white_walk` decides it: `Done` when a
    /// `(position, dp, cc)` state repeats, else the move alone happens.
    /// `AwaitInput` reports that the instruction reads a line and none is
    /// queued; nothing is consumed or changed and the same transition
    /// runs once a line is queued.
    #[verifier::loop_isolation(false)]
    #[verifier::rlimit(100)]
    pub fn step(&mut self) -> (r: StepResult)
        requires
            interp_wf(*old(self)),
            old(self).step_no < usize::MAX,
        ensures
            interp_wf(*final(self)),
            final(self).program == old(self).program,
            r == StepResult::Stuck <==> old(self).program.codel_at(old(self).curr_codel)
                == Color::Black,
            r == StepResult::Stuck ==> *final(self) == *old(self),
            r == StepResult::AwaitInput || r == StepResult::Done ==> {
                &&& final(self).stack@ == old(self).stack@
                &&& final(self).output@ == old(self).output@
                &&& final(self).input@ == old(self).input@
                &&& final(self).step_no == old(self).step_no
            },
            r == StepResult::AwaitInput ==> old(self).input@.len() == 0
                && final(self).curr_codel == old(self).curr_codel,
            r == StepResult::Continue ==> final(self).step_no == old(self).step_no + 1,
            is_hue_bearing(old(self).program.codel_at(old(self).curr_codel)) ==> ({
                let esc = spec_escape(
                    old(self).program,
                    old(self).program.spec_block_of(old(self).curr_codel),
                    old(self).dp,
                    old(self).cc,
                    0,
                );
                &&& (r == StepResult::Done <==> esc is None)
                &&& (r == StepResult::Done ==> *final(self) == *old(self))
                &&& (r == StepResult::Continue ==> ({
                    &&& final(self).curr_codel == (esc->0).0
                    &&& transition_applied(
                        old(self).program.codel_at(old(self).curr_codel),
                        old(self).program.codel_at((esc->0).0),
                        old(self).program.spec_block_of(old(self).curr_codel).area@.len() as int,
                        old(self).stack@,
                        (esc->0).1,
                        (esc->0).2,
                        old(self).output@,
                        old(self).input@,
                        final(self).stack@,
                        final(self).dp,
                        final(self).cc,
                        final(self).output@,
                        final(self).input@,
                    )
                }))
            }),
            old(self).program.codel_at(old(self).curr_codel) == Color::White ==> ({
                let ww = spec_white_walk(
                    old(self).program,
                    old(self).curr_codel,
                    old(self).dp,
                    old(self).cc,
                    white_fuel(old(self).program),
                );
                &&& r != StepResult::AwaitInput && r != StepResult::Stuck
                &&& (r == StepResult::Continue ==> ww is Some)
                &&& (r == StepResult::Continue ==> ({
                    &&& final(self).curr_codel == (ww->0).1
                    &&& final(self).dp == (ww->0).2
                    &&& final(self).cc == (ww->0).3
                    &&& final(self).stack@ == old(self).stack@
                    &&& final(self).output@ == old(self).output@
                    &&& final(self).input@ == old(self).input@
                }))
            }),
    {
        let curr = self.curr_codel;
        let curr_color = *self.program.get_codel(*curr.row(), *curr.col()).unwrap();
        if curr_color == Color::Black {
            return StepResult::Stuck;
        }
        let next_pt: Point;
        let next_color: Color;
        let src_color: Color;
        if curr_color == Color::White {
            match self.cross_white() {
                Some(nc) => {
                    next_pt = nc.0;
                    next_color = nc.1;
                    src_color = Color::White;
                },
                None => {
                    // the walk revisited a traversal state: the program
                    // cannot leave this white region
                    return StepResult::Done;
                },
            }
        } else {
            match self.escape_colored() {
                Some(nc) => {
                    next_pt = nc.0;
                    next_color = nc.1;
                    src_color = curr_color;
                },
                None => {
                    // eight restricted attempts: the program ends
                    return StepResult::Done;
                },
            }
        }
        let block_value = self.program.get_color_block(&self.curr_codel).unwrap().num_codels();
        let performed = self.action(src_color, next_color, block_value);
        if !performed {
            return StepResult::AwaitInput;
        }
        self.step_no = self.step_no + 1;
        self.curr_codel = next_pt;
        StepResult::Continue
    }

    /// Walk across the white block at the current position: `Some` with
    /// the escaped-onto codel and its color (the position is then the
    /// last white codel visited, the source of the transition), or `None`
    /// when a traversal state repeated and the walk can never escape.
    #[verifier::loop_isolation(false)]
    #[verifier::rlimit(100)]
    fn cross_white(&mut self) -> (r: Option<(Point, Color)>)
        requires
            interp_wf(*old(self)),
            old(self).program.codel_at(old(self).curr_codel) == Color::White,
        ensures
            interp_wf(*final(self)),
            final(self).program == old(self).program,
            final(self).stack == old(self).stack,
            final(self).output == old(self).output,
            final(self).input == old(self).input,
            final(self).step_no == old(self).step_no,
            (match r {
                Some(nc) => spec_white_walk(
                    old(self).program,
                    old(self).curr_codel,
                    old(self).dp,
                    old(self).cc,
                    white_fuel(old(self).program),
                ) == Some((final(self).curr_codel, nc.0, final(self).dp, final(self).cc))
                    && final(self).program.in_bounds(nc.0)
                    && nc.1 == final(self).program.codel_at(nc.0)
                    && nc.1 != Color::Black && nc.1 != Color::White,
                None => final(self).curr_codel == old(self).curr_codel,
            }),
    {
        let curr = self.curr_codel;
        let ghost bound = 8 * (self.program.rows as int) * (self.program.cols as int);
        let ghost st0 = (curr, self.dp, self.cc);
        let ghost fuel_total = white_fuel(self.program);
        let mut curr_w = curr;
        let mut seen: Vec<u128> = Vec::new();
        let mut escaped: Option<(Point, Color)> = None;
        while escaped.is_none()
            invariant
                interp_wf(*self),
                self.program == old(self).program,
                self.program.in_bounds(curr_w),
                self.stack == old(self).stack,
                self.output == old(self).output,
                self.input == old(self).input,
                self.step_no == old(self).step_no,
                seen@.no_duplicates(),
                forall|i: int| 0 <= i < seen@.len() ==> ((#[trigger] seen@[i]) as int) < bound,
                (match escaped {
                    Some(nc) => self.program.in_bounds(nc.0)
                        && nc.1 == self.program.codel_at(nc.0)
                        && nc.1 != Color::Black && nc.1 != Color::White
                        && spec_white_walk(self.program, st0.0, st0.1, st0.2, fuel_total)
                            == Some((self.curr_codel, nc.0, self.dp, self.cc)),
                    None => {
                        &&& self.curr_codel == old(self).curr_codel
                        &&& seen@.len() <= bound
                        &&& spec_white_walk(self.program, st0.0, st0.1, st0.2, fuel_total)
                            == spec_white_walk(
                                self.program, curr_w, self.dp, self.cc,
                                (fuel_total - seen@.len()) as nat,
                            )
                    },
                }),
            decreases bound - seen@.len(),
        {
            let ghost cur_st = (curr_w, self.dp, self.cc);
            let k = edge_index_x(self.dp, self.cc);
            let pidx = self.program.pos_index_x(curr_w);
            let code: u128 = (pidx as u128) * 8 + (k as u128);
            proof {
                assert((pidx as int) * 8 + (k as int) < bound) by (nonlinear_arith)
                    requires
                        (pidx as int) < (self.program.rows as int) * (self.program.cols as int),
                        k < 8,
                        bound == 8 * (self.program.rows as int) * (self.program.cols as int);
            }
            let mut found = false;
            let mut i: usize = 0;
            while i < seen.len()
                invariant
                    i <= seen@.len(),
                    found <==> exists|j: int| 0 <= j < i && seen@[j] == code,
                decreases seen@.len() - i,
            {
                if seen[i] == code {
                    found = true;
                }
                i += 1;
            }
            if found {
                // the walk revisited a traversal state: the program can
                // never leave this white region
                return None;
            }
            proof {
                assert(!seen@.contains(code));
                assert(seen@.push(code).no_duplicates());
                lemma_distinct_codes_bounded(seen@.push(code), bound);
            }
            seen.push(code);
            let step_to = curr_w.next_in_direction(self.dp, &self.program);
            let mut restricted = true;
            match step_to {
                Some(n) => {
                    let ncolor = *self.program.get_codel(*n.row(), *n.col()).unwrap();
                    if ncolor == Color::Black {
                    } else if ncolor == Color::White {
                        curr_w = n;
                        restricted = false;
                    } else {
                        self.curr_codel = curr_w;
                        escaped = Some((n, ncolor));
                        restricted = false;
                    }
                },
                None => {},
            }
            if restricted {
                self.cc = self.cc.toggle();
                self.dp = self.dp.rotate_clockwise();
            }
            proof {
                reveal(spec_white_walk);
                let ghost done = seen@.len();
                if escaped is Some {
                    assert(white_escapes(self.program, cur_st.0, cur_st.1, cur_st.2));
                    assert(spec_white_walk(
                        self.program, cur_st.0, cur_st.1, cur_st.2,
                        (fuel_total - (done - 1)) as nat,
                    ) is Some);
                } else {
                    assert(!white_escapes(self.program, cur_st.0, cur_st.1, cur_st.2));
                    assert((curr_w, self.dp, self.cc)
                        == white_successor(self.program, cur_st.0, cur_st.1, cur_st.2));
                    assert(spec_white_walk(
                        self.program, cur_st.0, cur_st.1, cur_st.2,
                        (fuel_total - (done - 1)) as nat,
                    ) == spec_white_walk(
                        self.program, curr_w, self.dp, self.cc,
                        (fuel_total - done) as nat,
                    ));
                }
            }
        }
        escaped
    }

    /// Try to leave the colored block at the current position: from the
    /// current `(dp, cc)` pair, alternate a chooser toggle and a pointer
    /// rotation until the block's edge has an in-grid non-black neighbor
    /// in direction `dp`. `None` after eight restricted attempts, which
    /// restore both pointers.
    #[verifier::loop_isolation(false)]
    #[verifier::rlimit(100)]
    fn escape_colored(&mut self) -> (r: Option<(Point, Color)>)
        requires
            interp_wf(*old(self)),
            is_hue_bearing(old(self).program.codel_at(old(self).curr_codel)),
        ensures
            interp_wf(*final(self)),
            final(self).program == old(self).program,
            final(self).curr_codel == old(self).curr_codel,
            final(self).stack == old(self).stack,
            final(self).output == old(self).output,
            final(self).input == old(self).input,
            final(self).step_no == old(self).step_no,
            (match r {
                Some(nc) => spec_escape(
                    old(self).program,
                    old(self).program.spec_block_of(old(self).curr_codel),
                    old(self).dp,
                    old(self).cc,
                    0,
                ) == Some((nc.0, final(self).dp, final(self).cc))
                    && final(self).program.in_bounds(nc.0)
                    && nc.1 == final(self).program.codel_at(nc.0)
                    && nc.1 != Color::Black,
                None => spec_escape(
                    old(self).program,
                    old(self).program.spec_block_of(old(self).curr_codel),
                    old(self).dp,
                    old(self).cc,
                    0,
                ) is None && final(self).dp == old(self).dp && final(self).cc == old(self).cc,
            }),
    {
        let curr = self.curr_codel;
        let ghost block0 = self.program.spec_block_of(curr);
        let ghost dp0 = self.dp;
        let ghost cc0 = self.cc;
        let mut esc: Option<(Point, Color)> = None;
        let mut tries: u32 = 0;
        while esc.is_none() && tries < 8
            invariant
                interp_wf(*self),
                self.program == old(self).program,
                self.curr_codel == old(self).curr_codel,
                self.stack == old(self).stack,
                self.output == old(self).output,
                self.input == old(self).input,
                self.step_no == old(self).step_no,
                tries <= 8,
                (match esc {
                    Some(nc) => self.program.in_bounds(nc.0)
                        && nc.1 == self.program.codel_at(nc.0) && nc.1 != Color::Black
                        && spec_escape(self.program, block0, dp0, cc0, 0)
                            == Some((nc.0, self.dp, self.cc)),
                    None => {
                        &&& self.dp == spec_rotate_clockwise_n(dp0, ((tries as int) / 2) as nat)
                        &&& self.cc == (if ((tries as int + 1) / 2) % 2 == 0 { cc0 } else {
                            spec_toggle(cc0)
                        })
                        &&& spec_escape(self.program, block0, dp0, cc0, 0)
                            == spec_escape(self.program, block0, self.dp, self.cc, tries as int)
                    },
                }),
            decreases 8 - tries,
        {
            let e = self.program.get_color_block(&curr).unwrap().edge(self.dp, self.cc);
            proof {
                let pr = self.program;
                pr.lemma_idx_bounds(curr);
                assert(pr.pos_indexed(curr, (pr.rows * pr.cols) as int));
                assert(pr.spec_block_of(curr).area@.contains(e));
                assert(pr.in_bounds(e));
            }
            let mut hit = false;
            match e.next_in_direction(self.dp, &self.program) {
                Some(n) => {
                    let ncolor = *self.program.get_codel(*n.row(), *n.col()).unwrap();
                    if ncolor != Color::Black {
                        proof {
                            assert(spec_escape(self.program, block0, self.dp, self.cc, tries as int)
                                == Some((n, self.dp, self.cc)));
                        }
                        esc = Some((n, ncolor));
                        hit = true;
                    }
                },
                None => {},
            }
            if !hit {
                proof {
                    assert(spec_escape(self.program, block0, self.dp, self.cc, tries as int)
                        == (if tries % 2 == 0 {
                            spec_escape(self.program, block0, self.dp, spec_toggle(self.cc), tries as int + 1)
                        } else {
                            spec_escape(self.program, block0, spec_rotate_clockwise(self.dp), self.cc, tries as int + 1)
                        }));
                    if tries % 2 != 0 {
                        crate::program::lemma_rotate_clockwise_n_add(dp0, ((tries as int) / 2) as nat, 1);
                        assert(spec_rotate_clockwise_n(self.dp, 1)
                            == spec_rotate_clockwise(self.dp)) by {
                            reveal_with_fuel(spec_rotate_clockwise_n, 2);
                        }
                    }
                }
                if tries % 2 == 0 {
                    self.cc = self.cc.toggle();
                } else {
                    self.dp = self.dp.rotate_clockwise();
                }
            }
            tries += 1;
        }
        proof {
            if esc is None {
                assert(spec_escape(self.program, block0, self.dp, self.cc, 8) is None);
                assert(self.dp == dp0) by {
                    reveal_with_fuel(spec_rotate_clockwise_n, 5);
                }
                assert(self.cc == cc0);
            }
        }
        esc
    }

    /// Run until the program ends, an input line is needed, or `max_steps`
    /// productive transitions have been taken in total; reaching the bound
    /// returns `Continue`.
    pub fn run_until(&mut self, max_steps: usize) -> (r: StepResult)
        requires
            interp_wf(*old(self)),
        ensures
            interp_wf(*final(self)),
            final(self).program == old(self).program,
            r == StepResult::Continue ==> final(self).step_no >= max_steps,
            old(self).step_no >= max_steps ==> *final(self) == *old(self)
                && r == StepResult::Continue,
            r == StepResult::Stuck ==> final(self).program.codel_at(final(self).curr_codel)
                == Color::Black,
    {
        while self.step_no < max_steps
            invariant
                interp_wf(*self),
                self.program == old(self).program,
                old(self).step_no >= max_steps ==> *self == *old(self),
            decreases max_steps - self.step_no,
        {
            let r = self.step();
            if !matches!(r, StepResult::Continue) {
                return r;
            }
        }
        StepResult::Continue
    }

    /// Run until the program ends or an input line is needed.
    pub fn run(&mut self) -> (r: StepResult)
        requires
            interp_wf(*old(self)),
        ensures
            interp_wf(*final(self)),
            final(self).program == old(self).program,
            r == StepResult::Stuck ==> final(self).program.codel_at(final(self).curr_codel)
                == Color::Black,
    {
        self.run_until(usize::MAX)
    }
}

impl Program {
    /// Wrap this program in a fresh execution engine.
    pub fn into_interpreter(self) -> (it: Interpreter)
        requires
            self.wf(),
            self.rows >= 1,
            self.cols >= 1,
        ensures
            interp_wf(it),
            it.program == self,
            it.dp == DirectionPointer::Right,
            it.cc == CodelChooser::Left,
            it.curr_codel == (Point(0, 0)),
            it.stack@ == Seq::<int>::empty(),
            it.step_no == 0,
            it.output@ == Seq::<char>::empty(),
    {
        Interpreter::new(self)
    }
}

/// The Piet modulus on stack values, built from the truncated remainder
/// the way the sign rule asks: keep a remainder that already carries the
/// divisor's sign, shift any other nonzero remainder by the divisor.
fn piet_mod_big(b: &BigInt, a: &BigInt) -> (r: BigInt)
    requires
        big_value(*a) != 0,
    ensures
        big_value(r) == piet_mod(big_value(*b), big_value(*a)),
{
    let m0 = big_rem(b, a);
    if big_is_zero(&m0) {
        m0
    } else if big_is_negative(&m0) == big_is_negative(a) {
        m0
    } else {
        big_add(&m0, a)
    }
}

} // verus!
