//! Arbitrary-precision stack integers.
//!
//! Stack values are `num_bigint::BigInt`. Verus sees that type as opaque;
//! `big_value` names the mathematical integer a `BigInt` holds, and a small
//! set of trusted wrappers states what each arithmetic call does to that
//! integer. All Piet arithmetic rules (truncated division, the
//! divisor-signed modulus) are then proved in verified code on top of them.

use vstd::prelude::*;
use vstd::arithmetic::div_mod::{lemma_fundamental_div_mod, lemma_fundamental_div_mod_converse, lemma_fundamental_div_mod_converse_mod, lemma_mod_bound};
use num_bigint::BigInt;
use num_traits::cast::ToPrimitive;
use num_traits::{Signed, Zero};

verus! {

#[verifier::external_type_specification]
#[verifier::external_body]
pub struct ExBigInt(BigInt);

/// The mathematical integer a `BigInt` holds.
pub uninterp spec fn big_value(b: BigInt) -> int;

/// Absolute value.
pub open spec fn abs(v: int) -> int {
    if v < 0 { -v } else { v }
}

/// Quotient of truncated division (rounds toward zero), as `BigInt`
/// division computes it.
pub open spec fn trunc_div(b: int, a: int) -> int {
    if (b >= 0) == (a >= 0) {
        abs(b) / abs(a)
    } else {
        -(abs(b) / abs(a))
    }
}

/// Remainder of truncated division: same sign as the dividend.
pub open spec fn trunc_rem(b: int, a: int) -> int {
    b - a * trunc_div(b, a)
}

/// The Piet modulus: the representative of `b` modulo `a` that carries the
/// sign of the divisor `a`.
pub open spec fn piet_mod(b: int, a: int) -> int {
    let r = trunc_rem(b, a);
    if r == 0 {
        0
    } else if (r > 0) == (a > 0) {
        r
    } else {
        r + a
    }
}

/// Truncated division and remainder satisfy the division identity, the
/// remainder is smaller than the divisor in magnitude and carries the sign
/// of the dividend.
pub proof fn lemma_trunc_rem_props(b: int, a: int)
    requires
        a != 0,
    ensures
        b == trunc_div(b, a) * a + trunc_rem(b, a),
        -abs(a) < trunc_rem(b, a) < abs(a),
        b >= 0 ==> trunc_rem(b, a) >= 0,
        b <= 0 ==> trunc_rem(b, a) <= 0,
{
    let bb = abs(b);
    let aa = abs(a);
    lemma_fundamental_div_mod(bb, aa);
    lemma_mod_bound(bb, aa);
    let q = bb / aa;
    let r = bb % aa;
    assert(bb == aa * q + r);
    if b == 0 {
        lemma_fundamental_div_mod_converse(0, aa, 0, 0);
    }
    let td = trunc_div(b, a);
    if b >= 0 && a > 0 {
        assert(td == q);
        assert(a * td == aa * q);
        assert(trunc_rem(b, a) == r);
    } else if b >= 0 && a < 0 {
        assert(td == -q);
        assert(a * td == aa * q) by (nonlinear_arith)
            requires
                aa == -a,
                td == -q;
        assert(trunc_rem(b, a) == r);
    } else if b < 0 && a > 0 {
        assert(td == -q);
        assert(a * td == -(aa * q)) by (nonlinear_arith)
            requires
                aa == a,
                td == -q;
        assert(trunc_rem(b, a) == -r);
    } else {
        assert(td == q);
        assert(a * td == -(aa * q)) by (nonlinear_arith)
            requires
                aa == -a,
                td == q;
        assert(trunc_rem(b, a) == -r);
    }
    assert(td * a == a * td) by (nonlinear_arith);
}

/// The law of the Piet modulus: the result carries the sign of the divisor,
/// is smaller than it in magnitude, and differs from the dividend by a
/// multiple of it.
pub proof fn lemma_piet_mod_props(b: int, a: int)
    requires
        a != 0,
    ensures
        a > 0 ==> 0 <= piet_mod(b, a) < a,
        a < 0 ==> a < piet_mod(b, a) <= 0,
        exists|k: int| b == #[trigger] (k * a) + piet_mod(b, a),
{
    lemma_trunc_rem_props(b, a);
    let td = trunc_div(b, a);
    let r = trunc_rem(b, a);
    if piet_mod(b, a) == r {
        assert(b == td * a + piet_mod(b, a));
    } else {
        assert(piet_mod(b, a) == r + a);
        assert((td - 1) * a == td * a - a) by (nonlinear_arith);
        assert(b == (td - 1) * a + piet_mod(b, a));
    }
}

/// For a positive divisor the Piet modulus is the Euclidean remainder.
pub proof fn lemma_piet_mod_euclid(b: int, a: int)
    requires
        a > 0,
    ensures
        piet_mod(b, a) == b % a,
{
    lemma_piet_mod_props(b, a);
    let k = choose|k: int| b == #[trigger] (k * a) + piet_mod(b, a);
    lemma_fundamental_div_mod_converse_mod(b, a, k, piet_mod(b, a));
}

/// Relies on `<num_bigint::BigInt as From<usize>>::from`: the result holds
/// the given value.
#[verifier::external_body]
pub(crate) fn big_from_usize(v: usize) -> (r: BigInt)
    ensures
        big_value(r) == v as int,
{
    BigInt::from(v)
}

/// Relies on `<num_bigint::BigInt as Clone>::clone`: the copy holds the
/// same value.
#[verifier::external_body]
pub(crate) fn big_clone(x: &BigInt) -> (r: BigInt)
    ensures
        big_value(r) == big_value(*x),
{
    x.clone()
}

/// Relies on `<&BigInt as Add>::add`: exact integer addition.
#[verifier::external_body]
pub(crate) fn big_add(x: &BigInt, y: &BigInt) -> (r: BigInt)
    ensures
        big_value(r) == big_value(*x) + big_value(*y),
{
    x + y
}

/// Relies on `<&BigInt as Sub>::sub`: exact integer subtraction.
#[verifier::external_body]
pub(crate) fn big_sub(x: &BigInt, y: &BigInt) -> (r: BigInt)
    ensures
        big_value(r) == big_value(*x) - big_value(*y),
{
    x - y
}

/// Relies on `<&BigInt as Mul>::mul`: exact integer multiplication.
#[verifier::external_body]
pub(crate) fn big_mul(x: &BigInt, y: &BigInt) -> (r: BigInt)
    ensures
        big_value(r) == big_value(*x) * big_value(*y),
{
    x * y
}

/// Relies on `<&BigInt as Div>::div`: quotient of truncated division
/// (`div_rem` gives the quotient the product of the operand signs); panics
/// on a zero divisor, which the precondition rules out.
#[verifier::external_body]
pub(crate) fn big_div(x: &BigInt, y: &BigInt) -> (r: BigInt)
    requires
        big_value(*y) != 0,
    ensures
        big_value(r) == trunc_div(big_value(*x), big_value(*y)),
{
    x / y
}

/// Relies on `<&BigInt as Rem>::rem`: remainder of truncated division
/// (`div_rem` gives the remainder the sign of the dividend); panics on a
/// zero divisor, which the precondition rules out.
#[verifier::external_body]
pub(crate) fn big_rem(x: &BigInt, y: &BigInt) -> (r: BigInt)
    requires
        big_value(*y) != 0,
    ensures
        big_value(r) == trunc_rem(big_value(*x), big_value(*y)),
{
    x % y
}

/// Relies on `num_traits::Zero::is_zero` for `BigInt`.
#[verifier::external_body]
pub(crate) fn big_is_zero(x: &BigInt) -> (r: bool)
    ensures
        r <==> big_value(*x) == 0,
{
    x.is_zero()
}

/// Relies on `num_traits::Signed::is_negative` for `BigInt`.
#[verifier::external_body]
pub(crate) fn big_is_negative(x: &BigInt) -> (r: bool)
    ensures
        r <==> big_value(*x) < 0,
{
    x.is_negative()
}

/// Relies on `<BigInt as Ord>::cmp` through `>`: the order of `BigInt`
/// values is the order of the integers they hold.
#[verifier::external_body]
pub(crate) fn big_gt(x: &BigInt, y: &BigInt) -> (r: bool)
    ensures
        r <==> big_value(*x) > big_value(*y),
{
    x > y
}

/// Relies on `num_bigint::BigInt::bit`: bit 0 of the two's complement form
/// is set exactly for odd values.
#[verifier::external_body]
pub(crate) fn big_low_bit(x: &BigInt) -> (r: bool)
    ensures
        r <==> big_value(*x) % 2 == 1,
{
    x.bit(0)
}

/// Relies on `num_traits::ToPrimitive::to_u32` for `BigInt`: `Some` exactly
/// when the value fits a `u32`.
#[verifier::external_body]
pub(crate) fn big_to_u32(x: &BigInt) -> (r: Option<u32>)
    ensures
        match r {
            Some(v) => v as int == big_value(*x),
            None => !(0 <= big_value(*x) <= u32::MAX),
        },
{
    x.to_u32()
}

/// Relies on `num_traits::ToPrimitive::to_usize` for `BigInt`: `Some`
/// exactly when the value fits a `usize`.
#[verifier::external_body]
pub(crate) fn big_to_usize(x: &BigInt) -> (r: Option<usize>)
    ensures
        match r {
            Some(v) => v as int == big_value(*x),
            None => !(0 <= big_value(*x) <= usize::MAX),
        },
{
    x.to_usize()
}

/// The integer that Piet numeric input denotes: an optionally signed run of
/// decimal digits with surrounding whitespace ignored, or nothing when the
/// line is not of that shape.
pub uninterp spec fn parsed_number_of(s: Seq<char>) -> Option<int>;

/// Relies on `str::trim` and `<BigInt as FromStr>::from_str`: together they
/// read an optionally signed decimal integer, ignoring surrounding
/// whitespace; the outcome depends on the characters alone.
#[verifier::external_body]
pub(crate) fn big_parse(s: &str) -> (r: Option<BigInt>)
    ensures
        match r {
            Some(b) => parsed_number_of(s@) == Some(big_value(b)),
            None => parsed_number_of(s@) is None,
        },
{
    s.trim().parse::<BigInt>().ok()
}

/// Decimal digit characters.
pub open spec fn dec_digit_char(d: int) -> char {
    if d == 0 { '0' }
    else if d == 1 { '1' }
    else if d == 2 { '2' }
    else if d == 3 { '3' }
    else if d == 4 { '4' }
    else if d == 5 { '5' }
    else if d == 6 { '6' }
    else if d == 7 { '7' }
    else if d == 8 { '8' }
    else { '9' }
}

/// The decimal digits of a non-negative value, most significant first,
/// without leading zeros (`0` is the single digit `0`).
pub open spec fn dec_digits(n: nat) -> Seq<char>
    decreases n,
{
    if n < 10 {
        seq![dec_digit_char(n as int)]
    } else {
        dec_digits(n / 10) + seq![dec_digit_char((n % 10) as int)]
    }
}

/// The base-10 rendering of an integer: a minus sign for negative values,
/// then the digits of the magnitude.
pub open spec fn dec_str_of(v: int) -> Seq<char> {
    if v < 0 {
        seq!['-'] + dec_digits((-v) as nat)
    } else {
        dec_digits(v as nat)
    }
}

/// Relies on `<BigInt as Display>::fmt` via `format!`: an optional minus
/// sign followed by the decimal digits of the magnitude without leading
/// zeros.
#[verifier::external_body]
pub(crate) fn big_to_decimal(x: &BigInt) -> (r: String)
    ensures
        r@ == dec_str_of(big_value(*x)),
{
    format!("{}", x)
}

} // verus!
