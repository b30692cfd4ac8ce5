//! Small trusted helpers over `char` and `String` for the two character
//! instructions.

use vstd::prelude::*;

verus! {

/// A value that a Unicode scalar may take (no surrogates, at most
/// `0x10FFFF`).
pub open spec fn is_unicode_scalar(v: int) -> bool {
    (0 <= v && v < 0xD800) || (0xE000 <= v && v <= 0x10FFFF)
}

/// Relies on `char::from_u32`: `Some` exactly for Unicode scalar values,
/// and the character returned has the given scalar value.
#[verifier::external_body]
pub(crate) fn char_from_u32(v: u32) -> (r: Option<char>)
    ensures
        match r {
            Some(c) => is_unicode_scalar(v as int) && c as u32 == v,
            None => !is_unicode_scalar(v as int),
        },
{
    char::from_u32(v)
}

/// Relies on `String::push`: appends exactly one character.
#[verifier::external_body]
pub(crate) fn push_char(out: &mut String, c: char)
    ensures
        final(out)@ == old(out)@.push(c),
{
    out.push(c);
}

/// Relies on `str::chars` followed by `Iterator::next`: the first character
/// of the string, or `None` when it is empty.
#[verifier::external_body]
pub(crate) fn first_char(s: &str) -> (r: Option<char>)
    ensures
        match r {
            Some(c) => s@.len() > 0 && c == s@[0],
            None => s@.len() == 0,
        },
{
    s.chars().next()
}

} // verus!
