//! Core of an interpreter for the Piet graphical programming language.
//!
//! A Piet program is a grid of colored codels. Execution walks a direction
//! pointer across maximal same-colored blocks; each transition between two
//! hue-bearing colors encodes one stack instruction over arbitrary-precision
//! integers.

pub mod bignum;
pub mod color;
pub mod color_block;
pub mod interp;
pub mod point;
pub mod program;
pub mod stack;
pub mod textio;
