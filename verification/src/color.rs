//! Codel colors: six hues times three shades, plus white and black, and the
//! classification of raw RGB pixels into those colors.

use vstd::prelude::*;

verus! {

/// An RGB pixel, 8 bits per channel.
#[derive(Debug, Copy, Clone, PartialEq, Eq, Structural)]
pub struct Rgb8 {
    pub r: u8,
    pub g: u8,
    pub b: u8,
}

/// One of the 20 Piet codel colors, or white, or black.
#[derive(Debug, Copy, Clone, PartialEq, Eq, Structural, Hash)]
pub enum Color {
    White,
    Black,

    LightRed,
    LightYellow,
    LightGreen,
    LightCyan,
    LightBlue,
    LightMagenta,

    Red,
    Yellow,
    Green,
    Cyan,
    Blue,
    Magenta,

    DarkRed,
    DarkYellow,
    DarkGreen,
    DarkCyan,
    DarkBlue,
    DarkMagenta,
}

/// Position of a color on the cyclic hue wheel red, yellow, green, cyan,
/// blue, magenta; white and black have no hue.
pub open spec fn spec_hue_number(c: Color) -> Option<int> {
    match c {
        Color::LightRed | Color::Red | Color::DarkRed => Some(0int),
        Color::LightYellow | Color::Yellow | Color::DarkYellow => Some(1int),
        Color::LightGreen | Color::Green | Color::DarkGreen => Some(2int),
        Color::LightCyan | Color::Cyan | Color::DarkCyan => Some(3int),
        Color::LightBlue | Color::Blue | Color::DarkBlue => Some(4int),
        Color::LightMagenta | Color::Magenta | Color::DarkMagenta => Some(5int),
        Color::White | Color::Black => None,
    }
}

/// Shade of a color: 0 = light, 1 = normal, 2 = dark; white and black have
/// no shade.
pub open spec fn spec_lightness_number(c: Color) -> Option<int> {
    match c {
        Color::LightRed | Color::LightYellow | Color::LightGreen
            | Color::LightCyan | Color::LightBlue | Color::LightMagenta => Some(0int),
        Color::Red | Color::Yellow | Color::Green
            | Color::Cyan | Color::Blue | Color::Magenta => Some(1int),
        Color::DarkRed | Color::DarkYellow | Color::DarkGreen
            | Color::DarkCyan | Color::DarkBlue | Color::DarkMagenta => Some(2int),
        Color::White | Color::Black => None,
    }
}

/// A color takes part in instructions exactly when it carries a hue.
pub open spec fn is_hue_bearing(c: Color) -> bool {
    spec_hue_number(c) is Some
}

/// Cyclic hue distance from `a` to `b`, defined only when both carry a hue.
pub open spec fn spec_hue_shift(a: Color, b: Color) -> Option<int> {
    match (spec_hue_number(a), spec_hue_number(b)) {
        (Some(ha), Some(hb)) => Some((hb - ha) % 6),
        _ => None,
    }
}

/// Cyclic lightness distance from `a` to `b`, defined only when both carry a
/// hue.
pub open spec fn spec_lightness_shift(a: Color, b: Color) -> Option<int> {
    match (spec_lightness_number(a), spec_lightness_number(b)) {
        (Some(la), Some(lb)) => Some((lb - la) % 3),
        _ => None,
    }
}

/// The canonical RGB value of each color.
pub open spec fn spec_rgb_of(c: Color) -> Rgb8 {
    match c {
        Color::LightRed => (Rgb8 { r: 0xFF, g: 0xC0, b: 0xC0 }),
        Color::LightYellow => (Rgb8 { r: 0xFF, g: 0xFF, b: 0xC0 }),
        Color::LightGreen => (Rgb8 { r: 0xC0, g: 0xFF, b: 0xC0 }),
        Color::LightCyan => (Rgb8 { r: 0xC0, g: 0xFF, b: 0xFF }),
        Color::LightBlue => (Rgb8 { r: 0xC0, g: 0xC0, b: 0xFF }),
        Color::LightMagenta => (Rgb8 { r: 0xFF, g: 0xC0, b: 0xFF }),
        Color::Red => (Rgb8 { r: 0xFF, g: 0x00, b: 0x00 }),
        Color::Yellow => (Rgb8 { r: 0xFF, g: 0xFF, b: 0x00 }),
        Color::Green => (Rgb8 { r: 0x00, g: 0xFF, b: 0x00 }),
        Color::Cyan => (Rgb8 { r: 0x00, g: 0xFF, b: 0xFF }),
        Color::Blue => (Rgb8 { r: 0x00, g: 0x00, b: 0xFF }),
        Color::Magenta => (Rgb8 { r: 0xFF, g: 0x00, b: 0xFF }),
        Color::DarkRed => (Rgb8 { r: 0xC0, g: 0x00, b: 0x00 }),
        Color::DarkYellow => (Rgb8 { r: 0xC0, g: 0xC0, b: 0x00 }),
        Color::DarkGreen => (Rgb8 { r: 0x00, g: 0xC0, b: 0x00 }),
        Color::DarkCyan => (Rgb8 { r: 0x00, g: 0xC0, b: 0xC0 }),
        Color::DarkBlue => (Rgb8 { r: 0x00, g: 0x00, b: 0xC0 }),
        Color::DarkMagenta => (Rgb8 { r: 0xC0, g: 0x00, b: 0xC0 }),
        Color::White => (Rgb8 { r: 0xFF, g: 0xFF, b: 0xFF }),
        Color::Black => (Rgb8 { r: 0x00, g: 0x00, b: 0x00 }),
    }
}

/// Classification of an arbitrary pixel: the 20 canonical values map to
/// their color; every other value maps to white, or to black when the host
/// asked for that.
pub open spec fn spec_classify(p: Rgb8, missing_black: bool) -> Color {
    if p == spec_rgb_of(Color::LightRed) { Color::LightRed }
    else if p == spec_rgb_of(Color::LightYellow) { Color::LightYellow }
    else if p == spec_rgb_of(Color::LightGreen) { Color::LightGreen }
    else if p == spec_rgb_of(Color::LightCyan) { Color::LightCyan }
    else if p == spec_rgb_of(Color::LightBlue) { Color::LightBlue }
    else if p == spec_rgb_of(Color::LightMagenta) { Color::LightMagenta }
    else if p == spec_rgb_of(Color::Red) { Color::Red }
    else if p == spec_rgb_of(Color::Yellow) { Color::Yellow }
    else if p == spec_rgb_of(Color::Green) { Color::Green }
    else if p == spec_rgb_of(Color::Cyan) { Color::Cyan }
    else if p == spec_rgb_of(Color::Blue) { Color::Blue }
    else if p == spec_rgb_of(Color::Magenta) { Color::Magenta }
    else if p == spec_rgb_of(Color::DarkRed) { Color::DarkRed }
    else if p == spec_rgb_of(Color::DarkYellow) { Color::DarkYellow }
    else if p == spec_rgb_of(Color::DarkGreen) { Color::DarkGreen }
    else if p == spec_rgb_of(Color::DarkCyan) { Color::DarkCyan }
    else if p == spec_rgb_of(Color::DarkBlue) { Color::DarkBlue }
    else if p == spec_rgb_of(Color::DarkMagenta) { Color::DarkMagenta }
    else if p == spec_rgb_of(Color::White) { Color::White }
    else if p == spec_rgb_of(Color::Black) { Color::Black }
    else if missing_black { Color::Black }
    else { Color::White }
}

impl Color {
    /// The canonical RGB value of this color.
    pub fn to_rgb8(self) -> (r: Rgb8)
        ensures
            r == spec_rgb_of(self),
    {
        match self {
            Color::LightRed => Rgb8 { r: 0xFF, g: 0xC0, b: 0xC0 },
            Color::LightYellow => Rgb8 { r: 0xFF, g: 0xFF, b: 0xC0 },
            Color::LightGreen => Rgb8 { r: 0xC0, g: 0xFF, b: 0xC0 },
            Color::LightCyan => Rgb8 { r: 0xC0, g: 0xFF, b: 0xFF },
            Color::LightBlue => Rgb8 { r: 0xC0, g: 0xC0, b: 0xFF },
            Color::LightMagenta => Rgb8 { r: 0xFF, g: 0xC0, b: 0xFF },
            Color::Red => Rgb8 { r: 0xFF, g: 0x00, b: 0x00 },
            Color::Yellow => Rgb8 { r: 0xFF, g: 0xFF, b: 0x00 },
            Color::Green => Rgb8 { r: 0x00, g: 0xFF, b: 0x00 },
            Color::Cyan => Rgb8 { r: 0x00, g: 0xFF, b: 0xFF },
            Color::Blue => Rgb8 { r: 0x00, g: 0x00, b: 0xFF },
            Color::Magenta => Rgb8 { r: 0xFF, g: 0x00, b: 0xFF },
            Color::DarkRed => Rgb8 { r: 0xC0, g: 0x00, b: 0x00 },
            Color::DarkYellow => Rgb8 { r: 0xC0, g: 0xC0, b: 0x00 },
            Color::DarkGreen => Rgb8 { r: 0x00, g: 0xC0, b: 0x00 },
            Color::DarkCyan => Rgb8 { r: 0x00, g: 0xC0, b: 0xC0 },
            Color::DarkBlue => Rgb8 { r: 0x00, g: 0x00, b: 0xC0 },
            Color::DarkMagenta => Rgb8 { r: 0xC0, g: 0x00, b: 0xC0 },
            Color::White => Rgb8 { r: 0xFF, g: 0xFF, b: 0xFF },
            Color::Black => Rgb8 { r: 0x00, g: 0x00, b: 0x00 },
        }
    }

    /// Classify one pixel against the canonical palette.
    pub fn from_rgb8(p: Rgb8, missing_black: bool) -> (c: Color)
        ensures
            c == spec_classify(p, missing_black),
    {
        match (p.r, p.g, p.b) {
            (0xFF, 0xC0, 0xC0) => Color::LightRed,
            (0xFF, 0xFF, 0xC0) => Color::LightYellow,
            (0xC0, 0xFF, 0xC0) => Color::LightGreen,
            (0xC0, 0xFF, 0xFF) => Color::LightCyan,
            (0xC0, 0xC0, 0xFF) => Color::LightBlue,
            (0xFF, 0xC0, 0xFF) => Color::LightMagenta,
            (0xFF, 0x00, 0x00) => Color::Red,
            (0xFF, 0xFF, 0x00) => Color::Yellow,
            (0x00, 0xFF, 0x00) => Color::Green,
            (0x00, 0xFF, 0xFF) => Color::Cyan,
            (0x00, 0x00, 0xFF) => Color::Blue,
            (0xFF, 0x00, 0xFF) => Color::Magenta,
            (0xC0, 0x00, 0x00) => Color::DarkRed,
            (0xC0, 0xC0, 0x00) => Color::DarkYellow,
            (0x00, 0xC0, 0x00) => Color::DarkGreen,
            (0x00, 0xC0, 0xC0) => Color::DarkCyan,
            (0x00, 0x00, 0xC0) => Color::DarkBlue,
            (0xC0, 0x00, 0xC0) => Color::DarkMagenta,
            (0xFF, 0xFF, 0xFF) => Color::White,
            (0x00, 0x00, 0x00) => Color::Black,
            _ => {
                if missing_black {
                    Color::Black
                } else {
                    Color::White
                }
            },
        }
    }

    /// Hue wheel position, when this color carries a hue.
    pub fn hue_number(&self) -> (r: Option<i32>)
        ensures
            match r {
                Some(n) => spec_hue_number(*self) == Some(n as int),
                None => spec_hue_number(*self) is None,
            },
    {
        match *self {
            Color::LightRed | Color::Red | Color::DarkRed => Some(0),
            Color::LightYellow | Color::Yellow | Color::DarkYellow => Some(1),
            Color::LightGreen | Color::Green | Color::DarkGreen => Some(2),
            Color::LightCyan | Color::Cyan | Color::DarkCyan => Some(3),
            Color::LightBlue | Color::Blue | Color::DarkBlue => Some(4),
            Color::LightMagenta | Color::Magenta | Color::DarkMagenta => Some(5),
            Color::White | Color::Black => None,
        }
    }

    /// Shade index, when this color carries a hue.
    pub fn lightness_number(&self) -> (r: Option<i32>)
        ensures
            match r {
                Some(n) => spec_lightness_number(*self) == Some(n as int),
                None => spec_lightness_number(*self) is None,
            },
    {
        match *self {
            Color::LightRed | Color::LightYellow | Color::LightGreen
                | Color::LightCyan | Color::LightBlue | Color::LightMagenta => Some(0),
            Color::Red | Color::Yellow | Color::Green
                | Color::Cyan | Color::Blue | Color::Magenta => Some(1),
            Color::DarkRed | Color::DarkYellow | Color::DarkGreen
                | Color::DarkCyan | Color::DarkBlue | Color::DarkMagenta => Some(2),
            Color::White | Color::Black => None,
        }
    }

    /// Cyclic hue distance from `self` to `other`; `None` when either side
    /// is white or black.
    pub fn hue_change(&self, other: &Self) -> (r: Option<u32>)
        ensures
            match r {
                Some(n) => spec_hue_shift(*self, *other) == Some(n as int),
                None => spec_hue_shift(*self, *other) is None,
            },
    {
        let n1 = match self.hue_number() {
            Some(n) => n,
            None => { return None; },
        };
        let n2 = match other.hue_number() {
            Some(n) => n,
            None => { return None; },
        };
        let d = if n2 >= n1 { n2 - n1 } else { n2 + 6 - n1 };
        assert(d as int == (spec_hue_number(*other).unwrap() - spec_hue_number(*self).unwrap()) % 6);
        Some(d as u32)
    }

    /// Cyclic lightness distance from `self` to `other`; `None` when either
    /// side is white or black.
    pub fn lightness_change(&self, other: &Self) -> (r: Option<u32>)
        ensures
            match r {
                Some(n) => spec_lightness_shift(*self, *other) == Some(n as int),
                None => spec_lightness_shift(*self, *other) is None,
            },
    {
        let n1 = match self.lightness_number() {
            Some(n) => n,
            None => { return None; },
        };
        let n2 = match other.lightness_number() {
            Some(n) => n,
            None => { return None; },
        };
        let d = if n2 >= n1 { n2 - n1 } else { n2 + 3 - n1 };
        assert(d as int == (spec_lightness_number(*other).unwrap() - spec_lightness_number(*self).unwrap()) % 3);
        Some(d as u32)
    }
}

/// A stable numbering of all 22 colors, used to tally votes.
pub open spec fn color_index(c: Color) -> int {
    match c {
        Color::White => 0,
        Color::Black => 1,
        Color::LightRed => 2,
        Color::LightYellow => 3,
        Color::LightGreen => 4,
        Color::LightCyan => 5,
        Color::LightBlue => 6,
        Color::LightMagenta => 7,
        Color::Red => 8,
        Color::Yellow => 9,
        Color::Green => 10,
        Color::Cyan => 11,
        Color::Blue => 12,
        Color::Magenta => 13,
        Color::DarkRed => 14,
        Color::DarkYellow => 15,
        Color::DarkGreen => 16,
        Color::DarkCyan => 17,
        Color::DarkBlue => 18,
        Color::DarkMagenta => 19,
    }
}

/// The color numbered `k`; inverse of `color_index`.
pub open spec fn color_of_index(k: int) -> Color {
    if k == 0 { Color::White }
    else if k == 1 { Color::Black }
    else if k == 2 { Color::LightRed }
    else if k == 3 { Color::LightYellow }
    else if k == 4 { Color::LightGreen }
    else if k == 5 { Color::LightCyan }
    else if k == 6 { Color::LightBlue }
    else if k == 7 { Color::LightMagenta }
    else if k == 8 { Color::Red }
    else if k == 9 { Color::Yellow }
    else if k == 10 { Color::Green }
    else if k == 11 { Color::Cyan }
    else if k == 12 { Color::Blue }
    else if k == 13 { Color::Magenta }
    else if k == 14 { Color::DarkRed }
    else if k == 15 { Color::DarkYellow }
    else if k == 16 { Color::DarkGreen }
    else if k == 17 { Color::DarkCyan }
    else if k == 18 { Color::DarkBlue }
    else { Color::DarkMagenta }
}

/// Every color sits at its own index.
pub proof fn lemma_color_index_round_trip(c: Color)
    ensures
        0 <= color_index(c) < 20,
        color_of_index(color_index(c)) == c,
{
}

/// Exec counterpart of `color_index`.
pub fn color_index_x(c: Color) -> (k: usize)
    ensures
        k as int == color_index(c),
        k < 20,
{
    match c {
        Color::White => 0,
        Color::Black => 1,
        Color::LightRed => 2,
        Color::LightYellow => 3,
        Color::LightGreen => 4,
        Color::LightCyan => 5,
        Color::LightBlue => 6,
        Color::LightMagenta => 7,
        Color::Red => 8,
        Color::Yellow => 9,
        Color::Green => 10,
        Color::Cyan => 11,
        Color::Blue => 12,
        Color::Magenta => 13,
        Color::DarkRed => 14,
        Color::DarkYellow => 15,
        Color::DarkGreen => 16,
        Color::DarkCyan => 17,
        Color::DarkBlue => 18,
        Color::DarkMagenta => 19,
    }
}

/// Exec counterpart of `color_of_index`.
pub fn color_of_index_x(k: usize) -> (c: Color)
    requires
        k < 20,
    ensures
        c == color_of_index(k as int),
{
    if k == 0 { Color::White }
    else if k == 1 { Color::Black }
    else if k == 2 { Color::LightRed }
    else if k == 3 { Color::LightYellow }
    else if k == 4 { Color::LightGreen }
    else if k == 5 { Color::LightCyan }
    else if k == 6 { Color::LightBlue }
    else if k == 7 { Color::LightMagenta }
    else if k == 8 { Color::Red }
    else if k == 9 { Color::Yellow }
    else if k == 10 { Color::Green }
    else if k == 11 { Color::Cyan }
    else if k == 12 { Color::Blue }
    else if k == 13 { Color::Magenta }
    else if k == 14 { Color::DarkRed }
    else if k == 15 { Color::DarkYellow }
    else if k == 16 { Color::DarkGreen }
    else if k == 17 { Color::DarkCyan }
    else if k == 18 { Color::DarkBlue }
    else { Color::DarkMagenta }
}

/// A color shifted against itself moves neither in hue nor in lightness.
pub proof fn lemma_shift_self_is_zero(c: Color)
    requires
        is_hue_bearing(c),
    ensures
        spec_hue_shift(c, c) == Some(0int),
        spec_lightness_shift(c, c) == Some(0int),
{
}

/// Both shifts are defined exactly when neither color is white or black.
pub proof fn lemma_shifts_defined_iff_hue_bearing(a: Color, b: Color)
    ensures
        spec_hue_shift(a, b) is Some <==> is_hue_bearing(a) && is_hue_bearing(b),
        spec_lightness_shift(a, b) is Some <==> is_hue_bearing(a) && is_hue_bearing(b),
        is_hue_bearing(a) <==> a != Color::White && a != Color::Black,
{
}

/// Classifying the canonical RGB value of a color gives that color back,
/// under either policy for unrecognized pixels.
pub proof fn lemma_classify_rgb_round_trip(c: Color, missing_black: bool)
    ensures
        spec_classify(spec_rgb_of(c), missing_black) == c,
{
}

/// Every codel of a rasterized codel grid classifies back to the codel it
/// was rendered from.
pub proof fn lemma_reclassify_rasterized(s: Seq<Color>, missing_black: bool)
    ensures
        forall|i: int| 0 <= i < s.len()
            ==> spec_classify(spec_rgb_of(#[trigger] s[i]), missing_black) == s[i],
{
    assert forall|i: int| 0 <= i < s.len()
        implies spec_classify(spec_rgb_of(#[trigger] s[i]), missing_black) == s[i] by {
        lemma_classify_rgb_round_trip(s[i], missing_black);
    }
}

} // verus!
