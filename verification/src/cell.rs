//! Colours, coloured characters and single-cell draw instructions.
use crate::geometry::Point;
use vstd::prelude::*;

verus! {

/// A terminal colour: either a reset to the terminal default or an RGB
/// triple.
#[derive(Clone, Copy, Debug, PartialEq, Eq, Structural, Hash)]
pub struct Color {
    pub reset: bool,
    pub r: u8,
    pub g: u8,
    pub b: u8,
}

impl Color {
    /// An RGB colour.
    pub fn rgb(r: u8, g: u8, b: u8) -> (c: Color)
        ensures
            c == (Color { reset: false, r, g, b }),
    {
        Color { reset: false, r, g, b }
    }

    /// The colour that resets to the terminal default.
    pub fn reset() -> (c: Color)
        ensures
            c == (Color { reset: true, r: 0, g: 0, b: 0 }),
    {
        Color { reset: true, r: 0, g: 0, b: 0 }
    }
}

/// Equality of two optional colours.
pub fn same_color(a: Option<Color>, b: Option<Color>) -> (r: bool)
    ensures
        r == (a == b),
{
    match (a, b) {
        (None, None) => true,
        (Some(x), Some(y)) => x.reset == y.reset && x.r == y.r && x.g == y.g && x.b == y.b,
        _ => false,
    }
}

/// A character with optional foreground and background colours.
#[derive(Clone, Copy, Debug, PartialEq, Eq, Structural, Hash)]
pub struct TerminalChar {
    pub chr: char,
    pub fg_color: Option<Color>,
    pub bg_color: Option<Color>,
}

impl TerminalChar {
    /// A character in the terminal's default colours.
    pub fn from_char(chr: char) -> (t: TerminalChar)
        ensures
            t == (TerminalChar { chr, fg_color: None, bg_color: None }),
    {
        TerminalChar { chr, fg_color: None, bg_color: None }
    }

    /// The same character with this foreground colour.
    pub fn set_fg(self, fg: Color) -> (t: TerminalChar)
        ensures
            t == (TerminalChar { fg_color: Some(fg), ..self }),
    {
        TerminalChar { fg_color: Some(fg), ..self }
    }

    /// The same character with this background colour.
    pub fn set_bg(self, bg: Color) -> (t: TerminalChar)
        ensures
            t == (TerminalChar { bg_color: Some(bg), ..self }),
    {
        TerminalChar { bg_color: Some(bg), ..self }
    }

    /// A blank cell: a space in the default colours.
    pub fn blank() -> (t: TerminalChar)
        ensures
            t == (TerminalChar { chr: ' ', fg_color: None, bg_color: None }),
    {
        TerminalChar { chr: ' ', fg_color: None, bg_color: None }
    }
}

/// One character to be put at one (possibly off-screen) position.
#[derive(Clone, Copy, Debug, PartialEq, Eq, Structural)]
pub struct BasicDraw {
    pub pos: Point,
    pub chr: TerminalChar,
}

/// The ASCII upper-case form of a character; other characters are kept.
pub open spec fn spec_ascii_upper(c: char) -> char {
    if 'a' <= c <= 'z' {
        ((c as u32) - 32) as char
    } else {
        c
    }
}

/// The ASCII lower-case form of a character; other characters are kept.
pub open spec fn spec_ascii_lower(c: char) -> char {
    if 'A' <= c <= 'Z' {
        ((c as u32) + 32) as char
    } else {
        c
    }
}

pub fn ascii_upper(c: char) -> (r: char)
    ensures
        r == spec_ascii_upper(c),
{
    if 'a' <= c && c <= 'z' {
        let b: u8 = c as u8;
        let u: u8 = b - 32;
        u as char
    } else {
        c
    }
}

pub fn ascii_lower(c: char) -> (r: char)
    ensures
        r == spec_ascii_lower(c),
{
    if 'A' <= c && c <= 'Z' {
        let b: u8 = c as u8;
        let u: u8 = b + 32;
        u as char
    } else {
        c
    }
}

} // verus!
