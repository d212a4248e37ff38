//! Per-cell post-processing applied to the draws of an object before they
//! reach the cell buffer: mirroring, patterns, case changes and colour
//! filters.
use crate::cell::{
    ascii_lower, ascii_upper, spec_ascii_lower, spec_ascii_upper, BasicDraw, Color, TerminalChar,
};
use crate::geometry::Point;
use vstd::prelude::*;

verus! {

/// Mirrors a draw horizontally within its frame.
#[derive(Debug, Clone, Copy)]
pub struct FlipHorizontal;

/// Mirrors a draw vertically within its frame.
#[derive(Debug, Clone, Copy)]
pub struct FlipVertical;

/// Swaps the coordinates of a draw when the swapped position stays in the
/// frame.
#[derive(Debug, Clone, Copy)]
pub struct FlipDiagonal;

/// Black / white background checkerboard.
#[derive(Debug, Clone, Copy)]
pub struct Checkerboard;

/// Grey background on even rows.
#[derive(Debug, Clone, Copy)]
pub struct StripesHorizontal;

/// Grey background on even columns.
#[derive(Debug, Clone, Copy)]
pub struct StripesVertical;

/// ASCII upper case.
#[derive(Debug, Clone, Copy)]
pub struct ToUpperCase;

/// ASCII lower case.
#[derive(Debug, Clone, Copy)]
pub struct ToLowerCase;

/// Adds the amount to every colour channel (saturating).
#[derive(Debug, Clone, Copy)]
pub struct Brighten(pub u8);

/// Subtracts the amount from every colour channel (saturating).
#[derive(Debug, Clone, Copy)]
pub struct Darken(pub u8);

/// Replaces every channel `c` by `255 - c`.
#[derive(Debug, Clone, Copy)]
pub struct InvertColors;

/// Replaces every channel by the (rounded-down) mean of the three.
#[derive(Debug, Clone, Copy)]
pub struct Grayscale;

/// Swaps foreground and background colour.
#[derive(Debug, Clone, Copy)]
pub struct SwapColors;

/// A mirror along one axis of length `len` can map coordinate `coord`:
/// the frame is non-empty and fits `i32`, and the coordinate is not
/// negative.
pub open spec fn flip_applicable(len: usize, coord: i32) -> bool {
    0 < len <= i32::MAX && coord >= 0
}

/// The mirrored coordinate `(len - 1) - coord % len`.
pub open spec fn spec_flip(len: usize, coord: i32) -> i32 {
    ((len as int - 1) - (coord as int % len as int)) as i32
}

fn flip_coord(len: usize, coord: i32) -> (r: i32)
    requires
        flip_applicable(len, coord),
    ensures
        r == spec_flip(len, coord),
        0 <= r < len,
{
    let l: i32 = len as i32;
    let rel: i32 = coord % l;
    (l - 1) - rel
}

/// Applies `f` to a colour that is present.
pub open spec fn map_color(c: Option<Color>, f: spec_fn(Color) -> Color) -> Option<Color> {
    match c {
        Some(x) => Some(f(x)),
        None => None,
    }
}

pub open spec fn sat_add_u8(a: u8, b: u8) -> u8 {
    if a + b > 255 {
        255
    } else {
        (a + b) as u8
    }
}

pub open spec fn sat_sub_u8(a: u8, b: u8) -> u8 {
    if a < b {
        0
    } else {
        (a - b) as u8
    }
}

pub open spec fn spec_brighten_color(c: Color, amount: u8) -> Color {
    Color { reset: false, r: sat_add_u8(c.r, amount), g: sat_add_u8(c.g, amount), b: sat_add_u8(c.b, amount) }
}

pub open spec fn spec_darken_color(c: Color, amount: u8) -> Color {
    Color { reset: false, r: sat_sub_u8(c.r, amount), g: sat_sub_u8(c.g, amount), b: sat_sub_u8(c.b, amount) }
}

pub open spec fn spec_invert_color(c: Color) -> Color {
    Color { reset: false, r: (255 - c.r) as u8, g: (255 - c.g) as u8, b: (255 - c.b) as u8 }
}

pub open spec fn spec_gray_color(c: Color) -> Color {
    let avg = ((c.r + c.g + c.b) / 3) as u8;
    Color { reset: false, r: avg, g: avg, b: avg }
}

fn brighten_color(c: Color, amount: u8) -> (r: Color)
    ensures
        r == spec_brighten_color(c, amount),
{
    Color::rgb(c.r.saturating_add(amount), c.g.saturating_add(amount), c.b.saturating_add(amount))
}

fn darken_color(c: Color, amount: u8) -> (r: Color)
    ensures
        r == spec_darken_color(c, amount),
{
    Color::rgb(c.r.saturating_sub(amount), c.g.saturating_sub(amount), c.b.saturating_sub(amount))
}

fn invert_color(c: Color) -> (r: Color)
    ensures
        r == spec_invert_color(c),
{
    Color::rgb(255 - c.r, 255 - c.g, 255 - c.b)
}

fn gray_color(c: Color) -> (r: Color)
    ensures
        r == spec_gray_color(c),
{
    let sum: u16 = c.r as u16 + c.g as u16 + c.b as u16;
    let avg: u8 = (sum / 3) as u8;
    Color::rgb(avg, avg, avg)
}

impl FlipHorizontal {
    pub open spec fn spec_apply(draw: BasicDraw, frame_size: (usize, usize)) -> BasicDraw {
        BasicDraw { pos: Point { x: spec_flip(frame_size.0, draw.pos.x), y: draw.pos.y }, chr: draw.chr }
    }

    /// `x` becomes `(width - 1) - x % width`.
    pub fn apply(&self, draw: &mut BasicDraw, frame_size: (usize, usize))
        requires
            flip_applicable(frame_size.0, old(draw).pos.x),
        ensures
            *final(draw) == Self::spec_apply(*old(draw), frame_size),
    {
        draw.pos.x = flip_coord(frame_size.0, draw.pos.x);
    }
}

impl FlipVertical {
    pub open spec fn spec_apply(draw: BasicDraw, frame_size: (usize, usize)) -> BasicDraw {
        BasicDraw { pos: Point { x: draw.pos.x, y: spec_flip(frame_size.1, draw.pos.y) }, chr: draw.chr }
    }

    /// `y` becomes `(height - 1) - y % height`.
    pub fn apply(&self, draw: &mut BasicDraw, frame_size: (usize, usize))
        requires
            flip_applicable(frame_size.1, old(draw).pos.y),
        ensures
            *final(draw) == Self::spec_apply(*old(draw), frame_size),
    {
        draw.pos.y = flip_coord(frame_size.1, draw.pos.y);
    }
}

impl FlipDiagonal {
    pub open spec fn spec_apply(draw: BasicDraw, frame_size: (usize, usize)) -> BasicDraw {
        if draw.pos.y < frame_size.0 as i32 && draw.pos.x < frame_size.1 as i32 {
            BasicDraw { pos: Point { x: draw.pos.y, y: draw.pos.x }, chr: draw.chr }
        } else {
            draw
        }
    }

    /// Swaps `x` and `y` when the swapped point lies inside the frame.
    pub fn apply(&self, draw: &mut BasicDraw, frame_size: (usize, usize))
        ensures
            *final(draw) == Self::spec_apply(*old(draw), frame_size),
    {
        let new_x = draw.pos.y;
        let new_y = draw.pos.x;
        let w: i32 = frame_size.0 as i32;
        let h: i32 = frame_size.1 as i32;
        if new_x < w && new_y < h {
            draw.pos.x = new_x;
            draw.pos.y = new_y;
        }
    }
}

/// `x + y` does not overflow `i32`.
pub open spec fn checker_applicable(draw: BasicDraw) -> bool {
    i32::MIN <= draw.pos.x + draw.pos.y <= i32::MAX
}

impl Checkerboard {
    pub open spec fn spec_apply(draw: BasicDraw) -> BasicDraw {
        let bg = if (draw.pos.x + draw.pos.y) % 2 == 0 {
            Color { reset: false, r: 0, g: 0, b: 0 }
        } else {
            Color { reset: false, r: 255, g: 255, b: 255 }
        };
        BasicDraw { pos: draw.pos, chr: TerminalChar { bg_color: Some(bg), ..draw.chr } }
    }

    /// Black background where `x + y` is even, white where it is odd.
    pub fn apply(&self, draw: &mut BasicDraw, _frame_size: (usize, usize))
        requires
            checker_applicable(*old(draw)),
        ensures
            *final(draw) == Self::spec_apply(*old(draw)),
    {
        let s: i32 = draw.pos.x + draw.pos.y;
        if s % 2 == 0 {
            draw.chr.bg_color = Some(Color::rgb(0, 0, 0));
        } else {
            draw.chr.bg_color = Some(Color::rgb(255, 255, 255));
        }
    }
}

impl StripesHorizontal {
    pub open spec fn spec_apply(draw: BasicDraw) -> BasicDraw {
        if draw.pos.y % 2 == 0 {
            BasicDraw {
                pos: draw.pos,
                chr: TerminalChar { bg_color: Some(Color { reset: false, r: 100, g: 100, b: 100 }), ..draw.chr },
            }
        } else {
            draw
        }
    }

    /// Grey background on even rows; odd rows are kept.
    pub fn apply(&self, draw: &mut BasicDraw, _frame_size: (usize, usize))
        ensures
            *final(draw) == Self::spec_apply(*old(draw)),
    {
        if draw.pos.y % 2 == 0 {
            draw.chr.bg_color = Some(Color::rgb(100, 100, 100));
        }
    }
}

impl StripesVertical {
    pub open spec fn spec_apply(draw: BasicDraw) -> BasicDraw {
        if draw.pos.x % 2 == 0 {
            BasicDraw {
                pos: draw.pos,
                chr: TerminalChar { bg_color: Some(Color { reset: false, r: 100, g: 100, b: 100 }), ..draw.chr },
            }
        } else {
            draw
        }
    }

    /// Grey background on even columns; odd columns are kept.
    pub fn apply(&self, draw: &mut BasicDraw, _frame_size: (usize, usize))
        ensures
            *final(draw) == Self::spec_apply(*old(draw)),
    {
        if draw.pos.x % 2 == 0 {
            draw.chr.bg_color = Some(Color::rgb(100, 100, 100));
        }
    }
}

impl ToUpperCase {
    pub open spec fn spec_apply(draw: BasicDraw) -> BasicDraw {
        BasicDraw { pos: draw.pos, chr: TerminalChar { chr: spec_ascii_upper(draw.chr.chr), ..draw.chr } }
    }

    pub fn apply(&self, draw: &mut BasicDraw, _frame_size: (usize, usize))
        ensures
            *final(draw) == Self::spec_apply(*old(draw)),
    {
        draw.chr.chr = ascii_upper(draw.chr.chr);
    }
}

impl ToLowerCase {
    pub open spec fn spec_apply(draw: BasicDraw) -> BasicDraw {
        BasicDraw { pos: draw.pos, chr: TerminalChar { chr: spec_ascii_lower(draw.chr.chr), ..draw.chr } }
    }

    pub fn apply(&self, draw: &mut BasicDraw, _frame_size: (usize, usize))
        ensures
            *final(draw) == Self::spec_apply(*old(draw)),
    {
        draw.chr.chr = ascii_lower(draw.chr.chr);
    }
}

impl Brighten {
    pub open spec fn spec_apply(amount: u8, draw: BasicDraw) -> BasicDraw {
        BasicDraw {
            pos: draw.pos,
            chr: TerminalChar {
                chr: draw.chr.chr,
                fg_color: map_color(draw.chr.fg_color, |c: Color| spec_brighten_color(c, amount)),
                bg_color: map_color(draw.chr.bg_color, |c: Color| spec_brighten_color(c, amount)),
            },
        }
    }

    /// Brightens both colours that are present; the results are RGB.
    pub fn apply(&self, draw: &mut BasicDraw, _frame_size: (usize, usize))
        ensures
            *final(draw) == Self::spec_apply(self.0, *old(draw)),
    {
        if let Some(fg) = draw.chr.fg_color {
            draw.chr.fg_color = Some(brighten_color(fg, self.0));
        }
        if let Some(bg) = draw.chr.bg_color {
            draw.chr.bg_color = Some(brighten_color(bg, self.0));
        }
    }
}

impl Darken {
    pub open spec fn spec_apply(amount: u8, draw: BasicDraw) -> BasicDraw {
        BasicDraw {
            pos: draw.pos,
            chr: TerminalChar {
                chr: draw.chr.chr,
                fg_color: map_color(draw.chr.fg_color, |c: Color| spec_darken_color(c, amount)),
                bg_color: map_color(draw.chr.bg_color, |c: Color| spec_darken_color(c, amount)),
            },
        }
    }

    /// Darkens both colours that are present; the results are RGB.
    pub fn apply(&self, draw: &mut BasicDraw, _frame_size: (usize, usize))
        ensures
            *final(draw) == Self::spec_apply(self.0, *old(draw)),
    {
        if let Some(fg) = draw.chr.fg_color {
            draw.chr.fg_color = Some(darken_color(fg, self.0));
        }
        if let Some(bg) = draw.chr.bg_color {
            draw.chr.bg_color = Some(darken_color(bg, self.0));
        }
    }
}

impl InvertColors {
    pub open spec fn spec_apply(draw: BasicDraw) -> BasicDraw {
        BasicDraw {
            pos: draw.pos,
            chr: TerminalChar {
                chr: draw.chr.chr,
                fg_color: map_color(draw.chr.fg_color, |c: Color| spec_invert_color(c)),
                bg_color: map_color(draw.chr.bg_color, |c: Color| spec_invert_color(c)),
            },
        }
    }

    pub fn apply(&self, draw: &mut BasicDraw, _frame_size: (usize, usize))
        ensures
            *final(draw) == Self::spec_apply(*old(draw)),
    {
        if let Some(fg) = draw.chr.fg_color {
            draw.chr.fg_color = Some(invert_color(fg));
        }
        if let Some(bg) = draw.chr.bg_color {
            draw.chr.bg_color = Some(invert_color(bg));
        }
    }
}

impl Grayscale {
    pub open spec fn spec_apply(draw: BasicDraw) -> BasicDraw {
        BasicDraw {
            pos: draw.pos,
            chr: TerminalChar {
                chr: draw.chr.chr,
                fg_color: map_color(draw.chr.fg_color, |c: Color| spec_gray_color(c)),
                bg_color: map_color(draw.chr.bg_color, |c: Color| spec_gray_color(c)),
            },
        }
    }

    pub fn apply(&self, draw: &mut BasicDraw, _frame_size: (usize, usize))
        ensures
            *final(draw) == Self::spec_apply(*old(draw)),
    {
        if let Some(fg) = draw.chr.fg_color {
            draw.chr.fg_color = Some(gray_color(fg));
        }
        if let Some(bg) = draw.chr.bg_color {
            draw.chr.bg_color = Some(gray_color(bg));
        }
    }
}

impl SwapColors {
    pub open spec fn spec_apply(draw: BasicDraw) -> BasicDraw {
        BasicDraw {
            pos: draw.pos,
            chr: TerminalChar { chr: draw.chr.chr, fg_color: draw.chr.bg_color, bg_color: draw.chr.fg_color },
        }
    }

    pub fn apply(&self, draw: &mut BasicDraw, _frame_size: (usize, usize))
        ensures
            *final(draw) == Self::spec_apply(*old(draw)),
    {
        let fg = draw.chr.fg_color;
        draw.chr.fg_color = draw.chr.bg_color;
        draw.chr.bg_color = fg;
    }
}

/// Any of the shaders, as attached to a draw object.
#[derive(Debug, Clone, Copy)]
pub enum Shader {
    FlipHorizontal(FlipHorizontal),
    FlipVertical(FlipVertical),
    FlipDiagonal(FlipDiagonal),
    Checkerboard(Checkerboard),
    StripesHorizontal(StripesHorizontal),
    StripesVertical(StripesVertical),
    ToUpperCase(ToUpperCase),
    ToLowerCase(ToLowerCase),
    Brighten(Brighten),
    Darken(Darken),
    InvertColors(InvertColors),
    Grayscale(Grayscale),
    SwapColors(SwapColors),
}

impl Shader {
    /// The shader can map `draw` in a frame of the given size: the
    /// mirrors need a non-empty frame and a non-negative coordinate, the
    /// checkerboard needs `x + y` to fit `i32`.
    pub open spec fn applicable(self, draw: BasicDraw, frame_size: (usize, usize)) -> bool {
        match self {
            Shader::FlipHorizontal(_) => flip_applicable(frame_size.0, draw.pos.x),
            Shader::FlipVertical(_) => flip_applicable(frame_size.1, draw.pos.y),
            Shader::Checkerboard(_) => checker_applicable(draw),
            _ => true,
        }
    }

    /// The draw after the shader.
    pub open spec fn spec_apply(self, draw: BasicDraw, frame_size: (usize, usize)) -> BasicDraw {
        match self {
            Shader::FlipHorizontal(_) => FlipHorizontal::spec_apply(draw, frame_size),
            Shader::FlipVertical(_) => FlipVertical::spec_apply(draw, frame_size),
            Shader::FlipDiagonal(_) => FlipDiagonal::spec_apply(draw, frame_size),
            Shader::Checkerboard(_) => Checkerboard::spec_apply(draw),
            Shader::StripesHorizontal(_) => StripesHorizontal::spec_apply(draw),
            Shader::StripesVertical(_) => StripesVertical::spec_apply(draw),
            Shader::ToUpperCase(_) => ToUpperCase::spec_apply(draw),
            Shader::ToLowerCase(_) => ToLowerCase::spec_apply(draw),
            Shader::Brighten(s) => Brighten::spec_apply(s.0, draw),
            Shader::Darken(s) => Darken::spec_apply(s.0, draw),
            Shader::InvertColors(_) => InvertColors::spec_apply(draw),
            Shader::Grayscale(_) => Grayscale::spec_apply(draw),
            Shader::SwapColors(_) => SwapColors::spec_apply(draw),
        }
    }

    /// Whether `applicable` holds, decided at run time.
    pub fn can_apply(&self, draw: &BasicDraw, frame_size: (usize, usize)) -> (b: bool)
        ensures
            b == self.applicable(*draw, frame_size),
    {
        match self {
            Shader::FlipHorizontal(_) => frame_size.0 > 0 && frame_size.0 <= 2147483647usize
                && draw.pos.x >= 0,
            Shader::FlipVertical(_) => frame_size.1 > 0 && frame_size.1 <= 2147483647usize
                && draw.pos.y >= 0,
            Shader::Checkerboard(_) => {
                let s: i64 = draw.pos.x as i64 + draw.pos.y as i64;
                -2147483648i64 <= s && s <= 2147483647i64
            },
            _ => true,
        }
    }

    pub fn apply(&self, draw: &mut BasicDraw, frame_size: (usize, usize))
        requires
            self.applicable(*old(draw), frame_size),
        ensures
            *final(draw) == self.spec_apply(*old(draw), frame_size),
    {
        match self {
            Shader::FlipHorizontal(s) => s.apply(draw, frame_size),
            Shader::FlipVertical(s) => s.apply(draw, frame_size),
            Shader::FlipDiagonal(s) => s.apply(draw, frame_size),
            Shader::Checkerboard(s) => s.apply(draw, frame_size),
            Shader::StripesHorizontal(s) => s.apply(draw, frame_size),
            Shader::StripesVertical(s) => s.apply(draw, frame_size),
            Shader::ToUpperCase(s) => s.apply(draw, frame_size),
            Shader::ToLowerCase(s) => s.apply(draw, frame_size),
            Shader::Brighten(s) => s.apply(draw, frame_size),
            Shader::Darken(s) => s.apply(draw, frame_size),
            Shader::InvertColors(s) => s.apply(draw, frame_size),
            Shader::Grayscale(s) => s.apply(draw, frame_size),
            Shader::SwapColors(s) => s.apply(draw, frame_size),
        }
    }
}

/// Horizontal stripes grey the background of every even row and leave
/// odd rows as they are; vertical stripes do the same by column. Neither
/// moves a draw or changes its character or foreground.
pub proof fn stripes_by_row_and_column(d: BasicDraw)
    ensures
        d.pos.y % 2 == 0 ==> StripesHorizontal::spec_apply(d).chr.bg_color == Some(Color { reset: false, r: 100, g: 100, b: 100 }),
        d.pos.y % 2 != 0 ==> StripesHorizontal::spec_apply(d) == d,
        d.pos.x % 2 == 0 ==> StripesVertical::spec_apply(d).chr.bg_color == Some(Color { reset: false, r: 100, g: 100, b: 100 }),
        d.pos.x % 2 != 0 ==> StripesVertical::spec_apply(d) == d,
        StripesHorizontal::spec_apply(d).pos == d.pos && StripesHorizontal::spec_apply(d).chr.chr == d.chr.chr
            && StripesHorizontal::spec_apply(d).chr.fg_color == d.chr.fg_color,
        StripesVertical::spec_apply(d).pos == d.pos && StripesVertical::spec_apply(d).chr.chr == d.chr.chr
            && StripesVertical::spec_apply(d).chr.fg_color == d.chr.fg_color,
{
}

/// Inside the frame, mirroring sends column `x` to `width - 1 - x` (and
/// row `y` to `height - 1 - y`), keeping the other coordinate and the
/// character: the first and last columns trade places.
pub proof fn flips_mirror_inside_the_frame(d: BasicDraw, frame_size: (usize, usize))
    requires
        frame_size.0 <= i32::MAX,
        frame_size.1 <= i32::MAX,
    ensures
        0 <= d.pos.x < frame_size.0 ==> FlipHorizontal::spec_apply(d, frame_size).pos.x == frame_size.0 - 1 - d.pos.x
            && FlipHorizontal::spec_apply(d, frame_size).pos.y == d.pos.y && FlipHorizontal::spec_apply(d, frame_size).chr == d.chr,
        0 <= d.pos.y < frame_size.1 ==> FlipVertical::spec_apply(d, frame_size).pos.y == frame_size.1 - 1 - d.pos.y
            && FlipVertical::spec_apply(d, frame_size).pos.x == d.pos.x && FlipVertical::spec_apply(d, frame_size).chr == d.chr,
{
    if 0 <= d.pos.x < frame_size.0 {
        vstd::arithmetic::div_mod::lemma_small_mod(d.pos.x as nat, frame_size.0 as nat);
    }
    if 0 <= d.pos.y < frame_size.1 {
        vstd::arithmetic::div_mod::lemma_small_mod(d.pos.y as nat, frame_size.1 as nat);
    }
}

/// Swapping colours puts the background colour in front and the
/// foreground colour behind, keeping position and character.
pub proof fn swap_colors_exchanges(d: BasicDraw)
    ensures
        SwapColors::spec_apply(d).chr.fg_color == d.chr.bg_color,
        SwapColors::spec_apply(d).chr.bg_color == d.chr.fg_color,
        SwapColors::spec_apply(d).chr.chr == d.chr.chr,
        SwapColors::spec_apply(d).pos == d.pos,
{
}

/// The colour filters, channel by channel: brightening adds the amount
/// (at most 255), darkening takes it away (at least 0), inverting gives
/// the channel's complement to 255, and greying gives three equal
/// channels, the mean of the old ones rounded down (so between the
/// smallest and the largest of them). All give RGB colours.
pub proof fn color_filters_per_channel(c: Color, amount: u8)
    ensures
        spec_brighten_color(c, amount).r == (if c.r + amount > 255 { 255 } else { c.r + amount }),
        spec_brighten_color(c, amount).g == (if c.g + amount > 255 { 255 } else { c.g + amount }),
        spec_brighten_color(c, amount).b == (if c.b + amount > 255 { 255 } else { c.b + amount }),
        spec_darken_color(c, amount).r == (if c.r < amount { 0 } else { c.r - amount }),
        spec_darken_color(c, amount).g == (if c.g < amount { 0 } else { c.g - amount }),
        spec_darken_color(c, amount).b == (if c.b < amount { 0 } else { c.b - amount }),
        spec_invert_color(c).r + c.r == 255 && spec_invert_color(c).g + c.g == 255 && spec_invert_color(c).b + c.b == 255,
        spec_gray_color(c).r == spec_gray_color(c).g && spec_gray_color(c).g == spec_gray_color(c).b,
        3 * spec_gray_color(c).r <= c.r + c.g + c.b < 3 * spec_gray_color(c).r + 3,
        spec_gray_color(c).r >= (if c.r <= c.g && c.r <= c.b { c.r } else if c.g <= c.b { c.g } else { c.b }),
        spec_gray_color(c).r <= (if c.r >= c.g && c.r >= c.b { c.r } else if c.g >= c.b { c.g } else { c.b }),
        !spec_brighten_color(c, amount).reset && !spec_darken_color(c, amount).reset && !spec_invert_color(c).reset
            && !spec_gray_color(c).reset,
{
}

/// Case changes: an ASCII lower-case letter becomes the upper-case one
/// (32 code points lower) and back; every other character is kept.
pub proof fn case_changes_letters_only(c: char)
    ensures
        'a' <= c <= 'z' ==> spec_ascii_upper(c) as u32 + 32 == c as u32,
        !('a' <= c <= 'z') ==> spec_ascii_upper(c) == c,
        'A' <= c <= 'Z' ==> spec_ascii_lower(c) as u32 == c as u32 + 32,
        !('A' <= c <= 'Z') ==> spec_ascii_lower(c) == c,
{
}

/// The checkerboard gives a black background exactly where `x + y` is
/// even and a white one elsewhere, keeping position and character; so
/// two cells side by side in a row, or one above the other, get
/// different backgrounds.
pub proof fn checkerboard_alternates(d: BasicDraw, e: BasicDraw)
    ensures
        ((d.pos.x + d.pos.y) % 2 == 0) ==> Checkerboard::spec_apply(d).chr.bg_color == Some(
            Color { reset: false, r: 0, g: 0, b: 0 },
        ),
        ((d.pos.x + d.pos.y) % 2 != 0) ==> Checkerboard::spec_apply(d).chr.bg_color == Some(
            Color { reset: false, r: 255, g: 255, b: 255 },
        ),
        Checkerboard::spec_apply(d).pos == d.pos,
        Checkerboard::spec_apply(d).chr.chr == d.chr.chr,
        Checkerboard::spec_apply(d).chr.fg_color == d.chr.fg_color,
        ((e.pos.x == d.pos.x + 1 && e.pos.y == d.pos.y) || (e.pos.y == d.pos.y + 1 && e.pos.x == d.pos.x))
            ==> Checkerboard::spec_apply(d).chr.bg_color != Checkerboard::spec_apply(e).chr.bg_color,
{
}

/// Both colours of the draw, where present, are RGB colours (not a reset).
pub open spec fn colors_are_rgb(draw: BasicDraw) -> bool {
    (draw.chr.fg_color matches Some(c) ==> !c.reset) && (draw.chr.bg_color matches Some(c) ==> !c.reset)
}

/// Swapping the colours twice gives back the draw.
pub proof fn swap_colors_twice(draw: BasicDraw)
    ensures
        SwapColors::spec_apply(SwapColors::spec_apply(draw)) == draw,
{
}

/// Inverting the colours twice gives back a draw whose colours are RGB.
pub proof fn invert_colors_twice(draw: BasicDraw)
    requires
        colors_are_rgb(draw),
    ensures
        InvertColors::spec_apply(InvertColors::spec_apply(draw)) == draw,
{
}

/// Mirroring horizontally twice gives back a draw that lies inside the
/// frame; the first mirror keeps it inside.
pub proof fn flip_horizontal_twice(draw: BasicDraw, frame_size: (usize, usize))
    requires
        flip_applicable(frame_size.0, draw.pos.x),
        draw.pos.x < frame_size.0,
    ensures
        flip_applicable(frame_size.0, FlipHorizontal::spec_apply(draw, frame_size).pos.x),
        FlipHorizontal::spec_apply(FlipHorizontal::spec_apply(draw, frame_size), frame_size) == draw,
{
    assert(draw.pos.x as int % frame_size.0 as int == draw.pos.x as int) by {
        vstd::arithmetic::div_mod::lemma_small_mod(draw.pos.x as nat, frame_size.0 as nat);
    }
    let x1 = (frame_size.0 as int - 1) - draw.pos.x as int;
    assert(x1 % frame_size.0 as int == x1) by {
        vstd::arithmetic::div_mod::lemma_small_mod(x1 as nat, frame_size.0 as nat);
    }
}

/// Mirroring vertically twice gives back a draw that lies inside the
/// frame; the first mirror keeps it inside.
pub proof fn flip_vertical_twice(draw: BasicDraw, frame_size: (usize, usize))
    requires
        flip_applicable(frame_size.1, draw.pos.y),
        draw.pos.y < frame_size.1,
    ensures
        flip_applicable(frame_size.1, FlipVertical::spec_apply(draw, frame_size).pos.y),
        FlipVertical::spec_apply(FlipVertical::spec_apply(draw, frame_size), frame_size) == draw,
{
    assert(draw.pos.y as int % frame_size.1 as int == draw.pos.y as int) by {
        vstd::arithmetic::div_mod::lemma_small_mod(draw.pos.y as nat, frame_size.1 as nat);
    }
    let y1 = (frame_size.1 as int - 1) - draw.pos.y as int;
    assert(y1 % frame_size.1 as int == y1) by {
        vstd::arithmetic::div_mod::lemma_small_mod(y1 as nat, frame_size.1 as nat);
    }
}

/// In a square frame, the diagonal mirror applied twice gives back the
/// draw.
pub proof fn flip_diagonal_twice(draw: BasicDraw, frame_size: (usize, usize))
    requires
        frame_size.0 == frame_size.1,
    ensures
        FlipDiagonal::spec_apply(FlipDiagonal::spec_apply(draw, frame_size), frame_size) == draw,
{
}

/// Upper-casing is idempotent.
pub proof fn to_upper_idempotent(draw: BasicDraw)
    ensures
        ToUpperCase::spec_apply(ToUpperCase::spec_apply(draw)) == ToUpperCase::spec_apply(draw),
{
}

/// Lower-casing is idempotent.
pub proof fn to_lower_idempotent(draw: BasicDraw)
    ensures
        ToLowerCase::spec_apply(ToLowerCase::spec_apply(draw)) == ToLowerCase::spec_apply(draw),
{
}

/// Grey-scaling is idempotent.
pub proof fn grayscale_idempotent(draw: BasicDraw)
    ensures
        Grayscale::spec_apply(Grayscale::spec_apply(draw)) == Grayscale::spec_apply(draw),
{
}

/// Brightening or darkening by zero keeps a draw whose colours are RGB.
pub proof fn brighten_darken_zero(draw: BasicDraw)
    requires
        colors_are_rgb(draw),
    ensures
        Brighten::spec_apply(0, draw) == draw,
        Darken::spec_apply(0, draw) == draw,
{
}

/// Shaders never move a draw except the three mirrors, and mirrors never
/// change its character or colours.
pub proof fn shaders_move_only_by_mirroring(shader: Shader, draw: BasicDraw, frame_size: (usize, usize))
    ensures
        !(shader is FlipHorizontal || shader is FlipVertical || shader is FlipDiagonal) ==> shader.spec_apply(
            draw,
            frame_size,
        ).pos == draw.pos,
        (shader is FlipHorizontal || shader is FlipVertical || shader is FlipDiagonal) ==> shader.spec_apply(
            draw,
            frame_size,
        ).chr == draw.chr,
{
}

} // verus!
