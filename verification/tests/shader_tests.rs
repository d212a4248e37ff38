use termdraw::cell::{BasicDraw, Color, TerminalChar};
use termdraw::geometry::Point;
use termdraw::shaders::{
    Brighten, Checkerboard, Darken, FlipDiagonal, FlipHorizontal, FlipVertical, Grayscale, InvertColors, Shader,
    StripesHorizontal, StripesVertical, SwapColors, ToLowerCase, ToUpperCase,
};

fn draw_at(x: i32, y: i32, c: char) -> BasicDraw {
    BasicDraw { pos: Point { x, y }, chr: TerminalChar::from_char(c) }
}

fn colored(fg: Option<Color>, bg: Option<Color>) -> BasicDraw {
    BasicDraw { pos: Point { x: 1, y: 2 }, chr: TerminalChar { chr: 'a', fg_color: fg, bg_color: bg } }
}

#[test]
fn flip_horizontal_mirrors_x() {
    let mut d = draw_at(1, 2, 'x');
    FlipHorizontal.apply(&mut d, (5, 4));
    assert_eq!(d.pos, Point { x: 3, y: 2 });
    let mut e = draw_at(7, 0, 'x');
    FlipHorizontal.apply(&mut e, (5, 4));
    assert_eq!(e.pos, Point { x: 2, y: 0 });
}

#[test]
fn flip_vertical_mirrors_y() {
    let mut d = draw_at(1, 0, 'x');
    FlipVertical.apply(&mut d, (5, 4));
    assert_eq!(d.pos, Point { x: 1, y: 3 });
}

#[test]
fn flip_twice_gives_back_the_draw() {
    let orig = draw_at(3, 1, 'q');
    let mut d = orig;
    FlipHorizontal.apply(&mut d, (6, 6));
    FlipHorizontal.apply(&mut d, (6, 6));
    assert_eq!(d, orig);
    let mut v = orig;
    FlipVertical.apply(&mut v, (6, 6));
    FlipVertical.apply(&mut v, (6, 6));
    assert_eq!(v, orig);
}

#[test]
fn flip_diagonal_swaps_coordinates_inside_the_frame() {
    let mut d = draw_at(1, 3, 'x');
    FlipDiagonal.apply(&mut d, (4, 4));
    assert_eq!(d.pos, Point { x: 3, y: 1 });
    let mut e = draw_at(1, 3, 'x');
    FlipDiagonal.apply(&mut e, (2, 9));
    assert_eq!(e.pos, Point { x: 1, y: 3 });
}

#[test]
fn checkerboard_alternates_backgrounds() {
    let mut even = draw_at(1, 1, 'x');
    Checkerboard.apply(&mut even, (0, 0));
    assert_eq!(even.chr.bg_color, Some(Color::rgb(0, 0, 0)));
    let mut odd = draw_at(1, 2, 'x');
    Checkerboard.apply(&mut odd, (0, 0));
    assert_eq!(odd.chr.bg_color, Some(Color::rgb(255, 255, 255)));
}

#[test]
fn stripes_color_even_rows_and_columns() {
    let mut a = draw_at(3, 2, 'x');
    StripesHorizontal.apply(&mut a, (0, 0));
    assert_eq!(a.chr.bg_color, Some(Color::rgb(100, 100, 100)));
    let mut b = draw_at(3, 3, 'x');
    StripesHorizontal.apply(&mut b, (0, 0));
    assert_eq!(b.chr.bg_color, None);
    let mut c = draw_at(4, 3, 'x');
    StripesVertical.apply(&mut c, (0, 0));
    assert_eq!(c.chr.bg_color, Some(Color::rgb(100, 100, 100)));
}

#[test]
fn case_shaders_touch_ascii_letters_only() {
    let mut a = draw_at(0, 0, 'g');
    ToUpperCase.apply(&mut a, (0, 0));
    assert_eq!(a.chr.chr, 'G');
    let mut b = draw_at(0, 0, '7');
    ToUpperCase.apply(&mut b, (0, 0));
    assert_eq!(b.chr.chr, '7');
    let mut c = draw_at(0, 0, 'Q');
    ToLowerCase.apply(&mut c, (0, 0));
    assert_eq!(c.chr.chr, 'q');
}

#[test]
fn case_shaders_are_idempotent() {
    let mut a = draw_at(0, 0, 'm');
    ToUpperCase.apply(&mut a, (0, 0));
    let once = a;
    ToUpperCase.apply(&mut a, (0, 0));
    assert_eq!(a, once);
}

#[test]
fn brighten_and_darken_saturate() {
    let mut d = colored(Some(Color::rgb(250, 10, 100)), None);
    Brighten(10).apply(&mut d, (0, 0));
    assert_eq!(d.chr.fg_color, Some(Color::rgb(255, 20, 110)));
    assert_eq!(d.chr.bg_color, None);
    Darken(30).apply(&mut d, (0, 0));
    assert_eq!(d.chr.fg_color, Some(Color::rgb(225, 0, 80)));
}

#[test]
fn brighten_by_zero_on_rgb_keeps_the_draw() {
    let orig = colored(Some(Color::rgb(1, 2, 3)), Some(Color::rgb(4, 5, 6)));
    let mut d = orig;
    Brighten(0).apply(&mut d, (0, 0));
    assert_eq!(d, orig);
}

#[test]
fn invert_colors_twice_gives_back_rgb_colors() {
    let orig = colored(Some(Color::rgb(1, 200, 3)), Some(Color::rgb(40, 50, 255)));
    let mut d = orig;
    InvertColors.apply(&mut d, (0, 0));
    assert_eq!(d.chr.fg_color, Some(Color::rgb(254, 55, 252)));
    InvertColors.apply(&mut d, (0, 0));
    assert_eq!(d, orig);
}

#[test]
fn grayscale_averages_channels() {
    let mut d = colored(Some(Color::rgb(10, 20, 31)), None);
    Grayscale.apply(&mut d, (0, 0));
    assert_eq!(d.chr.fg_color, Some(Color::rgb(20, 20, 20)));
    let once = d;
    Grayscale.apply(&mut d, (0, 0));
    assert_eq!(d, once);
}

#[test]
fn swap_colors_twice_gives_back_the_draw() {
    let orig = colored(Some(Color::rgb(1, 2, 3)), None);
    let mut d = orig;
    SwapColors.apply(&mut d, (0, 0));
    assert_eq!(d.chr.fg_color, None);
    assert_eq!(d.chr.bg_color, Some(Color::rgb(1, 2, 3)));
    SwapColors.apply(&mut d, (0, 0));
    assert_eq!(d, orig);
}

#[test]
fn shader_can_apply_refuses_negative_flip_coordinates() {
    let d = draw_at(-1, 0, 'x');
    assert!(!Shader::FlipHorizontal(FlipHorizontal).can_apply(&d, (4, 4)));
    assert!(Shader::FlipVertical(FlipVertical).can_apply(&d, (4, 4)));
    assert!(!Shader::FlipVertical(FlipVertical).can_apply(&d, (4, 0)));
    assert!(Shader::SwapColors(SwapColors).can_apply(&d, (0, 0)));
}

#[test]
fn shader_enum_applies_its_variant() {
    let mut d = draw_at(0, 0, 'k');
    Shader::ToUpperCase(ToUpperCase).apply(&mut d, (0, 0));
    assert_eq!(d.chr.chr, 'K');
}
