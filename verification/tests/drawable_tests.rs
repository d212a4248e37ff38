use termdraw::basic_draw_creator::{line_walk, BasicDrawCreator};
use termdraw::cell::{BasicDraw, Color, TerminalChar};
use termdraw::drawables::{isqrt, CircleDrawable, Drawable, LineDrawable, RectDrawable};
use termdraw::errors::DrawError;
use termdraw::geometry::{Point, PointU16, PointUsize, RectUsize};
use termdraw::sprites::{
    frames_since, get_frame_idx, place_frame, sat_add_i32, select_frame, AnimationInfo, FrameIdent, SpriteEntry,
    SpriteRegistry, VideoLoopType, VideoSpeed,
};

fn pts(v: &[BasicDraw]) -> Vec<(i32, i32)> {
    v.iter().map(|d| (d.pos.x, d.pos.y)).collect()
}

fn sorted(mut v: Vec<BasicDraw>) -> Vec<((i32, i32), char)> {
    v.sort_by_key(|d| (d.pos.y, d.pos.x));
    v.iter().map(|d| ((d.pos.x, d.pos.y), d.chr.chr)).collect()
}

#[test]
fn line_drawable_walks_from_start_to_end() {
    let l = LineDrawable {
        start: PointU16 { x: 0, y: 0 },
        end: PointU16 { x: 3, y: 1 },
        chr: TerminalChar::from_char('*'),
    };
    let out = l.draw();
    assert_eq!(pts(&out), vec![(0, 0), (1, 0), (2, 1), (3, 1)]);
    assert!(out.iter().all(|d| d.chr.chr == '*'));
    assert_eq!(l.size(), (4, 2));
}

#[test]
fn line_drawable_single_point() {
    let l = LineDrawable { start: PointU16 { x: 5, y: 5 }, end: PointU16 { x: 5, y: 5 }, chr: TerminalChar::from_char('o') };
    assert_eq!(pts(&l.draw()), vec![(5, 5)]);
}

#[test]
fn rect_drawable_draws_border_and_fill() {
    let r = RectDrawable {
        rect: RectUsize { p1: PointUsize { x: 0, y: 0 }, p2: PointUsize { x: 2, y: 2 } },
        border_thickness: 1,
        border_style: TerminalChar::from_char('#'),
        fill_style: Some(TerminalChar::from_char('.')),
    };
    let out = r.draw();
    assert_eq!(out.len(), 9);
    let chars: String = out.iter().map(|d| d.chr.chr).collect();
    assert_eq!(chars, "####.####");
    assert_eq!(pts(&out)[4], (1, 1));
}

#[test]
fn rect_drawable_without_fill_draws_only_the_border() {
    let r = RectDrawable {
        rect: RectUsize { p1: PointUsize { x: 1, y: 1 }, p2: PointUsize { x: 3, y: 3 } },
        border_thickness: 1,
        border_style: TerminalChar::from_char('#'),
        fill_style: None,
    };
    assert_eq!(r.draw().len(), 8);
}

#[test]
fn circle_drawable_radius_one_is_a_plus() {
    let c = CircleDrawable {
        center: PointU16 { x: 5, y: 5 },
        radius: 1,
        border_style: TerminalChar::from_char('o'),
        fill_style: None,
    };
    assert_eq!(pts(&c.draw()), vec![(5, 4), (4, 5), (5, 5), (6, 5), (5, 6)]);
}

#[test]
fn isqrt_is_the_floor_square_root() {
    assert_eq!(isqrt(0), 0);
    assert_eq!(isqrt(10), 3);
    assert_eq!(isqrt(16), 4);
    assert_eq!(isqrt(0xFFFF_FFFF), 65535);
}

#[test]
fn creator_draw_char_replaces_existing_character() {
    let mut c = BasicDrawCreator::new();
    c.draw_char(Point::new(1, 1), TerminalChar::from_char('a'));
    c.draw_char(Point::new(1, 1), TerminalChar::from_char('b'));
    c.draw_char(Point::new(2, 1), TerminalChar::from_char('c'));
    assert_eq!(sorted(c.dump_draws()), vec![((1, 1), 'b'), ((2, 1), 'c')]);
    assert!(c.dump_draws().is_empty());
}

#[test]
fn creator_draw_line_uses_bresenham() {
    let mut c = BasicDrawCreator::new_with_capacity(8);
    c.draw_line(Point::new(0, 0), Point::new(3, 1), TerminalChar::from_char('-'));
    assert_eq!(
        sorted(c.dump_draws()),
        vec![((0, 0), '-'), ((1, 0), '-'), ((2, 1), '-'), ((3, 1), '-')]
    );
    let w = line_walk(Point::new(2, 2), Point::new(-1, 2));
    assert_eq!(w.iter().map(|p| (p.x, p.y)).collect::<Vec<_>>(), vec![(2, 2), (1, 2), (0, 2), (-1, 2)]);
}

#[test]
fn creator_draw_text_handles_newlines_and_colour() {
    let red = Color::rgb(255, 0, 0);
    let mut c = BasicDrawCreator::new();
    c.draw_text(Point::new(2, 3), "ab\ncd", Some(red));
    let out = c.dump_draws();
    assert!(out.iter().all(|d| d.chr.fg_color == Some(red) && d.chr.bg_color.is_none()));
    assert_eq!(sorted(out), vec![((2, 3), 'a'), ((3, 3), 'b'), ((2, 4), 'c'), ((3, 4), 'd')]);
}

#[test]
fn string_to_basic_draws_lays_out_text() {
    let out = BasicDrawCreator::string_to_basic_draws(Point::new(0, 0), "hi", None);
    assert_eq!(sorted(out), vec![((0, 0), 'h'), ((1, 0), 'i')]);
}

#[test]
fn creator_bounding_box_and_alignment() {
    let mut c = BasicDrawCreator::new();
    let empty = c.get_bounding_box();
    assert_eq!((empty.p1, empty.p2), (Point::new(0, 0), Point::new(0, 0)));
    c.draw_char(Point::new(5, 5), TerminalChar::from_char('x'));
    c.draw_char(Point::new(7, 6), TerminalChar::from_char('y'));
    let bb = c.get_bounding_box();
    assert_eq!((bb.p1, bb.p2), (Point::new(5, 5), Point::new(7, 6)));
    c.align_to_origin(Point::new(0, 0));
    let bb2 = c.get_bounding_box();
    assert_eq!(bb2.p1, Point::new(0, 0));
    assert_eq!(sorted(c.dump_draws()), vec![((0, 0), 'x'), ((2, 1), 'y')]);
}

#[test]
fn creator_merges_replace_and_offset() {
    let mut a = BasicDrawCreator::new();
    a.draw_char(Point::new(0, 0), TerminalChar::from_char('a'));
    let mut b = BasicDrawCreator::new();
    b.draw_char(Point::new(0, 0), TerminalChar::from_char('b'));
    b.draw_char(Point::new(1, 0), TerminalChar::from_char('c'));
    a.merge_creator(b);
    assert_eq!(sorted(a.dump_draws()), vec![((0, 0), 'b'), ((1, 0), 'c')]);

    let mut d = BasicDrawCreator::new();
    d.draw_char(Point::new(3, 3), TerminalChar::from_char('d'));
    let mut e = BasicDrawCreator::new();
    e.draw_char(Point::new(0, 0), TerminalChar::from_char('e'));
    d.merge_creator_offset(e, Point::new(3, 3));
    assert_eq!(sorted(d.dump_draws()), vec![((3, 3), 'e')]);
}

#[test]
fn creator_cells_bars_and_grids() {
    let white = Color::rgb(255, 255, 255);
    let black = Color::rgb(0, 0, 0);
    let mut c = BasicDrawCreator::new();
    c.draw_cell(Point::new(0, 0), 'z', white, Some(black));
    let out = c.dump_draws();
    assert_eq!(out[0].chr, TerminalChar { chr: 'z', fg_color: Some(white), bg_color: Some(black) });

    c.draw_horizontal_bar(Point::new(1, 1), 3, '=', white);
    assert_eq!(sorted(c.dump_draws()), vec![((1, 1), '='), ((2, 1), '='), ((3, 1), '=')]);
    c.draw_horizontal_bar(Point::new(1, 1), -2, '=', white);
    assert!(c.dump_draws().is_empty());

    c.draw_grid_from_fn(Point::new(0, 0), 2, 2, 2, 1, |col, row| {
        (if (col + row) % 2 == 0 { '#' } else { '+' }, white, Some(black))
    });
    assert_eq!(
        sorted(c.dump_draws()),
        vec![
            ((0, 0), '#'),
            ((1, 0), ' '),
            ((2, 0), '+'),
            ((3, 0), ' '),
            ((0, 1), '+'),
            ((1, 1), ' '),
            ((2, 1), '#'),
            ((3, 1), ' ')
        ]
    );
}

fn sprite(frames: usize) -> SpriteEntry {
    SpriteEntry {
        width: 2,
        height: 1,
        frames: (0..frames).map(|i| vec![TerminalChar::from_char((b'a' + i as u8) as char); 2]).collect(),
    }
}

#[test]
fn frame_identifiers_resolve() {
    let s = sprite(4);
    assert_eq!(get_frame_idx(&FrameIdent::FirstFrame, &s), 0);
    assert_eq!(get_frame_idx(&FrameIdent::LastFrame, &s), 3);
    assert_eq!(get_frame_idx(&FrameIdent::SpecificFrame(2), &s), 2);
    assert_eq!(s.size(), (4, 1, 2));
}

#[test]
fn frames_since_counts_played_frames() {
    assert_eq!(frames_since(&VideoSpeed::Fps(10), 2500), 25);
    assert_eq!(frames_since(&VideoSpeed::MillisecondsPerFrame(40), 1000), 25);
}

#[test]
fn select_frame_loops_stops_and_kills() {
    let s = sprite(4);
    let video = |loop_type| AnimationInfo::Video {
        loop_type,
        speed: VideoSpeed::MillisecondsPerFrame(100),
        start_frame: FrameIdent::SpecificFrame(1),
        end_frame: FrameIdent::LastFrame,
    };
    assert_eq!(select_frame(&video(VideoLoopType::Loop), &s, 450), Some(2));
    assert_eq!(select_frame(&video(VideoLoopType::NoLoop), &s, 450), Some(3));
    assert_eq!(select_frame(&video(VideoLoopType::KillOnFinish), &s, 450), None);
    assert_eq!(select_frame(&video(VideoLoopType::KillOnFinish), &s, 150), Some(2));
    assert_eq!(select_frame(&AnimationInfo::Image { frame: FrameIdent::LastFrame }, &s, 0), Some(3));
}

#[test]
fn place_frame_wraps_rows_and_saturates() {
    let px = vec![TerminalChar::from_char('a'); 4];
    let out = place_frame(Point::new(i32::MAX - 1, 0), &px, 2);
    assert_eq!(pts(&out), vec![(i32::MAX - 1, 0), (i32::MAX, 0), (i32::MAX - 1, 1), (i32::MAX, 1)]);
    assert_eq!(sat_add_i32(i32::MIN, -5), i32::MIN);
}

#[test]
fn sprite_registry_ids_are_indices() {
    let mut reg = SpriteRegistry::new();
    assert_eq!(reg.add(sprite(1)), 0);
    assert_eq!(reg.add(sprite(2)), 1);
    assert_eq!(reg.get(&1).map(|s| s.frames.len()), Some(2));
    assert!(reg.get(&2).is_none());
}

#[test]
fn drawable_sprite_errors_without_sprite() {
    let reg = SpriteRegistry::new();
    let mut d = Drawable::Sprite(termdraw::sprites::SpriteDrawable {
        position: Point::new(0, 0),
        sprite_id: 7,
        last_state_change: std::time::Instant::now(),
        animation_type: AnimationInfo::default(),
    });
    assert_eq!(d.draw(&reg).unwrap_err(), DrawError::SpriteNotFound(7));
}

#[test]
fn sprite_drawable_draws_a_frame_after_time_passes() {
    let mut reg = SpriteRegistry::new();
    let id = reg.add(sprite(3));
    let mut d = Drawable::Sprite(termdraw::sprites::SpriteDrawable {
        position: Point::new(4, 4),
        sprite_id: id,
        last_state_change: std::time::Instant::now(),
        animation_type: AnimationInfo::Image { frame: FrameIdent::LastFrame },
    });
    let out = d.draw(&reg).unwrap();
    assert_eq!(out.len(), 2);
    assert!(out.iter().all(|b| b.chr.chr == 'c'));
}

#[test]
fn single_frame_sprite_picks_a_frame_or_reports_it_missing() {
    let frames = vec![vec![TerminalChar::from_char('a'); 2], vec![TerminalChar::from_char('b'); 2]];
    let s = termdraw::sprites::single_frame_sprite(2, 1, frames.clone(), Some(1), "v.ascii".to_string()).unwrap();
    assert_eq!(s.frames, vec![vec![TerminalChar::from_char('b'); 2]]);
    let first = termdraw::sprites::single_frame_sprite(2, 1, frames.clone(), None, "v.ascii".to_string()).unwrap();
    assert_eq!(first.frames[0][0].chr, 'a');
    let err = termdraw::sprites::single_frame_sprite(2, 1, frames, Some(5), "v.ascii".to_string()).unwrap_err();
    assert_eq!(err, termdraw::errors::FileError::VideoFrameNotFound { video_path: "v.ascii".to_string(), frame_id: 5 });
}

#[test]
fn usability_checks_follow_the_limits() {
    let reg = SpriteRegistry::new();
    let ok_circle = Drawable::Circle(CircleDrawable {
        center: PointU16 { x: 10, y: 10 },
        radius: 32767,
        border_style: TerminalChar::from_char('o'),
        fill_style: None,
    });
    assert!(ok_circle.check_usable(&reg));
    let big_circle = Drawable::Circle(CircleDrawable {
        center: PointU16 { x: 10, y: 10 },
        radius: 32768,
        border_style: TerminalChar::from_char('o'),
        fill_style: None,
    });
    assert!(!big_circle.check_usable(&reg));
    let unordered = Drawable::Rect(RectDrawable {
        rect: RectUsize { p1: PointUsize { x: 5, y: 0 }, p2: PointUsize { x: 1, y: 3 } },
        border_thickness: 1,
        border_style: TerminalChar::from_char('#'),
        fill_style: None,
    });
    assert!(!unordered.check_usable(&reg));
    let long_line = Drawable::Line(LineDrawable {
        start: PointU16 { x: 0, y: 0 },
        end: PointU16 { x: 65535, y: 0 },
        chr: TerminalChar::from_char('-'),
    });
    assert!(!long_line.check_usable(&reg));
}

#[test]
fn replace_points_sets_corners_or_position() {
    let mut l = Drawable::Line(LineDrawable {
        start: PointU16 { x: 0, y: 0 },
        end: PointU16 { x: 1, y: 1 },
        chr: TerminalChar::from_char('-'),
    });
    l.replace_points(&vec![Point::new(-3, 4), Point::new(70000, 2)]);
    assert!(matches!(l, Drawable::Line(ld) if ld.start == PointU16 { x: 0, y: 4 } && ld.end == PointU16 { x: 65535, y: 2 }));
    l.replace_points(&vec![Point::new(9, 9)]);
    assert!(matches!(l, Drawable::Line(ld) if ld.start == PointU16 { x: 0, y: 4 }));
}

#[test]
fn line_tie_breaking_differs_between_drawable_and_creator() {
    let l = LineDrawable {
        start: PointU16 { x: 0, y: 0 },
        end: PointU16 { x: 2, y: 1 },
        chr: TerminalChar::from_char('*'),
    };
    assert_eq!(pts(&l.draw()), vec![(0, 0), (1, 1), (2, 1)]);
    let w = line_walk(Point::new(0, 0), Point::new(2, 1));
    assert_eq!(w.iter().map(|p| (p.x, p.y)).collect::<Vec<_>>(), vec![(0, 0), (1, 0), (2, 1)]);
}

#[test]
fn rect_border_cells_lie_in_bounding_rows() {
    let r = RectDrawable {
        rect: RectUsize { p1: PointUsize { x: 1, y: 1 }, p2: PointUsize { x: 6, y: 5 } },
        border_thickness: 2,
        border_style: TerminalChar::from_char('#'),
        fill_style: None,
    };
    let rows = r.bounding_iv();
    let out = r.draw();
    assert!(!out.is_empty());
    for d in out {
        let row = rows.get(&(d.pos.y as u16)).expect("row of a drawn cell");
        assert!(row.iter().any(|iv| iv.interval.0 <= d.pos.x as usize && (d.pos.x as usize) < iv.interval.1));
    }
}
