use std::collections::HashMap;
use std::time::{Duration, Instant};
use termdraw::builders::{
    make_videostream_drawable, CircleDrawableBuilder, DrawObjectBuilder, LineDrawableBuilder, RectDrawableBuilder,
    SpriteDrawableBuilder, VideoStreamDrawableBuilder,
};
use termdraw::cell::{Color, TerminalChar};
use termdraw::drawables::{Drawable, LineDrawable, StreamFrame};
use termdraw::errors::{AppError, DrawError, DrawObjectBuilderError};
use termdraw::geometry::{Point, PointU16, PointUsize, Rect, RectUsize};
use termdraw::objects::{DrawObject, DrawObjectKey, ObjectLifetime};
use termdraw::renderer::{DrawableOp, RenderMode, Renderer};
use termdraw::screen_buffer::{batch_for_range, cell_char, CellDrawerCommand, CharacterInfo, CharacterInfoList, ScreenBuffer};
use termdraw::screens::{AreaPoint, AreaRect};
use termdraw::shaders::{Shader, ToUpperCase};
use termdraw::sprites::{AnimationInfo, FrameIdent};

fn line(x1: u16, x2: u16, y: u16, c: char) -> Drawable {
    Drawable::Line(LineDrawable { start: PointU16 { x: x1, y }, end: PointU16 { x: x2, y }, chr: TerminalChar::from_char(c) })
}

fn object(d: Drawable, layer: usize, lifetime: ObjectLifetime) -> DrawObject {
    DrawObject { lifetime, creation_time: Instant::now(), layer, shaders: Vec::new(), drawable: d }
}

fn row_text(cmds: &[CellDrawerCommand], y: u16, cols: u16) -> String {
    let mut cells: Vec<char> = Vec::new();
    for c in cmds {
        if let CellDrawerCommand::SetString(b) = c {
            let mut idx = b.y as usize * cols as usize + b.start_x as usize;
            for seg in &b.segments {
                for ch in seg.text.chars() {
                    if cells.len() <= idx {
                        cells.resize(idx + 1, '?');
                    }
                    cells[idx] = ch;
                    idx += 1;
                }
            }
        }
    }
    let start = y as usize * cols as usize;
    cells.iter().skip(start).take(cols as usize).collect()
}

#[test]
fn area_points_and_rects_resolve_on_the_terminal() {
    assert_eq!(AreaPoint::BottomRight.screen_point_to_point(&(80, 24)), Point::new(80, 24));
    assert_eq!(AreaPoint::Point(Point::new(3, 4)).screen_point_to_point(&(80, 24)), Point::new(3, 4));
    let r = AreaRect::FullScreen.area_to_rect(&(80, 24));
    assert_eq!((r.p1, r.p2), (Point::new(0, 0), Point::new(80, 24)));
    let r2 = AreaRect::FromPoints(AreaPoint::TopRight, AreaPoint::Point(Point::new(1, 2))).area_to_rect(&(80, 24));
    assert_eq!((r2.p1, r2.p2), (Point::new(80, 0), Point::new(1, 2)));
}

#[test]
fn rect_normalizes_and_contains() {
    let r = Rect::from_coords(5, 1, 2, 4);
    let n = r.normalized();
    assert_eq!((n.p1, n.p2), (Point::new(2, 1), Point::new(5, 4)));
    assert!(r.contains(Point::new(5, 4)));
    assert!(!r.contains(Point::new(6, 4)));
}

#[test]
fn cell_char_shows_the_topmost_entry_or_a_blank() {
    let mut list = CharacterInfoList { info: HashMap::new() };
    assert_eq!(cell_char(&list), TerminalChar::from_char(' '));
    list.info.insert(1, CharacterInfo { display_id: 1, layer: 5, screen_layer: 0, chr: TerminalChar::from_char('a') });
    list.info.insert(2, CharacterInfo { display_id: 2, layer: 1, screen_layer: 1, chr: TerminalChar::from_char('b') });
    assert_eq!(cell_char(&list), TerminalChar::from_char('b'));
}

#[test]
fn batch_for_range_splits_runs_by_colour() {
    let red = Color::rgb(255, 0, 0);
    let mut cells = Vec::new();
    for (i, c) in ['a', 'b', 'c'].iter().enumerate() {
        let mut list = CharacterInfoList { info: HashMap::new() };
        let chr = if i == 2 { TerminalChar::from_char(*c).set_fg(red) } else { TerminalChar::from_char(*c) };
        list.info.insert(0, CharacterInfo { display_id: 0, layer: 0, screen_layer: 0, chr });
        cells.push(list);
    }
    let b = batch_for_range(&cells, 3, 0, 3);
    assert_eq!((b.start_x, b.y), (0, 0));
    assert_eq!(b.segments.len(), 2);
    assert_eq!(b.segments[0].text, "ab");
    assert_eq!(b.segments[1].text, "c");
    assert_eq!(b.segments[1].fg_color, Some(red));
}

#[test]
fn screen_buffer_update_terminal_ends_with_flush() {
    let mut buf = ScreenBuffer::new((4, 2));
    assert_eq!(buf.size(), (4, 2));
    assert_eq!(buf.idx_of(Point::new(3, 1)), 7);
    let out = buf.update_terminal(0);
    assert!(matches!(out.last(), Some(CellDrawerCommand::Flush)));
    assert_eq!(row_text(&out, 0, 4), "    ");
    assert_eq!(row_text(&out, 1, 4), "    ");
}

#[test]
fn renderer_registers_and_renders_objects() {
    let mut r = Renderer::create_renderer((6, 2));
    assert_eq!(r.get_terminal_size(), (6, 2));
    let s = r.create_screen(AreaRect::FullScreen, 0);
    assert_eq!(s, 0);
    let k = r.register_drawable(s, object(line(0, 2, 0, 'x'), 1, ObjectLifetime::ExplicitRemove)).unwrap();
    assert_eq!(k, DrawObjectKey { screen_id: 0, object_id: 0 });
    r.render_frame().unwrap();
    let cmds = r.take_draw_commands();
    assert!(matches!(cmds.last(), Some(CellDrawerCommand::Flush)));
    assert!(row_text(&cmds, 0, 6) == "xxx   ");
    assert!(r.take_draw_commands().is_empty());
}

#[test]
fn renderer_reports_missing_screens_and_objects() {
    let mut r = Renderer::create_renderer((6, 2));
    let e = r.register_drawable(4, object(line(0, 1, 0, 'x'), 0, ObjectLifetime::ExplicitRemove));
    assert_eq!(e.unwrap_err(), DrawError::DisplayKeyNotFound(4));
    let s = r.create_screen(AreaRect::FullScreen, 0);
    let missing = DrawObjectKey { screen_id: s, object_id: 9 };
    assert_eq!(r.remove_drawable(missing), Err(DrawError::DrawableHandleNotFound { screen_id: 0, obj_id: 9 }));
    assert_eq!(r.change_screen_layer(3, 1), Err(DrawError::DisplayKeyNotFound(3)));
}

#[test]
fn renderer_moves_and_replaces_drawables() {
    let mut r = Renderer::create_renderer((10, 3));
    r.set_render_mode(RenderMode::Instant);
    let s = r.create_screen(AreaRect::FullScreen, 0);
    let k = r.register_drawable(s, object(line(0, 1, 0, 'x'), 0, ObjectLifetime::ExplicitRemove)).unwrap();
    assert_eq!(r.get_amount_of_points(k), Ok(Some(2)));
    r.move_drawable_to(k, Point::new(4, 1)).unwrap();
    r.move_drawable_by(k, 1, 1).unwrap();
    r.replace_drawable_points(k, vec![Point::new(0, 0), Point::new(3, 0)]).unwrap();
    r.replace_drawable(k, line(0, 0, 2, 'y')).unwrap();
    r.move_multipoint_drawable_point(k, 0, Point::new(1, 1)).unwrap();
    let _ = r.take_draw_commands();
    r.render_frame().unwrap();
    let cmds = r.take_draw_commands();
    assert!(row_text(&cmds, 2, 10).starts_with("y"));
    assert_eq!(row_text(&cmds, 0, 10), "          ");
}

#[test]
fn frame_based_objects_are_removed_after_a_frame() {
    let mut r = Renderer::create_renderer((5, 1));
    let s = r.create_screen(AreaRect::FullScreen, 0);
    r.register_drawable(s, object(line(0, 0, 0, 'q'), 0, ObjectLifetime::RemoveNextFrame)).unwrap();
    r.render_frame().unwrap();
    assert!(row_text(&r.take_draw_commands(), 0, 5).starts_with("q"));
    r.render_frame().unwrap();
    assert_eq!(row_text(&r.take_draw_commands(), 0, 5), "     ");
}

#[test]
fn timed_objects_expire() {
    let mut r = Renderer::create_renderer((5, 1));
    let s = r.create_screen(AreaRect::FullScreen, 0);
    r.register_drawable(s, object(line(0, 0, 0, 't'), 0, ObjectLifetime::ForTime(Duration::from_millis(0)))).unwrap();
    r.check_if_object_lifetime_ended().unwrap();
    r.render_frame().unwrap();
    assert_eq!(row_text(&r.take_draw_commands(), 0, 5), "     ");
}

#[test]
fn line_builder_needs_every_part() {
    let ok = LineDrawableBuilder::new()
        .start(PointU16 { x: 0, y: 0 })
        .end(PointU16 { x: 2, y: 0 })
        .chr(TerminalChar::from_char('-'))
        .build();
    assert!(matches!(ok, Ok(Drawable::Line(l)) if l.end == PointU16 { x: 2, y: 0 }));
    let err = LineDrawableBuilder::new().start(PointU16 { x: 0, y: 0 }).build();
    assert_eq!(err.unwrap_err(), DrawObjectBuilderError::FailedToBuildLineObject());
}

#[test]
fn rect_and_circle_builders_fill_defaults() {
    let rect = RectDrawableBuilder::new()
        .rect(RectUsize { p1: PointUsize { x: 0, y: 0 }, p2: PointUsize { x: 1, y: 1 } })
        .border_thickness(1)
        .build();
    assert_eq!(rect.unwrap_err(), DrawObjectBuilderError::FailedToBuildRectObject());
    let circle = CircleDrawableBuilder::new().radius(3).build();
    assert!(matches!(circle, Ok(Drawable::Circle(c))
        if c.center == PointU16 { x: 0, y: 0 } && c.border_style.chr == '#' && c.fill_style.is_none()));
    assert_eq!(CircleDrawableBuilder::new().build().unwrap_err(), DrawObjectBuilderError::FailedToBuildCircleObject());
}

#[test]
fn sprite_and_stream_builders_need_their_source() {
    assert_eq!(SpriteDrawableBuilder::new().build().unwrap_err(), DrawObjectBuilderError::FailedToBuildSpriteObject());
    let sp = SpriteDrawableBuilder::new().sprite_id(4).build();
    assert!(matches!(sp, Ok(Drawable::Sprite(s))
        if s.sprite_id == 4 && s.position == Point::new(0, 0)
            && s.animation_type == AnimationInfo::Image { frame: FrameIdent::FirstFrame }));
    assert_eq!(
        VideoStreamDrawableBuilder::new().size((2, 2)).build().unwrap_err(),
        DrawObjectBuilderError::FailedToBuildVideoStream()
    );
}

#[test]
fn videostream_drawable_draws_received_frames() {
    let (tx, mut d) = make_videostream_drawable(Point::new(1, 1)).unwrap();
    let reg = termdraw::sprites::SpriteRegistry::new();
    assert!(d.draw(&reg).unwrap().is_empty());
    tx.send(StreamFrame { size: (2, 1), data: vec![Some(TerminalChar::from_char('v')), None] }).unwrap();
    let out = d.draw(&reg).unwrap();
    assert_eq!(out.len(), 1);
    assert_eq!(out[0].pos, Point::new(1, 1));
    assert!(matches!(d, Drawable::VideoStream(ref v) if v.size == (2, 1)));
}

#[test]
fn draw_object_builder_reports_missing_parts_in_order() {
    let mut r = Renderer::create_renderer((8, 2));
    let s = r.create_screen(AreaRect::FullScreen, 0);
    let mut b = DrawObjectBuilder::new();
    assert_eq!(b.build(&mut r), Err(AppError::DrawObjectBuilder(DrawObjectBuilderError::NoLayerAdded())));
    b.layer(1);
    assert_eq!(b.build(&mut r), Err(AppError::DrawObjectBuilder(DrawObjectBuilderError::NoScreenAdded())));
    b.screen(s);
    assert_eq!(b.build(&mut r), Err(AppError::DrawObjectBuilder(DrawObjectBuilderError::NoDrawableAdded())));
    b.line_drawable(|lb| {
        lb.start(PointU16 { x: 0, y: 0 }).end(PointU16 { x: 1, y: 0 }).chr(TerminalChar::from_char('z'))
    })
    .unwrap();
    assert_eq!(b.build(&mut r), Err(AppError::DrawObjectBuilder(DrawObjectBuilderError::NoLifetimeAdded())));
    assert!(b.drawable.is_none());
    assert_eq!(
        b.rect_drawable(|rb| rb.border_thickness(1)),
        Err(DrawObjectBuilderError::FailedToBuildRectObject())
    );
    b.circle_drawable(|cb| cb.radius(0)).unwrap();
    b.add_lifetime(ObjectLifetime::ExplicitRemove);
    b.shader(Shader::ToUpperCase(ToUpperCase));
    assert_eq!(b.build(&mut r), Ok(DrawObjectKey { screen_id: s, object_id: 0 }));
    assert!(b.drawable.is_none());
    b.drawable(line(0, 0, 0, 'w'));
    b.add_lifetime(ObjectLifetime::ExplicitRemove);
    b.screen(7);
    assert_eq!(b.build(&mut r), Err(AppError::Draw(DrawError::DisplayKeyNotFound(7))));
}

#[test]
fn renderer_checks_match_the_operations() {
    let mut r = Renderer::create_renderer((10, 3));
    let s = r.create_screen(AreaRect::FullScreen, 0);
    let circle = CircleDrawableBuilder::new().center(PointU16 { x: 5, y: 5 }).radius(2).build().unwrap();
    assert!(r.check_drawable(&circle));
    let k = r.register_drawable(s, object(circle, 0, ObjectLifetime::ExplicitRemove)).unwrap();
    assert!(r.check_op(k, DrawableOp::MoveTo(Point::new(1, 1))));
    assert!(!r.check_op(k, DrawableOp::MoveTo(Point::new(i32::MAX, 1))));
    assert!(r.check_op(k, DrawableOp::MoveBy(2, 2)));
    assert!(r.check_points(k, &vec![Point::new(0, 0), Point::new(4, 4)]));
    assert!(!r.check_points(k, &vec![Point::new(60000, 0), Point::new(60000, 4)]));
    let missing = DrawObjectKey { screen_id: s, object_id: 42 };
    assert!(r.check_op(missing, DrawableOp::CountPoints));
    let sprite = termdraw::sprites::SpriteEntry { width: 2, height: 2, frames: vec![vec![TerminalChar::from_char('s'); 3]] };
    assert!(!r.check_sprite(&sprite));
    let good = termdraw::sprites::SpriteEntry { width: 2, height: 2, frames: vec![vec![TerminalChar::from_char('s'); 4]] };
    assert!(r.check_sprite(&good));
    assert_eq!(r.register_sprite(good), 0);
}

#[test]
fn explicit_removal_after_registration_leaves_the_screen_as_before() {
    let mut r = Renderer::create_renderer((4, 1));
    let s = r.create_screen(AreaRect::FullScreen, 0);
    let k = r.register_drawable(s, object(line(0, 3, 0, 'r'), 0, ObjectLifetime::ExplicitRemove)).unwrap();
    r.explicit_remove_drawable(&k).unwrap();
    r.render_frame().unwrap();
    assert_eq!(row_text(&r.take_draw_commands(), 0, 4), "    ");
    assert_eq!(r.explicit_remove_drawable(&DrawObjectKey { screen_id: 3, object_id: 0 }), Err(DrawError::DisplayKeyNotFound(3)));
}

#[test]
fn remove_keys_stops_at_the_first_unknown_key() {
    let mut r = Renderer::create_renderer((6, 1));
    let s = r.create_screen(AreaRect::FullScreen, 0);
    let a = r.register_drawable(s, object(line(0, 0, 0, 'a'), 0, ObjectLifetime::ExplicitRemove)).unwrap();
    let b = r.register_drawable(s, object(line(2, 2, 0, 'b'), 0, ObjectLifetime::ExplicitRemove)).unwrap();
    let bad = DrawObjectKey { screen_id: s, object_id: 9 };
    assert_eq!(r.remove_keys(&vec![a, bad, b]), Err(DrawError::DrawableHandleNotFound { screen_id: 0, obj_id: 9 }));
    r.render_frame().unwrap();
    assert_eq!(row_text(&r.take_draw_commands(), 0, 6), "  b   ");
    assert_eq!(r.remove_keys(&vec![DrawObjectKey { screen_id: 5, object_id: 0 }]), Err(DrawError::DisplayKeyNotFound(5)));
    assert_eq!(r.remove_keys(&vec![b]), Ok(()));
    r.render_frame().unwrap();
    assert_eq!(row_text(&r.take_draw_commands(), 0, 6), "      ");
}
