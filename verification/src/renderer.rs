//! The renderer: screens and their objects, the sprites, the cell buffer,
//! and the draw commands waiting to be written to the terminal. Writing
//! them is left to the caller (`take_draw_commands`).
use crate::clock::{elapsed, now};
use crate::errors::DrawError;
use crate::geometry::{Point, PointU16};
use crate::objects::{DrawObject, DrawObjectKey, DrawObjectLibrary, ObjectLifetime};
use crate::screen_buffer::{map_covers, removed_where, spec_update, CellDrawerCommand, CharacterInfo, ScreenBuffer};
use crate::screens::{lemma_screen_keeps_drawing_surely, AreaRect, Screen};
use crate::sprites::{SpriteEntry, SpriteRegistry};
use std::time::Duration;
use vstd::prelude::*;

verus! {

/// When the terminal is updated: after every change, or only when a frame
/// is rendered.
#[derive(Debug, Clone, Copy, PartialEq, Eq, Structural, Hash)]
pub enum RenderMode {
    Instant,
    Buffered,
}

/// Marker for rendering after every change (`RenderMode::Instant`).
#[derive(Debug, Clone, Copy)]
pub struct Instant;

/// Marker for rendering frame by frame (`RenderMode::Buffered`).
#[derive(Debug, Clone, Copy)]
pub struct Buffered;

/// A change applied to one drawable (see `Renderer::update_drawable`).
#[derive(Debug, Clone, Copy)]
pub enum DrawableOp {
    /// `Drawable::move_to`.
    MoveTo(Point),
    /// `Drawable::move_by`.
    MoveBy(i32, i32),
    /// `Drawable::move_point`.
    MovePoint(usize, Point),
    /// No change; the number of points is reported.
    CountPoints,
}

impl DrawableOp {
    /// The drawable the change can be applied to.
    pub open spec fn applicable(self, d: crate::drawables::Drawable) -> bool {
        match self {
            DrawableOp::MoveTo(p) => d.move_to_ok(p),
            DrawableOp::MoveBy(dx, dy) => d.move_by_ok(dx, dy),
            DrawableOp::MovePoint(i, p) => d.move_point_ok(i, p),
            DrawableOp::CountPoints => true,
        }
    }

    /// The drawable after the change.
    pub open spec fn spec_apply(self, d: crate::drawables::Drawable) -> crate::drawables::Drawable {
        match self {
            DrawableOp::MoveTo(p) => d.spec_move_to(p),
            DrawableOp::MoveBy(dx, dy) => d.spec_move_by(dx, dy),
            DrawableOp::MovePoint(i, p) => d.spec_move_point(i, p),
            DrawableOp::CountPoints => d,
        }
    }

    /// Applies the change; reports the number of points for `CountPoints`.
    pub fn apply(&self, d: &mut crate::drawables::Drawable) -> (n: Option<usize>)
        requires
            self.applicable(*old(d)),
        ensures
            *final(d) == self.spec_apply(*old(d)),
            !(*self is CountPoints) ==> n is None,
            *self is CountPoints && old(d).spec_corners() is Some ==> n == Some(2usize),
            *self is CountPoints && old(d).spec_position() is Some ==> n == Some(1usize),
    {
        match self {
            DrawableOp::MoveTo(p) => {
                d.move_to(*p);
                None
            },
            DrawableOp::MoveBy(dx, dy) => {
                d.move_by(*dx, *dy);
                None
            },
            DrawableOp::MovePoint(i, p) => {
                d.move_point(*i, *p);
                None
            },
            DrawableOp::CountPoints => d.get_amount_of_points(),
        }
    }

    /// Whether the change can be applied to `d` and leaves it usable (see
    /// `applicable`, `spec_apply`, `Drawable::check_usable`).
    pub fn check(&self, d: &crate::drawables::Drawable, sprites: &SpriteRegistry) -> (b: bool)
        ensures
            b == (self.applicable(*d) && self.spec_apply(*d).draw_ok(*sprites) && self.spec_apply(*d).bounding_ok()
                && self.spec_apply(*d).size_ok()),
    {
        match d.copy_shape() {
            Some(mut probe) => {
                let ok = match self {
                    DrawableOp::MoveTo(p) => {
                        if !(-2147418113 <= p.x && p.x <= 2147418112 && -2147418113 <= p.y && p.y <= 2147418112) {
                            false
                        } else {
                            match d.corners() {
                                Some((s, e)) => {
                                    let g = PointU16::from_point_clamped(*p);
                                    let dx: i32 = p.x - s.x as i32;
                                    let dy: i32 = p.y - s.y as i32;
                                    let me = PointU16 {
                                        x: crate::geometry::clamp_to_u16(e.x as i32 + dx),
                                        y: crate::geometry::clamp_to_u16(e.y as i32 + dy),
                                    };
                                    match d.copy_shape() {
                                        Some(mut step) => {
                                            if !step.check_set_start(g) {
                                                false
                                            } else {
                                                step.set_start(g);
                                                step.check_set_end(me)
                                            }
                                        },
                                        None => false,
                                    }
                                },
                                None => false,
                            }
                        }
                    },
                    DrawableOp::MoveBy(dx, dy) => {
                        if !(*dx <= 2147418112 && *dy <= 2147418112) {
                            false
                        } else {
                            match d.corners() {
                                Some((s, e)) => {
                                    let ns = crate::drawables::Drawable::shift_clamped_exec(s.to_point(), *dx, *dy);
                                    let ne = crate::drawables::Drawable::shift_clamped_exec(e.to_point(), *dx, *dy);
                                    let gs = PointU16::from_point_clamped(ns);
                                    let ge = PointU16::from_point_clamped(ne);
                                    match d.copy_shape() {
                                        Some(mut step) => {
                                            if !step.check_set_start(gs) {
                                                false
                                            } else {
                                                step.set_start(gs);
                                                step.check_set_end(ge)
                                            }
                                        },
                                        None => false,
                                    }
                                },
                                None => false,
                            }
                        }
                    },
                    DrawableOp::MovePoint(i, p) => {
                        let c = Point { x: if p.x < 0 { 0 } else { p.x }, y: if p.y < 0 { 0 } else { p.y } };
                        let g = PointU16::from_point_clamped(c);
                        (*i != 0 || d.check_set_start(g)) && (*i != 1 || d.check_set_end(g))
                    },
                    DrawableOp::CountPoints => true,
                };
                if !ok {
                    return false;
                }
                self.apply(&mut probe);
                probe.check_usable(sprites)
            },
            None => {
                let pos = match d {
                    crate::drawables::Drawable::Sprite(sp) => sp.position,
                    crate::drawables::Drawable::VideoStream(v) => v.position,
                    _ => Point { x: 0, y: 0 },
                };
                let new_pos = match self {
                    DrawableOp::MoveTo(p) => *p,
                    DrawableOp::MoveBy(dx, dy) => {
                        let x: i64 = pos.x as i64 + *dx as i64;
                        let y: i64 = pos.y as i64 + *dy as i64;
                        if x < -2147483648i64 || x > 2147483647i64 || y < -2147483648i64 || y > 2147483647i64 {
                            return false;
                        }
                        crate::drawables::Drawable::shift_clamped_exec(pos, *dx, *dy)
                    },
                    _ => pos,
                };
                match d {
                    crate::drawables::Drawable::Sprite(sp) => {
                        if !sprites.check_wf() {
                            return false;
                        }
                        let anim_ok = match sprites.get(&sp.sprite_id) {
                            Some(s) => crate::sprites::check_animation(&sp.animation_type, s.frames.len()),
                            None => true,
                        };
                        anim_ok && new_pos.x <= 2147418112 && new_pos.y <= 2147418112
                    },
                    _ => new_pos.x <= 2147418112 && new_pos.y <= 2147418112,
                }
            },
        }
    }
}

/// `Duration`'s `>=`: whether `a` is at least `b`. A `Duration` is opaque
/// here, and a name for the result would need it as a parameter, which is
/// not a plain value; so nothing is stated of the result.
#[verifier::external_body]
fn duration_at_least(a: &Duration, b: &Duration) -> (r: bool) {
    *a >= *b
}

/// Unregistering an object right after registering it gives back the
/// registrations there were before.
pub proof fn remove_after_register_restores(
    r0: Renderer,
    r1: Renderer,
    r2: Renderer,
    screen_id: usize,
    obj: DrawObject,
    key: DrawObjectKey,
)
    requires
        r0.wf(),
        r0.registered(r1, screen_id, obj, Ok(key)),
        r1.deregistered(r2, key),
    ensures
        forall|k: DrawObjectKey| #[trigger] r2.is_registered(k) == r0.is_registered(k),
{
    let new_id = r0.spec_library().slots().len() as usize;
    r0.spec_library().lemma_len_fits();
    assert(screen_id < r0.spec_screens().len());
    assert(key == DrawObjectKey { screen_id, object_id: new_id });
    assert(!r0.is_registered(key)) by {
        let objs = r0.spec_screens()[screen_id as int].draw_objects@;
        if objs.contains(new_id) {
            let j = choose|j: int| 0 <= j < objs.len() && objs[j] == new_id;
            assert(r0.screens@[screen_id as int].draw_objects@[j] < r0.obj_library.slots().len());
        }
    }
    assert forall|k: DrawObjectKey| #[trigger] r2.is_registered(k) == r0.is_registered(k) by {
        assert(r2.is_registered(k) <==> (r1.is_registered(k) && k != key));
        if k.screen_id == screen_id {
            let before = r0.spec_screens()[screen_id as int].draw_objects@;
            let after = r1.spec_screens()[screen_id as int].draw_objects@;
            assert(after == before.push(new_id));
            assert(after.contains(k.object_id) <==> (before.contains(k.object_id) || k.object_id == new_id)) by {
                if after.contains(k.object_id) {
                    let j = choose|j: int| 0 <= j < after.len() && after[j] == k.object_id;
                    if j < before.len() {
                        assert(before[j] == k.object_id);
                    }
                }
                if before.contains(k.object_id) {
                    let j = choose|j: int| 0 <= j < before.len() && before[j] == k.object_id;
                    assert(after[j] == k.object_id);
                }
                if k.object_id == new_id {
                    assert(after[before.len() as int] == new_id);
                }
            }
        } else if k.screen_id < r0.spec_screens().len() {
            assert(r1.spec_screens()[k.screen_id as int] == r0.spec_screens()[k.screen_id as int]);
        }
    }
}

/// Removing the entry at `k` keeps every value other than the one
/// removed.
proof fn lemma_remove_contains(s: Seq<usize>, k: int, o: usize)
    requires
        0 <= k < s.len(),
        o != s[k],
    ensures
        s.remove(k).contains(o) <==> s.contains(o),
{
    if s.contains(o) {
        let j = choose|j: int| 0 <= j < s.len() && s[j] == o;
        if j < k {
            assert(s.remove(k)[j] == o);
        } else {
            assert(s.remove(k)[j - 1] == o);
        }
    }
    if s.remove(k).contains(o) {
        let j = choose|j: int| 0 <= j < s.remove(k).len() && s.remove(k)[j] == o;
        if j < k {
            assert(s[j] == o);
        } else {
            assert(s[j + 1] == o);
        }
    }
}

/// The renderer. Screen `i` has key `i`.
#[derive(Debug)]
pub struct Renderer {
    screens: Vec<Screen>,
    obj_library: DrawObjectLibrary,
    screen_buffer: ScreenBuffer,
    sprites: SpriteRegistry,
    render_mode: RenderMode,
    update_interval_expand_amount: usize,
    terminal_size: (u16, u16),
    pending: Vec<CellDrawerCommand>,
}

impl Renderer {
    pub closed spec fn spec_screens(&self) -> Seq<Screen> {
        self.screens@
    }

    pub closed spec fn spec_library(&self) -> DrawObjectLibrary {
        self.obj_library
    }

    pub closed spec fn spec_buffer(&self) -> ScreenBuffer {
        self.screen_buffer
    }

    pub closed spec fn spec_sprites(&self) -> SpriteRegistry {
        self.sprites
    }

    pub closed spec fn spec_mode(&self) -> RenderMode {
        self.render_mode
    }

    pub closed spec fn spec_expand(&self) -> usize {
        self.update_interval_expand_amount
    }

    pub closed spec fn spec_terminal_size(&self) -> (u16, u16) {
        self.terminal_size
    }

    /// The draw commands not yet taken.
    pub closed spec fn spec_pending(&self) -> Seq<CellDrawerCommand> {
        self.pending@
    }

    /// The buffer fits the terminal, every sprite and object is usable,
    /// and screen `i` has key `i`, the terminal's size, no object twice and
    /// only objects the library has handed out.
    /// The object of the key is registered on its screen (it is drawn by
    /// `render_all`).
    pub open spec fn is_registered(&self, k: DrawObjectKey) -> bool {
        k.screen_id < self.spec_screens().len() && self.spec_screens()[k.screen_id as int].draw_objects@.contains(k.object_id)
    }

    pub closed spec fn wf(&self) -> bool {
        &&& self.screen_buffer.wf()
        &&& self.screen_buffer.spec_size() == self.terminal_size
        &&& self.sprites.wf()
        &&& self.obj_library.all_ok(self.sprites)
        &&& forall|i: int|
            0 <= i < self.screens@.len() ==> {
                &&& (#[trigger] self.screens@[i]).spec_id() == i
                &&& self.screens@[i].wf()
                &&& self.screens@[i].terminal_size == self.terminal_size
                &&& forall|j: int|
                    0 <= j < self.screens@[i].draw_objects@.len() ==> #[trigger] self.screens@[i].draw_objects@[j]
                        < self.obj_library.slots().len()
            }
    }

    /// An empty renderer for a terminal of the given size, rendering frame
    /// by frame, growing draw intervals by 50000 cells.
    pub fn create_renderer(size: (u16, u16)) -> (r: Self)
        ensures
            r.wf(),
            r.spec_screens().len() == 0,
            r.spec_library().slots().len() == 0,
            r.spec_sprites().sprites@.len() == 0,
            r.spec_mode() == RenderMode::Buffered,
            r.spec_expand() == 50000,
            r.spec_terminal_size() == size,
            r.spec_pending().len() == 0,
    {
        Renderer {
            screens: Vec::new(),
            obj_library: DrawObjectLibrary::new(),
            screen_buffer: ScreenBuffer::new(size),
            sprites: SpriteRegistry::new(),
            render_mode: RenderMode::Buffered,
            update_interval_expand_amount: 50000,
            terminal_size: size,
            pending: Vec::new(),
        }
    }

    pub fn set_render_mode(&mut self, mode: RenderMode)
        ensures
            final(self).spec_mode() == mode,
            final(self).spec_screens() == old(self).spec_screens(),
            final(self).spec_library() == old(self).spec_library(),
            final(self).spec_buffer() == old(self).spec_buffer(),
            final(self).spec_sprites() == old(self).spec_sprites(),
            final(self).spec_expand() == old(self).spec_expand(),
            final(self).spec_terminal_size() == old(self).spec_terminal_size(),
            final(self).spec_pending() == old(self).spec_pending(),
    {
        self.render_mode = mode;
    }

    /// Sets how far draw intervals are grown before merging (larger values
    /// give fewer, larger batches).
    pub fn set_update_interval(&mut self, amount: usize)
        ensures
            final(self).spec_expand() == amount,
            final(self).spec_mode() == old(self).spec_mode(),
            final(self).spec_screens() == old(self).spec_screens(),
            final(self).spec_library() == old(self).spec_library(),
            final(self).spec_buffer() == old(self).spec_buffer(),
            final(self).spec_sprites() == old(self).spec_sprites(),
            final(self).spec_terminal_size() == old(self).spec_terminal_size(),
            final(self).spec_pending() == old(self).spec_pending(),
    {
        self.update_interval_expand_amount = amount;
    }

    pub fn get_terminal_size(&self) -> (s: (u16, u16))
        ensures
            s == self.spec_terminal_size(),
    {
        self.terminal_size
    }

    /// Hands out the draw commands produced so far and forgets them.
    pub fn take_draw_commands(&mut self) -> (cmds: Vec<CellDrawerCommand>)
        ensures
            cmds@ == old(self).spec_pending(),
            final(self).spec_pending() == Seq::<CellDrawerCommand>::empty(),
            final(self).wf() == old(self).wf(),
            final(self).spec_screens() == old(self).spec_screens(),
            final(self).spec_library() == old(self).spec_library(),
            final(self).spec_buffer() == old(self).spec_buffer(),
            final(self).spec_terminal_size() == old(self).spec_terminal_size(),
    {
        let mut cmds: Vec<CellDrawerCommand> = Vec::new();
        std::mem::swap(&mut cmds, &mut self.pending);
        cmds
    }

    /// The lowest free screen key at or above the number of screens:
    /// screen keys are `0..n`, so it is `n`.
    pub fn generate_screen_key(&self) -> (id: usize)
        ensures
            id == self.spec_screens().len(),
    {
        let mut id = self.screens.len();
        while id < self.screens.len()
            invariant
                id == self.screens@.len(),
            decreases self.screens@.len() - id,
        {
            id = id.saturating_add(1);
        }
        id
    }

    /// Adds a screen over `area` on `layer`; its key is the number of
    /// screens before.
    pub fn create_screen(&mut self, area: AreaRect, layer: usize) -> (id: usize)
        requires
            old(self).wf(),
        ensures
            final(self).wf(),
            id == old(self).spec_screens().len(),
            final(self).spec_screens().len() == old(self).spec_screens().len() + 1,
            forall|i: int| 0 <= i < id ==> #[trigger] final(self).spec_screens()[i] == old(self).spec_screens()[i],
            final(self).spec_screens()[id as int].spec_area() == area,
            final(self).spec_screens()[id as int].spec_layer() == layer,
            final(self).spec_screens()[id as int].draw_objects@.len() == 0,
            final(self).spec_library() == old(self).spec_library(),
            final(self).spec_buffer() == old(self).spec_buffer(),
            final(self).spec_pending() == old(self).spec_pending(),
    {
        let new_id = self.generate_screen_key();
        self.screens.push(Screen::new(area, layer, new_id, self.terminal_size));
        new_id
    }

    /// Every object showing sprite `id` can play its animation on
    /// `sprite`.
    pub open spec fn sprite_fits(&self, id: int, sprite: SpriteEntry) -> bool {
        forall|i: int|
            0 <= i < self.spec_library().slots().len() && (#[trigger] self.spec_library().slots()[i]) is Some
                ==> match self.spec_library().slots()[i]->Some_0.1.drawable {
                crate::drawables::Drawable::Sprite(sp) => sp.sprite_id == id ==> crate::sprites::animation_ok(
                    sp.animation_type,
                    sprite.frames@.len(),
                ),
                _ => true,
            }
    }

    /// Whether `register_sprite(sprite)` may be called: the sprite is well
    /// formed and fits every object that shows the id it will get.
    pub fn check_sprite(&self, sprite: &SpriteEntry) -> (b: bool)
        ensures
            b == (sprite.wf() && self.sprite_fits(self.spec_sprites().sprites@.len() as int, *sprite)),
    {
        if !sprite.check_wf() {
            return false;
        }
        let id = self.sprites.sprites.len();
        let n = self.obj_library.len();
        let mut i: usize = 0;
        while i < n
            invariant
                n == self.spec_library().slots().len(),
                id == self.spec_sprites().sprites@.len(),
                0 <= i <= n,
                forall|j: int|
                    0 <= j < i && (#[trigger] self.spec_library().slots()[j]) is Some ==> match self.spec_library().slots()[j]->Some_0.1.drawable {
                        crate::drawables::Drawable::Sprite(sp) => sp.sprite_id == id ==> crate::sprites::animation_ok(
                            sp.animation_type,
                            sprite.frames@.len(),
                        ),
                        _ => true,
                    },
            decreases n - i,
        {
            match self.obj_library.slot(i) {
                Some(o) => match &o.drawable {
                    crate::drawables::Drawable::Sprite(sp) => {
                        if sp.sprite_id == id && !crate::sprites::check_animation(&sp.animation_type, sprite.frames.len()) {
                            return false;
                        }
                    },
                    _ => {},
                },
                None => {},
            }
            i += 1;
        }
        true
    }

    /// Adds a sprite; its id is the number of sprites before.
    pub fn register_sprite(&mut self, sprite: SpriteEntry) -> (id: usize)
        requires
            old(self).wf(),
            sprite.wf(),
            old(self).sprite_fits(old(self).spec_sprites().sprites@.len() as int, sprite),
        ensures
            final(self).wf(),
            id == old(self).spec_sprites().sprites@.len(),
            final(self).spec_sprites().sprites@ == old(self).spec_sprites().sprites@.push(sprite),
            final(self).spec_screens() == old(self).spec_screens(),
            final(self).spec_library() == old(self).spec_library(),
    {
        let ghost old_sprites = self.sprites;
        let id = self.sprites.add(sprite);
        proof {
            assert forall|i: int|
                0 <= i < self.obj_library.slots().len() && (#[trigger] self.obj_library.slots()[i]) is Some implies self.obj_library.slots()[i]->Some_0.1.ok(
                self.sprites,
            ) by {
                let o = self.obj_library.slots()[i]->Some_0.1;
                assert(o.ok(old_sprites));
                lemma_ok_more_sprites(o, old_sprites, self.sprites);
            }
        }
        id
    }

    /// What registering `obj` for `screen_id` did, going from `self` to
    /// `after` with result `r` (see `register_drawable`).
    pub open spec fn registered(&self, after: Renderer, screen_id: usize, obj: DrawObject, r: Result<DrawObjectKey, DrawError>) -> bool {
        &&& after.spec_sprites() == self.spec_sprites()
        &&& after.spec_mode() == self.spec_mode()
        &&& after.spec_terminal_size() == self.spec_terminal_size()
        &&& screen_id >= self.spec_screens().len() ==> r == Err::<DrawObjectKey, DrawError>(
            DrawError::DisplayKeyNotFound(screen_id),
        ) && after == *self
        &&& screen_id < self.spec_screens().len() ==> {
            let new_id = self.spec_library().slots().len() as usize;
            &&& r == Ok::<DrawObjectKey, DrawError>(DrawObjectKey { screen_id, object_id: new_id })
            &&& after.spec_library().slots() == self.spec_library().slots().push(Some((screen_id, obj)))
            &&& after.spec_screens().len() == self.spec_screens().len()
            &&& after.spec_screens()[screen_id as int].draw_objects@ == self.spec_screens()[screen_id as int].draw_objects@.push(new_id)
            &&& forall|i: int| 0 <= i < self.spec_screens().len() && i != screen_id ==> #[trigger] after.spec_screens()[i] == self.spec_screens()[i]
            &&& spec_refreshed(
                self.spec_mode(),
                self.spec_expand(),
                self.spec_buffer(),
                self.spec_pending(),
                after.spec_buffer(),
                after.spec_pending(),
            )
        }
    }

    /// Stores the object in the library for the screen and registers it
    /// there (it is drawn with the next render), then refreshes. A missing
    /// screen is an error and changes nothing.
    pub fn register_drawable(&mut self, screen_id: usize, obj: DrawObject) -> (r: Result<DrawObjectKey, DrawError>)
        requires
            old(self).wf(),
            obj.ok(old(self).spec_sprites()),
        ensures
            final(self).wf(),
            old(self).registered(*final(self), screen_id, obj, r),
    {
        if screen_id >= self.screens.len() {
            return Err(DrawError::DisplayKeyNotFound(screen_id));
        }
        let ghost lib0 = self.obj_library;
        let new_obj_id = self.obj_library.add_obj(screen_id, obj);
        proof {
            assert(self.obj_library.has_key(DrawObjectKey { screen_id, object_id: new_obj_id }));
            assert(!self.screens@[screen_id as int].draw_objects@.contains(new_obj_id)) by {
                if self.screens@[screen_id as int].draw_objects@.contains(new_obj_id) {
                    let j = choose|j: int| 0 <= j < self.screens@[screen_id as int].draw_objects@.len()
                        && self.screens@[screen_id as int].draw_objects@[j] == new_obj_id;
                    assert(self.screens@[screen_id as int].draw_objects@[j] < lib0.slots().len());
                }
            }
        }
        let ghost screens0 = self.screens@;
        self.screens[screen_id].register_drawable(new_obj_id, &self.obj_library);
        proof {
            assert forall|i: int|
                0 <= i < self.obj_library.slots().len() && (#[trigger] self.obj_library.slots()[i]) is Some implies self.obj_library.slots()[i]->Some_0.1.ok(
                self.sprites,
            ) by {
                if i < lib0.slots().len() {
                    assert(self.obj_library.slots()[i] == lib0.slots()[i]);
                }
            }
            assert forall|i: int| 0 <= i < self.screens@.len() implies {
                &&& (#[trigger] self.screens@[i]).spec_id() == i
                &&& self.screens@[i].wf()
                &&& self.screens@[i].terminal_size == self.terminal_size
                &&& forall|j: int|
                    0 <= j < self.screens@[i].draw_objects@.len() ==> #[trigger] self.screens@[i].draw_objects@[j]
                        < self.obj_library.slots().len()
            } by {
                if i != screen_id {
                    assert(self.screens@[i] == screens0[i]);
                } else {
                    assert forall|j: int| 0 <= j < self.screens@[i].draw_objects@.len() implies #[trigger] self.screens@[i].draw_objects@[j]
                        < self.obj_library.slots().len() by {
                        if j < screens0[i].draw_objects@.len() {
                            assert(self.screens@[i].draw_objects@[j] == screens0[i].draw_objects@[j]);
                        }
                    }
                }
            }
        }
        self.refresh();
        Ok(DrawObjectKey { screen_id, object_id: new_obj_id })
    }

    /// Takes the object out of the buffer (see `Screen::remove_drawable`)
    /// and refreshes. It stays registered and in the library. A missing
    /// screen or object is an error and changes nothing.
    pub fn remove_drawable(&mut self, id: DrawObjectKey) -> (r: Result<(), DrawError>)
        requires
            old(self).wf(),
        ensures
            final(self).wf(),
            final(self).spec_screens() == old(self).spec_screens(),
            final(self).spec_library() == old(self).spec_library(),
            final(self).spec_sprites() == old(self).spec_sprites(),
            final(self).spec_mode() == old(self).spec_mode(),
            final(self).spec_expand() == old(self).spec_expand(),
            final(self).spec_terminal_size() == old(self).spec_terminal_size(),
            id.screen_id >= old(self).spec_screens().len() ==> r == Err::<(), DrawError>(
                DrawError::DisplayKeyNotFound(id.screen_id),
            ) && *final(self) == *old(self),
            id.screen_id < old(self).spec_screens().len() && !old(self).spec_library().has_key(id) ==> r
                == Err::<(), DrawError>(DrawError::DrawableHandleNotFound { screen_id: id.screen_id, obj_id: id.object_id })
                && final(self).spec_buffer() == old(self).spec_buffer() && final(self).spec_pending() == old(self).spec_pending(),
            id.screen_id < old(self).spec_screens().len() && old(self).spec_library().has_key(id) ==> r is Ok
                && exists|b1: ScreenBuffer|
                removed_where(
                    old(self).spec_buffer().spec_cells(),
                    b1.spec_cells(),
                    id.object_id,
                    |idx: int|
                        map_covers(
                            old(self).spec_library().object_at(id).drawable.spec_bounding(old(self).spec_sprites()),
                            idx,
                            old(self).spec_terminal_size().0 as int,
                            old(self).spec_terminal_size().1 as int,
                        ),
                ) && #[trigger] spec_refreshed(
                    old(self).spec_mode(),
                    old(self).spec_expand(),
                    b1,
                    old(self).spec_pending(),
                    final(self).spec_buffer(),
                    final(self).spec_pending(),
                ),
    {
        if id.screen_id >= self.screens.len() {
            return Err(DrawError::DisplayKeyNotFound(id.screen_id));
        }
        assert(self.screens@[id.screen_id as int].spec_id() == id.screen_id);
        let ghost screens0 = self.screens@;
        match self.screens[id.screen_id].remove_drawable(id.object_id, &mut self.screen_buffer, &self.obj_library, &self.sprites) {
            Ok(()) => {},
            Err(e) => {
                assert(self.screens@ =~= screens0);
                return Err(e);
            },
        }
        assert(self.screens@ =~= screens0);
        let ghost b1 = self.screen_buffer;
        self.refresh();
        assert(spec_refreshed(old(self).spec_mode(), old(self).spec_expand(), b1, old(self).spec_pending(), self.spec_buffer(), self.spec_pending()));
        Ok(())
    }

    /// Going from `self` to `after`, the objects under the keys of `gone`
    /// were taken out of the buffer (see `cleared`): commands were only
    /// added to the queue, and none in buffered mode.
    pub open spec fn spec_cleared(&self, after: Renderer, gone: Set<DrawObjectKey>) -> bool {
        &&& cleared(
            self.spec_buffer().spec_cells(),
            after.spec_buffer().spec_cells(),
            gone,
            self.spec_library(),
            self.spec_sprites(),
            self.spec_terminal_size(),
        )
        &&& after.spec_pending().len() >= self.spec_pending().len()
        &&& after.spec_pending().take(self.spec_pending().len() as int) == self.spec_pending()
        &&& self.spec_mode() == RenderMode::Buffered ==> after.spec_pending() == self.spec_pending()
    }

    /// What unregistering `id` did, going from `self` to `after` (see
    /// `explicit_remove_drawable`): a missing screen changes nothing, else
    /// exactly that key is no longer registered.
    pub open spec fn deregistered(&self, after: Renderer, id: DrawObjectKey) -> bool {
        &&& id.screen_id >= self.spec_screens().len() ==> after == *self
        &&& id.screen_id < self.spec_screens().len() ==> forall|k: DrawObjectKey| #[trigger] after.is_registered(k) <==> (
        self.is_registered(k) && k != id)
    }

    /// Unregisters the object from its screen, then removes it from the
    /// buffer (see `remove_drawable`). A missing screen is an error and
    /// changes nothing.
    pub fn explicit_remove_drawable(&mut self, id: &DrawObjectKey) -> (r: Result<(), DrawError>)
        requires
            old(self).wf(),
        ensures
            final(self).wf(),
            final(self).spec_library() == old(self).spec_library(),
            final(self).spec_sprites() == old(self).spec_sprites(),
            final(self).spec_mode() == old(self).spec_mode(),
            final(self).spec_terminal_size() == old(self).spec_terminal_size(),
            final(self).spec_screens().len() == old(self).spec_screens().len(),
            id.screen_id >= old(self).spec_screens().len() ==> r == Err::<(), DrawError>(
                DrawError::DisplayKeyNotFound(id.screen_id),
            ) && *final(self) == *old(self),
            id.screen_id < old(self).spec_screens().len() ==> {
                &&& !final(self).spec_screens()[id.screen_id as int].draw_objects@.contains(id.object_id)
                &&& forall|i: int| 0 <= i < old(self).spec_screens().len() && i != id.screen_id ==> #[trigger] final(self).spec_screens()[i] == old(self).spec_screens()[i]
                &&& (r is Ok <==> old(self).spec_library().has_key(*id))
                &&& (!old(self).spec_library().has_key(*id) ==> r == Err::<(), DrawError>(
                    DrawError::DrawableHandleNotFound { screen_id: id.screen_id, obj_id: id.object_id },
                ))
                &&& forall|k: DrawObjectKey| #[trigger] final(self).is_registered(k) <==> (old(self).is_registered(k) && k != *id)
            },
            old(self).deregistered(*final(self), *id),
            id.screen_id < old(self).spec_screens().len() && old(self).spec_library().has_key(*id) ==> old(self).spec_cleared(
                *final(self),
                set![*id],
            ),
    {
        if id.screen_id >= self.screens.len() {
            return Err(DrawError::DisplayKeyNotFound(id.screen_id));
        }
        let ghost screens0 = self.screens@;
        self.screens[id.screen_id].deregister_drawable(id.object_id);
        proof {
            assert forall|i: int| 0 <= i < self.screens@.len() implies {
                &&& (#[trigger] self.screens@[i]).spec_id() == i
                &&& self.screens@[i].wf()
                &&& self.screens@[i].terminal_size == self.terminal_size
                &&& forall|j: int|
                    0 <= j < self.screens@[i].draw_objects@.len() ==> #[trigger] self.screens@[i].draw_objects@[j]
                        < self.obj_library.slots().len()
            } by {
                if i != id.screen_id {
                    assert(self.screens@[i] == screens0[i]);
                } else {
                    let old_objs = screens0[i].draw_objects@;
                    if old_objs.contains(id.object_id) {
                        let k = choose|k: int| 0 <= k < old_objs.len() && old_objs[k] == id.object_id
                            && self.screens@[i].draw_objects@ == old_objs.remove(k);
                        assert forall|j: int| 0 <= j < self.screens@[i].draw_objects@.len() implies #[trigger] self.screens@[i].draw_objects@[j]
                            < self.obj_library.slots().len() by {
                            if j < k {
                                assert(self.screens@[i].draw_objects@[j] == old_objs[j]);
                            } else {
                                assert(self.screens@[i].draw_objects@[j] == old_objs[j + 1]);
                            }
                        }
                    }
                }
            }
        }
        proof {
            let sid = id.screen_id as int;
            let before = screens0[sid].draw_objects@;
            let after = self.screens@[sid].draw_objects@;
            assert forall|o: usize| o != id.object_id implies (after.contains(o) <==> before.contains(o)) by {
                if before.contains(id.object_id) {
                    let k = choose|k: int| 0 <= k < before.len() && before[k] == id.object_id && after == before.remove(k);
                    lemma_remove_contains(before, k, o);
                }
            }
        }
        let ghost s1 = *self;
        let r = self.remove_drawable(*id);
        proof {
            if old(self).spec_library().has_key(*id) {
                let oid = id.object_id;
                let lib = old(self).spec_library();
                let sprites = old(self).spec_sprites();
                let size = old(self).spec_terminal_size();
                let cover = |idx: int|
                    map_covers(lib.object_at(*id).drawable.spec_bounding(sprites), idx, size.0 as int, size.1 as int);
                let b1 = choose|b1: ScreenBuffer|
                    removed_where(s1.spec_buffer().spec_cells(), b1.spec_cells(), oid, cover) && #[trigger] spec_refreshed(
                        s1.spec_mode(),
                        s1.spec_expand(),
                        b1,
                        s1.spec_pending(),
                        self.spec_buffer(),
                        self.spec_pending(),
                    );
                assert(self.spec_buffer().spec_cells() == b1.spec_cells());
                let c0 = old(self).spec_buffer().spec_cells();
                let c1 = self.spec_buffer().spec_cells();
                assert forall|idx: int| 0 <= idx < c0.len() implies #[trigger] c1[idx] == c0[idx].remove_keys(
                    gone_at(set![*id], lib, sprites, size, idx),
                ) by {
                    if cover(idx) {
                        assert(gone_at(set![*id], lib, sprites, size, idx) =~= set![oid]) by {
                            assert(set![*id].contains(*id));
                        }
                        assert(c0[idx].remove_keys(set![oid]) =~= c0[idx].remove(oid));
                    } else {
                        assert(gone_at(set![*id], lib, sprites, size, idx) =~= Set::<usize>::empty()) by {
                            assert forall|i2: usize| !gone_covers(set![*id], lib, sprites, size, i2, idx) by {
                                if gone_covers(set![*id], lib, sprites, size, i2, idx) {
                                    let k = choose|k: DrawObjectKey|
                                        #[trigger] set![*id].contains(k) && k.object_id == i2 && map_covers(
                                            lib.object_at(k).drawable.spec_bounding(sprites),
                                            idx,
                                            size.0 as int,
                                            size.1 as int,
                                        );
                                    assert(k == *id);
                                }
                            }
                        }
                        assert(c0[idx].remove_keys(Set::<usize>::empty()) =~= c0[idx]);
                    }
                }
                assert(self.spec_pending().take(old(self).spec_pending().len() as int) =~= old(self).spec_pending());
            }
        }
        r
    }

    /// Every registered object of every screen is in the library and
    /// draws surely (see `Drawable::draws_surely`).
    pub open spec fn draws_surely(&self) -> bool {
        forall|i: int| 0 <= i < self.spec_screens().len() ==> (#[trigger] self.spec_screens()[i]).draws_surely(
            self.spec_library(),
            self.spec_sprites(),
        )
    }

    /// What a successful `render_all` did, going from `self` to `after`:
    /// the screens were drawn one after the other, each drawing all its
    /// registered objects in order (see `Screen::all_drawn_from`, which
    /// follows `ScreenBuffer::add_to_buffer`), passing the buffer and the
    /// library on; then the dirty regions of the resulting buffer were
    /// written and the commands queued (see `spec_update`).
    pub open spec fn spec_rendered_all(&self, after: Renderer) -> bool {
        &&& after.spec_screens() == self.spec_screens()
        &&& after.spec_sprites() == self.spec_sprites()
        &&& after.spec_mode() == self.spec_mode()
        &&& after.spec_expand() == self.spec_expand()
        &&& after.spec_terminal_size() == self.spec_terminal_size()
        &&& exists|bs: Seq<ScreenBuffer>, ls: Seq<DrawObjectLibrary>|
            #[trigger] screens_drawn(self.spec_screens(), bs, ls, self.spec_sprites()) && bs[0] == self.spec_buffer()
                && ls[0] == self.spec_library() && ls.last() == after.spec_library() && spec_refreshed(
                RenderMode::Instant,
                self.spec_expand(),
                bs.last(),
                self.spec_pending(),
                after.spec_buffer(),
                after.spec_pending(),
            )
    }

    /// Draws every registered object of every screen, in key order,
    /// stopping at the first error; then writes the dirty regions. When
    /// every registered object draws surely, this succeeds.
    pub fn render_all(&mut self) -> (r: Result<(), DrawError>)
        requires
            old(self).wf(),
        ensures
            final(self).wf(),
            final(self).spec_screens() == old(self).spec_screens(),
            final(self).spec_sprites() == old(self).spec_sprites(),
            final(self).spec_mode() == old(self).spec_mode(),
            final(self).spec_terminal_size() == old(self).spec_terminal_size(),
            final(self).spec_library().slots().len() == old(self).spec_library().slots().len(),
            forall|k: DrawObjectKey| old(self).spec_library().has_key(k) <==> #[trigger] final(self).spec_library().has_key(k),
            r is Ok ==> forall|i: int, j: int|
                0 <= i < old(self).spec_screens().len() && 0 <= j < old(self).spec_screens()[i].draw_objects@.len()
                    ==> old(self).spec_library().has_key(
                    DrawObjectKey { screen_id: i as usize, object_id: #[trigger] old(self).spec_screens()[i].draw_objects@[j] },
                ),
            r is Ok ==> final(self).spec_buffer().spec_intervals().len() == 0,
            old(self).draws_surely() ==> r is Ok,
            r is Ok ==> old(self).spec_rendered_all(*final(self)),
    {
        let n = self.screens.len();
        let ghost screens0 = self.screens@;
        let ghost lib0 = self.obj_library;
        let ghost mut bs: Seq<ScreenBuffer> = seq![self.screen_buffer];
        let ghost mut ls: Seq<DrawObjectLibrary> = seq![self.obj_library];
        let mut i: usize = 0;
        while i < n
            invariant
                self.wf(),
                n == self.screens@.len(),
                self.screens@ == screens0,
                screens0 == old(self).spec_screens(),
                lib0 == old(self).spec_library(),
                self.sprites == old(self).spec_sprites(),
                self.render_mode == old(self).spec_mode(),
                self.terminal_size == old(self).spec_terminal_size(),
                self.obj_library.slots().len() == lib0.slots().len(),
                forall|k: DrawObjectKey| lib0.has_key(k) <==> #[trigger] self.obj_library.has_key(k),
                0 <= i <= n,
                forall|a: int, j: int|
                    0 <= a < i && 0 <= j < screens0[a].draw_objects@.len() ==> lib0.has_key(
                        DrawObjectKey { screen_id: a as usize, object_id: #[trigger] screens0[a].draw_objects@[j] },
                    ),
                old(self).draws_surely() ==> forall|a: int| i <= a < n ==> (#[trigger] screens0[a]).draws_surely(self.obj_library, self.sprites),
                self.update_interval_expand_amount == old(self).spec_expand(),
                self.pending@ == old(self).spec_pending(),
                bs.len() == i + 1,
                ls.len() == i + 1,
                bs[0] == old(self).spec_buffer(),
                ls[0] == old(self).spec_library(),
                bs.last() == self.screen_buffer,
                ls.last() == self.obj_library,
                forall|a: int| 0 <= a < i ==> #[trigger] screens0[a].all_drawn_from(bs[a], ls[a], self.sprites, bs[a + 1], ls[a + 1]),
            decreases n - i,
        {
            let ghost lib1 = self.obj_library;
            let ghost buf1 = self.screen_buffer;
            proof {
                if old(self).draws_surely() {
                    assert(screens0[i as int].draws_surely(lib1, self.sprites));
                }
            }
            let r = self.screens[i].render_all(&mut self.screen_buffer, &mut self.obj_library, &self.sprites);
            assert(self.screens@ =~= screens0);
            proof {
                assert(screens0[i as int].spec_id() == i);
                assert forall|k: DrawObjectKey| lib0.has_key(k) <==> #[trigger] self.obj_library.has_key(k) by {
                    assert(lib1.has_key(k) == self.obj_library.has_key(k));
                }
                assert forall|i2: int| 0 <= i2 < self.screens@.len() implies {
                    &&& (#[trigger] self.screens@[i2]).spec_id() == i2
                    &&& self.screens@[i2].wf()
                    &&& self.screens@[i2].terminal_size == self.terminal_size
                    &&& forall|j: int|
                        0 <= j < self.screens@[i2].draw_objects@.len() ==> #[trigger] self.screens@[i2].draw_objects@[j]
                            < self.obj_library.slots().len()
                } by {
                }
            }
            match r {
                Ok(()) => {},
                Err(e) => {
                    return Err(e);
                },
            }
            proof {
                if old(self).draws_surely() {
                    assert forall|a: int| i + 1 <= a < n implies (#[trigger] screens0[a]).draws_surely(self.obj_library, self.sprites) by {
                        assert(screens0[a].draws_surely(lib1, self.sprites));
                        lemma_screen_keeps_drawing_surely(screens0[a], lib1, self.obj_library, self.sprites);
                    }
                }
                let bs0 = bs;
                let ls0 = ls;
                bs = bs.push(self.screen_buffer);
                ls = ls.push(self.obj_library);
                assert forall|a: int| 0 <= a < i + 1 implies #[trigger] screens0[a].all_drawn_from(bs[a], ls[a], self.sprites, bs[a + 1], ls[a + 1]) by {
                    if a < i {
                        assert(screens0[a].all_drawn_from(bs0[a], ls0[a], self.sprites, bs0[a + 1], ls0[a + 1]));
                    } else {
                        assert(bs[a] == buf1 && ls[a] == lib1);
                    }
                }
                assert forall|a: int, j: int|
                    0 <= a < i + 1 && 0 <= j < screens0[a].draw_objects@.len() implies lib0.has_key(
                        DrawObjectKey { screen_id: a as usize, object_id: #[trigger] screens0[a].draw_objects@[j] },
                    ) by {
                    if a == i {
                        assert(lib1.has_key(DrawObjectKey { screen_id: a as usize, object_id: screens0[a].draw_objects@[j] }));
                    }
                }
            }
            i += 1;
        }
        let ghost before_refresh = *self;
        self.forced_refresh();
        proof {
            assert(spec_refreshed(
                RenderMode::Instant,
                old(self).spec_expand(),
                bs.last(),
                old(self).spec_pending(),
                self.spec_buffer(),
                self.spec_pending(),
            ));
            assert(screens_drawn(old(self).spec_screens(), bs, ls, old(self).spec_sprites()));
            assert(ls.last() == self.spec_library());
            assert(bs[0] == old(self).spec_buffer() && ls[0] == old(self).spec_library());
        }
        Ok(())
    }

    /// The object under `key` can take the change and stays usable after
    /// it (objects missing from the library are not constrained).
    pub open spec fn op_ok(&self, key: DrawObjectKey, op: DrawableOp) -> bool {
        self.spec_library().has_key(key) ==> {
            let o = self.spec_library().object_at(key);
            &&& op.applicable(o.drawable)
            &&& (DrawObject { drawable: op.spec_apply(o.drawable), ..o }).ok(self.spec_sprites())
        }
    }

    /// Whether `update_drawable(key, op)` may be called (see `op_ok`).
    pub fn check_op(&self, key: DrawObjectKey, op: DrawableOp) -> (b: bool)
        ensures
            b == self.op_ok(key, op),
    {
        match self.obj_library.find_drawable(&key) {
            Some(o) => op.check(&o.drawable, &self.sprites),
            None => true,
        }
    }

    /// Whether `replace_drawable_points(key, pts)` may be called (see
    /// `points_ok`).
    pub fn check_points(&self, key: DrawObjectKey, pts: &Vec<Point>) -> (b: bool)
        ensures
            b == self.points_ok(key, pts@),
    {
        match self.obj_library.find_drawable(&key) {
            Some(o) => o.drawable.check_replace_points(pts, &self.sprites),
            None => true,
        }
    }

    /// Whether a drawable can be registered or swapped in with the sprites
    /// held now (see `Drawable::check_usable`).
    pub fn check_drawable(&self, d: &crate::drawables::Drawable) -> (b: bool)
        ensures
            b == (d.draw_ok(self.spec_sprites()) && d.bounding_ok() && d.size_ok()),
    {
        d.check_usable(&self.sprites)
    }

    /// Takes the object out of the buffer, changes its drawable, puts it
    /// back into the library, and in instant mode registers and refreshes
    /// it again (see `render_drawable`). Missing screens and objects are
    /// errors (as for `remove_drawable`).
    pub fn update_drawable(&mut self, handle: DrawObjectKey, op: DrawableOp) -> (r: Result<Option<usize>, DrawError>)
        requires
            old(self).wf(),
            old(self).op_ok(handle, op),
        ensures
            final(self).wf(),
            final(self).spec_sprites() == old(self).spec_sprites(),
            final(self).spec_mode() == old(self).spec_mode(),
            final(self).spec_terminal_size() == old(self).spec_terminal_size(),
            handle.screen_id >= old(self).spec_screens().len() ==> r == Err::<Option<usize>, DrawError>(
                DrawError::DisplayKeyNotFound(handle.screen_id),
            ) && *final(self) == *old(self),
            handle.screen_id < old(self).spec_screens().len() && !old(self).spec_library().has_key(handle) ==> r
                == Err::<Option<usize>, DrawError>(
                DrawError::DrawableHandleNotFound { screen_id: handle.screen_id, obj_id: handle.object_id },
            ),
            handle.screen_id < old(self).spec_screens().len() && old(self).spec_library().has_key(handle) ==> {
                let o = old(self).spec_library().object_at(handle);
                &&& r is Ok
                &&& final(self).spec_library().has_key(handle)
                &&& final(self).spec_library().object_at(handle).drawable == op.spec_apply(o.drawable)
                &&& final(self).spec_library().object_at(handle).layer == o.layer
                &&& final(self).spec_library().object_at(handle).shaders == o.shaders
                &&& (op is CountPoints && o.drawable.spec_corners() is Some ==> r == Ok::<Option<usize>, DrawError>(Some(2usize)))
                &&& (op is CountPoints && o.drawable.spec_position() is Some ==> r == Ok::<Option<usize>, DrawError>(Some(1usize)))
                &&& (!(op is CountPoints) ==> r == Ok::<Option<usize>, DrawError>(None))
            },
    {
        match self.remove_drawable(handle) {
            Ok(()) => {},
            Err(e) => {
                return Err(e);
            },
        }
        let mut obj = match self.obj_library.take(&handle) {
            Some(o) => o,
            None => {
                return Err(DrawError::DrawableHandleNotFound { screen_id: handle.screen_id, obj_id: handle.object_id });
            },
        };
        let ghost lib_taken = self.obj_library;
        proof {
            assert(old(self).spec_library().slots()[handle.object_id as int] is Some);
        }
        let result = op.apply(&mut obj.drawable);
        self.obj_library.restore(&handle, obj);
        proof {
            assert(self.obj_library.has_key(handle));
            assert forall|i: int|
                0 <= i < self.obj_library.slots().len() && (#[trigger] self.obj_library.slots()[i]) is Some implies self.obj_library.slots()[i]->Some_0.1.ok(
                self.sprites,
            ) by {
                if i != handle.object_id {
                    assert(self.obj_library.slots()[i] == old(self).spec_library().slots()[i]);
                }
            }
        }
        match self.render_mode {
            RenderMode::Instant => {
                let ghost lib1 = self.obj_library;
                match self.render_drawable(handle) {
                    Ok(()) => {},
                    Err(e) => {
                        return Err(e);
                    },
                }
            },
            RenderMode::Buffered => {},
        }
        Ok(result)
    }

    /// Gives an object a new drawable: takes it off its screen and out of
    /// the buffer, swaps the drawable, then registers and draws it again.
    /// A missing screen or object is an error.
    pub fn replace_drawable(&mut self, id: DrawObjectKey, drawable: crate::drawables::Drawable) -> (r: Result<(), DrawError>)
        requires
            old(self).wf(),
            drawable.draw_ok(old(self).spec_sprites()),
            drawable.bounding_ok(),
            drawable.size_ok(),
        ensures
            final(self).wf(),
            final(self).spec_sprites() == old(self).spec_sprites(),
            final(self).spec_mode() == old(self).spec_mode(),
            final(self).spec_terminal_size() == old(self).spec_terminal_size(),
            id.screen_id >= old(self).spec_screens().len() ==> r == Err::<(), DrawError>(DrawError::DisplayKeyNotFound(id.screen_id))
                && *final(self) == *old(self),
            id.screen_id < old(self).spec_screens().len() && !old(self).spec_library().has_key(id) ==> r == Err::<(), DrawError>(
                DrawError::DrawableHandleNotFound { screen_id: id.screen_id, obj_id: id.object_id },
            ),
            id.screen_id < old(self).spec_screens().len() && old(self).spec_library().has_key(id) ==> {
                let o = old(self).spec_library().object_at(id);
                &&& r is Ok
                &&& final(self).spec_library().has_key(id)
                &&& final(self).spec_library().object_at(id).drawable == drawable
                &&& final(self).spec_library().object_at(id).layer == o.layer
                &&& final(self).spec_library().object_at(id).shaders == o.shaders
                &&& final(self).spec_screens()[id.screen_id as int].draw_objects@.contains(id.object_id)
            },
    {
        match self.explicit_remove_drawable(&id) {
            Ok(()) => {},
            Err(e) => {
                return Err(e);
            },
        }
        let mut obj = match self.obj_library.take(&id) {
            Some(o) => o,
            None => {
                return Err(DrawError::DrawableHandleNotFound { screen_id: id.screen_id, obj_id: id.object_id });
            },
        };
        proof {
            assert(old(self).spec_library().slots()[id.object_id as int] is Some);
        }
        obj.drawable = drawable;
        self.obj_library.restore(&id, obj);
        proof {
            assert(self.obj_library.has_key(id));
            assert forall|i: int|
                0 <= i < self.obj_library.slots().len() && (#[trigger] self.obj_library.slots()[i]) is Some implies self.obj_library.slots()[i]->Some_0.1.ok(
                self.sprites,
            ) by {
                if i != id.object_id {
                    assert(self.obj_library.slots()[i] == old(self).spec_library().slots()[i]);
                }
            }
        }
        self.render_drawable(id)
    }

    /// The object under `key` can take the new points and stays usable
    /// after it (objects missing from the library are not constrained).
    pub open spec fn points_ok(&self, key: DrawObjectKey, pts: Seq<Point>) -> bool {
        self.spec_library().has_key(key) ==> {
            let o = self.spec_library().object_at(key);
            &&& o.drawable.replace_points_ok(pts)
            &&& (DrawObject { drawable: o.drawable.spec_replace_points(pts), ..o }).ok(self.spec_sprites())
        }
    }

    /// Takes the object out of the buffer, gives its drawable the new
    /// points (see `Drawable::replace_points`), puts it back, and in
    /// instant mode registers and refreshes it again. Missing screens and
    /// objects are errors (as for `remove_drawable`).
    pub fn replace_drawable_points(&mut self, handle: DrawObjectKey, new_points: Vec<Point>) -> (r: Result<(), DrawError>)
        requires
            old(self).wf(),
            old(self).points_ok(handle, new_points@),
        ensures
            final(self).wf(),
            final(self).spec_sprites() == old(self).spec_sprites(),
            final(self).spec_mode() == old(self).spec_mode(),
            final(self).spec_terminal_size() == old(self).spec_terminal_size(),
            handle.screen_id >= old(self).spec_screens().len() ==> r == Err::<(), DrawError>(
                DrawError::DisplayKeyNotFound(handle.screen_id),
            ) && *final(self) == *old(self),
            handle.screen_id < old(self).spec_screens().len() && !old(self).spec_library().has_key(handle) ==> r
                == Err::<(), DrawError>(
                DrawError::DrawableHandleNotFound { screen_id: handle.screen_id, obj_id: handle.object_id },
            ),
            handle.screen_id < old(self).spec_screens().len() && old(self).spec_library().has_key(handle) ==> {
                let o = old(self).spec_library().object_at(handle);
                &&& r is Ok
                &&& final(self).spec_library().has_key(handle)
                &&& final(self).spec_library().object_at(handle).drawable == o.drawable.spec_replace_points(new_points@)
                &&& final(self).spec_library().object_at(handle).layer == o.layer
                &&& final(self).spec_library().object_at(handle).shaders == o.shaders
            },
    {
        match self.remove_drawable(handle) {
            Ok(()) => {},
            Err(e) => {
                return Err(e);
            },
        }
        let mut obj = match self.obj_library.take(&handle) {
            Some(o) => o,
            None => {
                return Err(DrawError::DrawableHandleNotFound { screen_id: handle.screen_id, obj_id: handle.object_id });
            },
        };
        proof {
            assert(old(self).spec_library().slots()[handle.object_id as int] is Some);
        }
        obj.drawable.replace_points(&new_points);
        self.obj_library.restore(&handle, obj);
        proof {
            assert(self.obj_library.has_key(handle));
            assert forall|i: int|
                0 <= i < self.obj_library.slots().len() && (#[trigger] self.obj_library.slots()[i]) is Some implies self.obj_library.slots()[i]->Some_0.1.ok(
                self.sprites,
            ) by {
                if i != handle.object_id {
                    assert(self.obj_library.slots()[i] == old(self).spec_library().slots()[i]);
                }
            }
        }
        match self.render_mode {
            RenderMode::Instant => {
                match self.render_drawable(handle) {
                    Ok(()) => {},
                    Err(e) => {
                        return Err(e);
                    },
                }
            },
            RenderMode::Buffered => {},
        }
        Ok(())
    }

    /// Moves point `point_index` of a drawable defined by many points.
    /// None of the standard drawables is, so the drawable is kept; it is
    /// taken out of the buffer and, in instant mode, drawn again (as by
    /// `update_drawable`).
    pub fn move_multipoint_drawable_point(&mut self, handle: DrawObjectKey, point_index: usize, new_pos: Point) -> (r: Result<(), DrawError>)
        requires
            old(self).wf(),
        ensures
            final(self).wf(),
            handle.screen_id >= old(self).spec_screens().len() ==> r == Err::<(), DrawError>(DrawError::DisplayKeyNotFound(handle.screen_id)),
            handle.screen_id < old(self).spec_screens().len() && !old(self).spec_library().has_key(handle) ==> r
                == Err::<(), DrawError>(DrawError::DrawableHandleNotFound { screen_id: handle.screen_id, obj_id: handle.object_id }),
            handle.screen_id < old(self).spec_screens().len() && old(self).spec_library().has_key(handle) ==> r is Ok
                && final(self).spec_library().object_at(handle).drawable == old(self).spec_library().object_at(handle).drawable,
    {
        match self.update_drawable(handle, DrawableOp::CountPoints) {
            Ok(_) => Ok(()),
            Err(e) => Err(e),
        }
    }

    /// `update_drawable` with `DrawableOp::MoveTo`.
    pub fn move_drawable_to(&mut self, handle: DrawObjectKey, new_pos: Point) -> (r: Result<(), DrawError>)
        requires
            old(self).wf(),
            old(self).op_ok(handle, DrawableOp::MoveTo(new_pos)),
        ensures
            final(self).wf(),
            handle.screen_id >= old(self).spec_screens().len() ==> r == Err::<(), DrawError>(DrawError::DisplayKeyNotFound(handle.screen_id)),
            handle.screen_id < old(self).spec_screens().len() && !old(self).spec_library().has_key(handle) ==> r
                == Err::<(), DrawError>(DrawError::DrawableHandleNotFound { screen_id: handle.screen_id, obj_id: handle.object_id }),
            handle.screen_id < old(self).spec_screens().len() && old(self).spec_library().has_key(handle) ==> r is Ok
                && final(self).spec_library().object_at(handle).drawable == old(self).spec_library().object_at(handle).drawable.spec_move_to(new_pos),
    {
        match self.update_drawable(handle, DrawableOp::MoveTo(new_pos)) {
            Ok(_) => Ok(()),
            Err(e) => Err(e),
        }
    }

    /// `update_drawable` with `DrawableOp::MoveBy`.
    pub fn move_drawable_by(&mut self, handle: DrawObjectKey, dx: i32, dy: i32) -> (r: Result<(), DrawError>)
        requires
            old(self).wf(),
            old(self).op_ok(handle, DrawableOp::MoveBy(dx, dy)),
        ensures
            final(self).wf(),
            handle.screen_id >= old(self).spec_screens().len() ==> r == Err::<(), DrawError>(DrawError::DisplayKeyNotFound(handle.screen_id)),
            handle.screen_id < old(self).spec_screens().len() && !old(self).spec_library().has_key(handle) ==> r
                == Err::<(), DrawError>(DrawError::DrawableHandleNotFound { screen_id: handle.screen_id, obj_id: handle.object_id }),
            handle.screen_id < old(self).spec_screens().len() && old(self).spec_library().has_key(handle) ==> r is Ok
                && final(self).spec_library().object_at(handle).drawable == old(self).spec_library().object_at(handle).drawable.spec_move_by(dx, dy),
    {
        match self.update_drawable(handle, DrawableOp::MoveBy(dx, dy)) {
            Ok(_) => Ok(()),
            Err(e) => Err(e),
        }
    }

    /// `update_drawable` with `DrawableOp::MovePoint`.
    pub fn move_drawable_point(&mut self, handle: DrawObjectKey, point_index: usize, new_pos: Point) -> (r: Result<(), DrawError>)
        requires
            old(self).wf(),
            old(self).op_ok(handle, DrawableOp::MovePoint(point_index, new_pos)),
        ensures
            final(self).wf(),
            handle.screen_id >= old(self).spec_screens().len() ==> r == Err::<(), DrawError>(DrawError::DisplayKeyNotFound(handle.screen_id)),
            handle.screen_id < old(self).spec_screens().len() && !old(self).spec_library().has_key(handle) ==> r
                == Err::<(), DrawError>(DrawError::DrawableHandleNotFound { screen_id: handle.screen_id, obj_id: handle.object_id }),
            handle.screen_id < old(self).spec_screens().len() && old(self).spec_library().has_key(handle) ==> r is Ok
                && final(self).spec_library().object_at(handle).drawable == old(self).spec_library().object_at(handle).drawable.spec_move_point(point_index, new_pos),
    {
        match self.update_drawable(handle, DrawableOp::MovePoint(point_index, new_pos)) {
            Ok(_) => Ok(()),
            Err(e) => Err(e),
        }
    }

    /// `update_drawable` with `DrawableOp::CountPoints`: the number of
    /// points of the object's drawable.
    pub fn get_amount_of_points(&mut self, handle: DrawObjectKey) -> (r: Result<Option<usize>, DrawError>)
        requires
            old(self).wf(),
        ensures
            final(self).wf(),
            handle.screen_id >= old(self).spec_screens().len() ==> r == Err::<Option<usize>, DrawError>(DrawError::DisplayKeyNotFound(handle.screen_id)),
            handle.screen_id < old(self).spec_screens().len() && !old(self).spec_library().has_key(handle) ==> r
                == Err::<Option<usize>, DrawError>(DrawError::DrawableHandleNotFound { screen_id: handle.screen_id, obj_id: handle.object_id }),
            handle.screen_id < old(self).spec_screens().len() && old(self).spec_library().has_key(handle)
                && old(self).spec_library().object_at(handle).drawable.spec_corners() is Some ==> r == Ok::<Option<usize>, DrawError>(Some(2usize)),
            handle.screen_id < old(self).spec_screens().len() && old(self).spec_library().has_key(handle)
                && old(self).spec_library().object_at(handle).drawable.spec_position() is Some ==> r == Ok::<Option<usize>, DrawError>(Some(1usize)),
    {
        self.update_drawable(handle, DrawableOp::CountPoints)
    }

    /// Restarts the object's lifetime clock and registers it on its
    /// screen again, then refreshes. A missing screen is an error and
    /// changes nothing.
    pub fn render_drawable(&mut self, object_key: DrawObjectKey) -> (r: Result<(), DrawError>)
        requires
            old(self).wf(),
        ensures
            final(self).wf(),
            final(self).spec_sprites() == old(self).spec_sprites(),
            final(self).spec_mode() == old(self).spec_mode(),
            final(self).spec_terminal_size() == old(self).spec_terminal_size(),
            final(self).spec_screens().len() == old(self).spec_screens().len(),
            final(self).spec_library().slots().len() == old(self).spec_library().slots().len(),
            forall|k: DrawObjectKey| old(self).spec_library().has_key(k) <==> #[trigger] final(self).spec_library().has_key(k),
            forall|k: DrawObjectKey| #[trigger] old(self).spec_library().has_key(k) ==> {
                let o = old(self).spec_library().object_at(k);
                let n = final(self).spec_library().object_at(k);
                n.drawable == o.drawable && n.layer == o.layer && n.shaders == o.shaders
            },
            object_key.screen_id >= old(self).spec_screens().len() ==> r == Err::<(), DrawError>(
                DrawError::DisplayKeyNotFound(object_key.screen_id),
            ) && *final(self) == *old(self),
            object_key.screen_id < old(self).spec_screens().len() ==> r is Ok && (old(self).spec_library().has_key(object_key)
                ==> final(self).spec_screens()[object_key.screen_id as int].draw_objects@.contains(object_key.object_id)),
    {
        if object_key.screen_id >= self.screens.len() {
            return Err(DrawError::DisplayKeyNotFound(object_key.screen_id));
        }
        let ghost lib0 = self.obj_library;
        match self.obj_library.take(&object_key) {
            Some(mut obj) => {
                obj.creation_time = now();
                self.obj_library.restore(&object_key, obj);
                proof {
                    assert(lib0.slots()[object_key.object_id as int] is Some);
                }
            },
            None => {},
        }
        proof {
            assert forall|k: DrawObjectKey| lib0.has_key(k) <==> #[trigger] self.obj_library.has_key(k) by {
                if k.object_id == object_key.object_id && lib0.has_key(object_key) {
                    assert(self.obj_library.slots()[k.object_id as int] == Some((object_key.screen_id, self.obj_library.object_at(object_key))));
                }
            }
            assert forall|i: int|
                0 <= i < self.obj_library.slots().len() && (#[trigger] self.obj_library.slots()[i]) is Some implies self.obj_library.slots()[i]->Some_0.1.ok(
                self.sprites,
            ) by {
                if i != object_key.object_id || !lib0.has_key(object_key) {
                    assert(self.obj_library.slots()[i] == lib0.slots()[i]);
                }
            }
            assert forall|k: DrawObjectKey| #[trigger] lib0.has_key(k) implies {
                let o = lib0.object_at(k);
                let n = self.obj_library.object_at(k);
                n.drawable == o.drawable && n.layer == o.layer && n.shaders == o.shaders
            } by {
                if k.object_id != object_key.object_id || !lib0.has_key(object_key) {
                    assert(self.obj_library.slots()[k.object_id as int] == lib0.slots()[k.object_id as int]);
                }
            }
        }
        let ghost screens0 = self.screens@;
        self.screens[object_key.screen_id].register_drawable(object_key.object_id, &self.obj_library);
        proof {
            assert forall|i: int| 0 <= i < self.screens@.len() implies {
                &&& (#[trigger] self.screens@[i]).spec_id() == i
                &&& self.screens@[i].wf()
                &&& self.screens@[i].terminal_size == self.terminal_size
                &&& forall|j: int|
                    0 <= j < self.screens@[i].draw_objects@.len() ==> #[trigger] self.screens@[i].draw_objects@[j]
                        < self.obj_library.slots().len()
            } by {
                if i != object_key.screen_id {
                    assert(self.screens@[i] == screens0[i]);
                } else {
                    assert forall|j: int| 0 <= j < self.screens@[i].draw_objects@.len() implies #[trigger] self.screens@[i].draw_objects@[j]
                        < self.obj_library.slots().len() by {
                        if j < screens0[i].draw_objects@.len() {
                            assert(self.screens@[i].draw_objects@[j] == screens0[i].draw_objects@[j]);
                        }
                    }
                }
            }
            if lib0.has_key(object_key) {
                let objs = self.screens@[object_key.screen_id as int].draw_objects@;
                if !screens0[object_key.screen_id as int].draw_objects@.contains(object_key.object_id) {
                    assert(objs[objs.len() - 1] == object_key.object_id);
                }
            }
        }
        self.refresh();
        Ok(())
    }

    /// Screen `i`, with everything else of the renderer's screen invariant.
    proof fn lemma_screen_change_keeps_wf(&self, before: Seq<Screen>, i: int)
        requires
            0 <= i < before.len(),
            self.screens@.len() == before.len(),
            forall|k: int| 0 <= k < before.len() && k != i ==> #[trigger] self.screens@[k] == before[k],
            self.screens@[i].spec_id() == before[i].spec_id(),
            self.screens@[i].draw_objects == before[i].draw_objects,
            self.screens@[i].terminal_size == before[i].terminal_size,
            forall|k: int|
                0 <= k < before.len() ==> {
                    &&& (#[trigger] before[k]).spec_id() == k
                    &&& before[k].wf()
                    &&& before[k].terminal_size == self.terminal_size
                    &&& forall|j: int|
                        0 <= j < before[k].draw_objects@.len() ==> #[trigger] before[k].draw_objects@[j]
                            < self.obj_library.slots().len()
                },
        ensures
            forall|k: int|
                0 <= k < self.screens@.len() ==> {
                    &&& (#[trigger] self.screens@[k]).spec_id() == k
                    &&& self.screens@[k].wf()
                    &&& self.screens@[k].terminal_size == self.terminal_size
                    &&& forall|j: int|
                        0 <= j < self.screens@[k].draw_objects@.len() ==> #[trigger] self.screens@[k].draw_objects@[j]
                            < self.obj_library.slots().len()
                },
    {
        assert forall|k: int| 0 <= k < self.screens@.len() implies {
            &&& (#[trigger] self.screens@[k]).spec_id() == k
            &&& self.screens@[k].wf()
            &&& self.screens@[k].terminal_size == self.terminal_size
            &&& forall|j: int|
                0 <= j < self.screens@[k].draw_objects@.len() ==> #[trigger] self.screens@[k].draw_objects@[j]
                    < self.obj_library.slots().len()
        } by {
            if k == i {
                assert(before[k].wf());
            }
        }
    }

    /// Moves the screen to another layer: its objects are taken out of
    /// the buffer, the layer is changed, and they are drawn again; then a
    /// refresh. A missing screen, or an error while removing or drawing,
    /// is returned.
    pub fn change_screen_layer(&mut self, screen_id: usize, new_layer: usize) -> (r: Result<(), DrawError>)
        requires
            old(self).wf(),
        ensures
            final(self).wf(),
            final(self).spec_sprites() == old(self).spec_sprites(),
            final(self).spec_screens().len() == old(self).spec_screens().len(),
            screen_id >= old(self).spec_screens().len() ==> r == Err::<(), DrawError>(
                DrawError::DisplayKeyNotFound(screen_id),
            ) && *final(self) == *old(self),
            screen_id < old(self).spec_screens().len() && r is Ok ==> final(self).spec_screens()[screen_id as int].spec_layer()
                == new_layer,
            forall|i: int| 0 <= i < old(self).spec_screens().len() && i != screen_id ==> #[trigger] final(self).spec_screens()[i] == old(self).spec_screens()[i],
    {
        if screen_id >= self.screens.len() {
            return Err(DrawError::DisplayKeyNotFound(screen_id));
        }
        match self.screens[screen_id].remove_all(&mut self.screen_buffer, &self.obj_library, &self.sprites) {
            Ok(()) => {},
            Err(e) => {
                assert(self.screens@ =~= old(self).screens@);
                return Err(e);
            },
        }
        assert(self.screens@ =~= old(self).screens@);
        let ghost before = self.screens@;
        self.screens[screen_id].change_screen_layer(new_layer);
        proof {
            self.lemma_screen_change_keeps_wf(before, screen_id as int);
        }
        let ghost before2 = self.screens@;
        let ghost lib0 = self.obj_library;
        match self.screens[screen_id].render_all(&mut self.screen_buffer, &mut self.obj_library, &self.sprites) {
            Ok(()) => {},
            Err(e) => {
                assert(self.screens@ =~= before2);
                return Err(e);
            },
        }
        assert(self.screens@ =~= before2);
        self.refresh();
        Ok(())
    }

    /// Moves the screen to another area, like `change_screen_layer`.
    pub fn change_screen_area(&mut self, screen_id: usize, new_area: AreaRect) -> (r: Result<(), DrawError>)
        requires
            old(self).wf(),
        ensures
            final(self).wf(),
            final(self).spec_sprites() == old(self).spec_sprites(),
            final(self).spec_screens().len() == old(self).spec_screens().len(),
            screen_id >= old(self).spec_screens().len() ==> r == Err::<(), DrawError>(
                DrawError::DisplayKeyNotFound(screen_id),
            ) && *final(self) == *old(self),
            screen_id < old(self).spec_screens().len() && r is Ok ==> final(self).spec_screens()[screen_id as int].spec_area()
                == new_area,
            forall|i: int| 0 <= i < old(self).spec_screens().len() && i != screen_id ==> #[trigger] final(self).spec_screens()[i] == old(self).spec_screens()[i],
    {
        if screen_id >= self.screens.len() {
            return Err(DrawError::DisplayKeyNotFound(screen_id));
        }
        match self.screens[screen_id].remove_all(&mut self.screen_buffer, &self.obj_library, &self.sprites) {
            Ok(()) => {},
            Err(e) => {
                assert(self.screens@ =~= old(self).screens@);
                return Err(e);
            },
        }
        assert(self.screens@ =~= old(self).screens@);
        let ghost before = self.screens@;
        self.screens[screen_id].change_screen_area(new_area);
        proof {
            self.lemma_screen_change_keeps_wf(before, screen_id as int);
        }
        let ghost before2 = self.screens@;
        match self.screens[screen_id].render_all(&mut self.screen_buffer, &mut self.obj_library, &self.sprites) {
            Ok(()) => {},
            Err(e) => {
                assert(self.screens@ =~= before2);
                return Err(e);
            },
        }
        assert(self.screens@ =~= before2);
        self.refresh();
        Ok(())
    }

    /// Starts over with an empty buffer of the new size, marked all dirty,
    /// gives every screen the new size, and draws everything again (see
    /// `render_all`).
    pub fn handle_resize(&mut self, new_size: (u16, u16)) -> (r: Result<(), DrawError>)
        requires
            old(self).wf(),
        ensures
            final(self).wf(),
            final(self).spec_terminal_size() == new_size,
            final(self).spec_sprites() == old(self).spec_sprites(),
            final(self).spec_screens().len() == old(self).spec_screens().len(),
            forall|i: int|
                0 <= i < old(self).spec_screens().len() ==> (#[trigger] final(self).spec_screens()[i]).terminal_size == new_size
                    && final(self).spec_screens()[i].draw_objects == old(self).spec_screens()[i].draw_objects
                    && final(self).spec_screens()[i].spec_layer() == old(self).spec_screens()[i].spec_layer()
                    && final(self).spec_screens()[i].spec_area() == old(self).spec_screens()[i].spec_area(),
    {
        self.screen_buffer = ScreenBuffer::new(new_size);
        self.terminal_size = new_size;
        let n = self.screens.len();
        let ghost screens0 = self.screens@;
        let mut i: usize = 0;
        while i < n
            invariant
                n == self.screens@.len(),
                screens0 == old(self).screens@,
                self.terminal_size == new_size,
                self.screen_buffer.wf(),
                self.screen_buffer.spec_size() == new_size,
                self.sprites == old(self).sprites,
                self.obj_library == old(self).obj_library,
                self.obj_library.all_ok(self.sprites),
                self.sprites.wf(),
                0 <= i <= n,
                forall|k: int|
                    0 <= k < n ==> {
                        &&& (#[trigger] self.screens@[k]).spec_id() == k
                        &&& self.screens@[k].wf()
                        &&& self.screens@[k].draw_objects == screens0[k].draw_objects
                        &&& self.screens@[k].spec_layer() == screens0[k].spec_layer()
                        &&& self.screens@[k].spec_area() == screens0[k].spec_area()
                        &&& (k < i ==> self.screens@[k].terminal_size == new_size)
                        &&& forall|j: int|
                            0 <= j < self.screens@[k].draw_objects@.len() ==> #[trigger] self.screens@[k].draw_objects@[j]
                                < self.obj_library.slots().len()
                    },
            decreases n - i,
        {
            self.screens[i].terminal_size = new_size;
            i += 1;
        }
        self.screen_buffer.mark_all_dirty(new_size);
        let ghost s1 = self.screens@;
        let r = self.render_all();
        r
    }

    /// Draws everything and writes the dirty regions (see `render_all`),
    /// then removes the objects that live for one frame only, taking them
    /// out of the buffer (see `remove_all_framebased_objects`). When every
    /// registered object draws surely, this succeeds.
    pub fn render_frame(&mut self) -> (r: Result<(), DrawError>)
        requires
            old(self).wf(),
        ensures
            final(self).wf(),
            final(self).spec_sprites() == old(self).spec_sprites(),
            final(self).spec_mode() == old(self).spec_mode(),
            final(self).spec_terminal_size() == old(self).spec_terminal_size(),
            final(self).spec_screens().len() == old(self).spec_screens().len(),
            r is Ok ==> forall|k: DrawObjectKey|
                #[trigger] final(self).is_registered(k) && final(self).spec_library().has_key(k)
                    ==> !(final(self).spec_library().object_at(k).lifetime is RemoveNextFrame),
            old(self).draws_surely() ==> r is Ok,
            r is Ok ==> exists|mid: Renderer|
                #[trigger] old(self).spec_rendered_all(mid) && mid.spec_cleared(*final(self), mid.frame_based()) && forall|k: DrawObjectKey|
                    #[trigger] final(self).is_registered(k) <==> (mid.is_registered(k) && !mid.frame_based().contains(k)),
    {
        match self.render_all() {
            Ok(()) => {},
            Err(e) => {
                return Err(e);
            },
        }
        let ghost mid = *self;
        let r = self.remove_all_framebased_objects();
        proof {
            assert(old(self).spec_rendered_all(mid));
            assert forall|k: DrawObjectKey| #[trigger] self.is_registered(k) <==> (mid.is_registered(k) && !mid.frame_based().contains(k)) by {
                assert(self.is_registered(k) <==> (mid.is_registered(k) && !(mid.spec_library().has_key(k)
                    && mid.spec_library().object_at(k).lifetime is RemoveNextFrame)));
            }
        }
        r
    }

    /// The keys of the registered objects, screen by screen in key order,
    /// whose lifetime says they are to go (`RemoveNextFrame`, or
    /// `ForTime` with the time up when `timed`).
    fn expired_keys(&self, timed: bool) -> (keys: Vec<DrawObjectKey>)
        requires
            self.wf(),
        ensures
            forall|k: int|
                0 <= k < keys@.len() ==> {
                    &&& self.is_registered(#[trigger] keys@[k])
                    &&& self.spec_library().has_key(keys@[k])
                    &&& !timed ==> self.spec_library().object_at(keys@[k]).lifetime is RemoveNextFrame
                    &&& timed ==> self.spec_library().object_at(keys@[k]).lifetime is ForTime
                },
            !timed ==> forall|k: DrawObjectKey|
                self.is_registered(k) && self.spec_library().has_key(k) && self.spec_library().object_at(k).lifetime is RemoveNextFrame
                    ==> #[trigger] keys@.contains(k),
    {
        let mut keys: Vec<DrawObjectKey> = Vec::new();
        let n = self.screens.len();
        let mut sid: usize = 0;
        while sid < n
            invariant
                n == self.screens@.len(),
                0 <= sid <= n,
                forall|k: int|
                    0 <= k < keys@.len() ==> {
                        &&& self.is_registered(#[trigger] keys@[k])
                        &&& self.spec_library().has_key(keys@[k])
                        &&& !timed ==> self.spec_library().object_at(keys@[k]).lifetime is RemoveNextFrame
                        &&& timed ==> self.spec_library().object_at(keys@[k]).lifetime is ForTime
                    },
                !timed ==> forall|a: int, b: int|
                    0 <= a < sid && 0 <= b < self.screens@[a].draw_objects@.len() && self.spec_library().has_key(
                        DrawObjectKey { screen_id: a as usize, object_id: self.screens@[a].draw_objects@[b] },
                    ) && self.spec_library().object_at(
                        DrawObjectKey { screen_id: a as usize, object_id: self.screens@[a].draw_objects@[b] },
                    ).lifetime is RemoveNextFrame ==> keys@.contains(
                        DrawObjectKey { screen_id: a as usize, object_id: #[trigger] self.screens@[a].draw_objects@[b] },
                    ),
            decreases n - sid,
        {
            let objs = &self.screens[sid].draw_objects;
            let mut j: usize = 0;
            while j < objs.len()
                invariant
                    n == self.screens@.len(),
                    sid < n,
                    objs@ == self.screens@[sid as int].draw_objects@,
                    0 <= j <= objs@.len(),
                    forall|k: int|
                        0 <= k < keys@.len() ==> {
                            &&& self.is_registered(#[trigger] keys@[k])
                            &&& self.spec_library().has_key(keys@[k])
                            &&& !timed ==> self.spec_library().object_at(keys@[k]).lifetime is RemoveNextFrame
                            &&& timed ==> self.spec_library().object_at(keys@[k]).lifetime is ForTime
                        },
                    !timed ==> forall|a: int, b: int|
                        ((0 <= a < sid && 0 <= b < self.screens@[a].draw_objects@.len()) || (a == sid && 0 <= b < j))
                            && self.spec_library().has_key(
                            DrawObjectKey { screen_id: a as usize, object_id: self.screens@[a].draw_objects@[b] },
                        ) && self.spec_library().object_at(
                            DrawObjectKey { screen_id: a as usize, object_id: self.screens@[a].draw_objects@[b] },
                        ).lifetime is RemoveNextFrame ==> keys@.contains(
                            DrawObjectKey { screen_id: a as usize, object_id: #[trigger] self.screens@[a].draw_objects@[b] },
                        ),
                decreases objs@.len() - j,
            {
                let key = DrawObjectKey { screen_id: sid, object_id: objs[j] };
                let ghost keys0 = keys@;
                proof {
                    assert(self.is_registered(key)) by {
                        assert(objs@[j as int] == key.object_id);
                    }
                }
                match self.obj_library.find_drawable(&key) {
                    Some(obj) => {
                        let expired = match obj.lifetime {
                            ObjectLifetime::RemoveNextFrame => !timed,
                            ObjectLifetime::ForTime(dur) => {
                                if timed {
                                    let d = elapsed(&obj.creation_time);
                                    duration_at_least(&d, &dur)
                                } else {
                                    false
                                }
                            },
                            ObjectLifetime::ExplicitRemove => false,
                        };
                        if expired {
                            keys.push(key);
                            proof {
                                assert(keys@[keys@.len() - 1] == key);
                                assert forall|k: int| 0 <= k < keys@.len() implies {
                                    &&& self.is_registered(#[trigger] keys@[k])
                                    &&& self.spec_library().has_key(keys@[k])
                                    &&& !timed ==> self.spec_library().object_at(keys@[k]).lifetime is RemoveNextFrame
                                    &&& timed ==> self.spec_library().object_at(keys@[k]).lifetime is ForTime
                                } by {
                                    if k < keys0.len() {
                                        assert(keys@[k] == keys0[k]);
                                    }
                                }
                            }
                        }
                    },
                    None => {},
                }
                proof {
                    if !timed {
                        assert forall|a: int, b: int|
                            ((0 <= a < sid && 0 <= b < self.screens@[a].draw_objects@.len()) || (a == sid && 0 <= b < j + 1))
                                && self.spec_library().has_key(
                                DrawObjectKey { screen_id: a as usize, object_id: self.screens@[a].draw_objects@[b] },
                            ) && self.spec_library().object_at(
                                DrawObjectKey { screen_id: a as usize, object_id: self.screens@[a].draw_objects@[b] },
                            ).lifetime is RemoveNextFrame implies keys@.contains(
                                DrawObjectKey { screen_id: a as usize, object_id: #[trigger] self.screens@[a].draw_objects@[b] },
                            ) by {
                            let kk = DrawObjectKey { screen_id: a as usize, object_id: self.screens@[a].draw_objects@[b] };
                            if a == sid && b == j {
                                assert(kk == key);
                                assert(keys@[keys@.len() - 1] == key);
                            } else {
                                assert(keys0.contains(kk));
                                let i0 = choose|i0: int| 0 <= i0 < keys0.len() && keys0[i0] == kk;
                                assert(keys@[i0] == kk);
                            }
                        }
                    }
                }
                j += 1;
            }
            sid += 1;
        }
        proof {
            if !timed {
                assert forall|k: DrawObjectKey|
                    self.is_registered(k) && self.spec_library().has_key(k) && self.spec_library().object_at(k).lifetime is RemoveNextFrame
                        implies #[trigger] keys@.contains(k) by {
                    let a = k.screen_id as int;
                    let b = choose|b: int| 0 <= b < self.screens@[a].draw_objects@.len() && self.screens@[a].draw_objects@[b] == k.object_id;
                    assert(DrawObjectKey { screen_id: a as usize, object_id: self.screens@[a].draw_objects@[b] } == k);
                }
            }
        }
        keys
    }

    /// The key names a screen and an object of the library.
    pub open spec fn key_ok(&self, k: DrawObjectKey) -> bool {
        k.screen_id < self.spec_screens().len() && self.spec_library().has_key(k)
    }

    /// The error that explicitly removing a key that is not `key_ok` gives.
    pub open spec fn key_error(&self, k: DrawObjectKey) -> DrawError {
        if k.screen_id >= self.spec_screens().len() {
            DrawError::DisplayKeyNotFound(k.screen_id)
        } else {
            DrawError::DrawableHandleNotFound { screen_id: k.screen_id, obj_id: k.object_id }
        }
    }

    /// Explicitly removes every listed object in order (see
    /// `explicit_remove_drawable`), stopping at the first key that is not
    /// `key_ok`: that key's error is returned, the keys before it are
    /// unregistered, and so is that key itself when its screen exists.
    /// With every key fine, exactly the listed keys are unregistered.
    pub fn remove_keys(&mut self, keys: &Vec<DrawObjectKey>) -> (r: Result<(), DrawError>)
        requires
            old(self).wf(),
        ensures
            final(self).wf(),
            final(self).spec_sprites() == old(self).spec_sprites(),
            final(self).spec_library() == old(self).spec_library(),
            final(self).spec_mode() == old(self).spec_mode(),
            final(self).spec_terminal_size() == old(self).spec_terminal_size(),
            final(self).spec_screens().len() == old(self).spec_screens().len(),
            r is Ok <==> forall|k: int| 0 <= k < keys@.len() ==> old(self).key_ok(#[trigger] keys@[k]),
            r is Ok ==> forall|k: DrawObjectKey| #[trigger] final(self).is_registered(k) <==> (old(self).is_registered(k)
                && !keys@.contains(k)),
            r is Ok ==> old(self).spec_cleared(*final(self), keys@.to_set()),
            r is Err ==> exists|f: int|
                0 <= f < keys@.len() && !old(self).key_ok(#[trigger] keys@[f]) && (forall|j: int|
                    0 <= j < f ==> old(self).key_ok(#[trigger] keys@[j])) && r == Err::<(), DrawError>(
                    old(self).key_error(keys@[f]),
                ) && forall|k: DrawObjectKey| #[trigger] final(self).is_registered(k) <==> (old(self).is_registered(k)
                    && !keys@.take(if keys@[f].screen_id < old(self).spec_screens().len() {
                    f + 1
                } else {
                    f
                }).contains(k)),
    {
        let mut i: usize = 0;
        proof {
            let c0 = old(self).spec_buffer().spec_cells();
            assert(keys@.take(0).to_set() =~= Set::<DrawObjectKey>::empty());
            assert forall|idx: int| 0 <= idx < c0.len() implies #[trigger] c0[idx] == c0[idx].remove_keys(
                gone_at(Set::<DrawObjectKey>::empty(), old(self).spec_library(), old(self).spec_sprites(), old(self).spec_terminal_size(), idx),
            ) by {
                assert(gone_at(Set::<DrawObjectKey>::empty(), old(self).spec_library(), old(self).spec_sprites(), old(self).spec_terminal_size(), idx)
                    =~= Set::<usize>::empty());
                assert(c0[idx].remove_keys(Set::<usize>::empty()) =~= c0[idx]);
            }
            assert(old(self).spec_pending().take(old(self).spec_pending().len() as int) =~= old(self).spec_pending());
        }
        while i < keys.len()
            invariant
                self.wf(),
                self.spec_sprites() == old(self).spec_sprites(),
                self.spec_library() == old(self).spec_library(),
                self.spec_mode() == old(self).spec_mode(),
                self.spec_terminal_size() == old(self).spec_terminal_size(),
                self.spec_screens().len() == old(self).spec_screens().len(),
                0 <= i <= keys@.len(),
                forall|j: int| 0 <= j < i ==> old(self).key_ok(#[trigger] keys@[j]),
                forall|k: DrawObjectKey| #[trigger] self.is_registered(k) <==> (old(self).is_registered(k) && !keys@.take(i as int).contains(k)),
                old(self).spec_cleared(*self, keys@.take(i as int).to_set()),
            decreases keys@.len() - i,
        {
            let ghost before = *self;
            let ki = keys[i];
            proof {
                assert(keys@.take(i + 1).drop_last() =~= keys@.take(i as int));
                assert(keys@.take(i + 1).last() == ki);
                assert forall|k: DrawObjectKey| keys@.take(i + 1).contains(k) <==> (keys@.take(i as int).contains(k) || k == ki) by {
                    if keys@.take(i + 1).contains(k) {
                        let j = choose|j: int| 0 <= j < i + 1 && #[trigger] keys@.take(i + 1)[j] == k;
                        if j < i {
                            assert(keys@.take(i as int)[j] == k);
                        }
                    }
                    if keys@.take(i as int).contains(k) {
                        let j = choose|j: int| 0 <= j < i && #[trigger] keys@.take(i as int)[j] == k;
                        assert(keys@.take(i + 1)[j] == k);
                    }
                    if k == ki {
                        assert(keys@.take(i + 1)[i as int] == k);
                    }
                }
            }
            match self.explicit_remove_drawable(&keys[i]) {
                Ok(()) => {},
                Err(e) => {
                    proof {
                        assert(!old(self).key_ok(keys@[i as int]));
                        if ki.screen_id < old(self).spec_screens().len() {
                            assert forall|k: DrawObjectKey| #[trigger] self.is_registered(k) <==> (old(self).is_registered(k)
                                && !keys@.take(i + 1).contains(k)) by {
                                assert(self.is_registered(k) <==> (before.is_registered(k) && k != ki));
                            }
                        } else {
                            assert(*self == before);
                        }
                    }
                    return Err(e);
                },
            }
            proof {
                assert(old(self).key_ok(keys@[i as int]));
                assert forall|k: DrawObjectKey| #[trigger] self.is_registered(k) <==> (old(self).is_registered(k) && !keys@.take(i + 1).contains(k)) by {
                    assert(self.is_registered(k) <==> (before.is_registered(k) && k != ki));
                }
                let a = keys@.take(i as int).to_set();
                lemma_cleared_compose(
                    old(self).spec_buffer().spec_cells(),
                    before.spec_buffer().spec_cells(),
                    self.spec_buffer().spec_cells(),
                    a,
                    set![ki],
                    old(self).spec_library(),
                    old(self).spec_sprites(),
                    old(self).spec_terminal_size(),
                );
                assert(keys@.take(i + 1).to_set() =~= a + set![ki]) by {
                    assert forall|k: DrawObjectKey| keys@.take(i + 1).to_set().contains(k) <==> (a + set![ki]).contains(k) by {
                        assert(keys@.take(i + 1).contains(k) <==> (keys@.take(i as int).contains(k) || k == ki));
                    }
                }
                let n0 = old(self).spec_pending().len() as int;
                let n1 = before.spec_pending().len() as int;
                assert(self.spec_pending().take(n0) =~= self.spec_pending().take(n1).take(n0));
            }
            i += 1;
        }
        proof {
            assert(keys@.take(keys@.len() as int) =~= keys@);
        }
        Ok(())
    }

    /// The keys of the registered objects whose lifetime is
    /// `RemoveNextFrame`.
    pub open spec fn frame_based(&self) -> Set<DrawObjectKey> {
        Set::new(
            |k: DrawObjectKey|
                self.is_registered(k) && self.spec_library().has_key(k) && self.spec_library().object_at(k).lifetime is RemoveNextFrame,
        )
    }

    /// Removes (explicitly) every registered object whose lifetime is
    /// `RemoveNextFrame`, taking them out of the buffer.
    pub fn remove_all_framebased_objects(&mut self) -> (r: Result<(), DrawError>)
        requires
            old(self).wf(),
        ensures
            final(self).wf(),
            r is Ok,
            final(self).spec_sprites() == old(self).spec_sprites(),
            final(self).spec_library() == old(self).spec_library(),
            final(self).spec_mode() == old(self).spec_mode(),
            final(self).spec_terminal_size() == old(self).spec_terminal_size(),
            final(self).spec_screens().len() == old(self).spec_screens().len(),
            forall|k: DrawObjectKey| #[trigger] final(self).is_registered(k) <==> (old(self).is_registered(k) && !(
            old(self).spec_library().has_key(k) && old(self).spec_library().object_at(k).lifetime is RemoveNextFrame)),
            old(self).spec_cleared(*final(self), old(self).frame_based()),
    {
        let keys = self.expired_keys(false);
        proof {
            assert(keys@.to_set() =~= old(self).frame_based());
            assert forall|k: int| 0 <= k < keys@.len() implies old(self).key_ok(#[trigger] keys@[k]) by {
                assert(old(self).is_registered(keys@[k]));
            }
        }
        let r = self.remove_keys(&keys);
        proof {
            assert forall|k: DrawObjectKey| #[trigger] self.is_registered(k) <==> (old(self).is_registered(k) && !(
            old(self).spec_library().has_key(k) && old(self).spec_library().object_at(k).lifetime is RemoveNextFrame)) by {
                if keys@.contains(k) {
                    let j = choose|j: int| 0 <= j < keys@.len() && keys@[j] == k;
                    assert(old(self).is_registered(keys@[j]));
                }
            }
        }
        r
    }

    /// Removes (explicitly) every registered object whose `ForTime`
    /// lifetime has passed since it was last drawn. Which ones that are
    /// depends on the clock.
    pub fn check_if_object_lifetime_ended(&mut self) -> (r: Result<(), DrawError>)
        requires
            old(self).wf(),
        ensures
            final(self).wf(),
            r is Ok,
            final(self).spec_sprites() == old(self).spec_sprites(),
            final(self).spec_library() == old(self).spec_library(),
            final(self).spec_mode() == old(self).spec_mode(),
            final(self).spec_terminal_size() == old(self).spec_terminal_size(),
            final(self).spec_screens().len() == old(self).spec_screens().len(),
            forall|k: DrawObjectKey| #[trigger] final(self).is_registered(k) ==> old(self).is_registered(k),
            forall|k: DrawObjectKey|
                old(self).is_registered(k) && !#[trigger] final(self).is_registered(k) ==> old(self).spec_library().has_key(k)
                    && old(self).spec_library().object_at(k).lifetime is ForTime,
    {
        let keys = self.expired_keys(true);
        let r = self.remove_keys(&keys);
        proof {
            assert forall|k: DrawObjectKey|
                old(self).is_registered(k) && !#[trigger] self.is_registered(k) implies old(self).spec_library().has_key(k)
                    && old(self).spec_library().object_at(k).lifetime is ForTime by {
                let j = choose|j: int| 0 <= j < keys@.len() && keys@[j] == k;
                assert(old(self).spec_library().has_key(keys@[j]));
            }
        }
        r
    }

    /// Writes the dirty regions as draw commands (see
    /// `ScreenBuffer::update_terminal`) and queues them.
    fn forced_refresh(&mut self)
        requires
            old(self).wf(),
        ensures
            final(self).wf(),
            final(self).spec_screens() == old(self).spec_screens(),
            final(self).spec_library() == old(self).spec_library(),
            final(self).spec_sprites() == old(self).spec_sprites(),
            final(self).spec_mode() == old(self).spec_mode(),
            final(self).spec_expand() == old(self).spec_expand(),
            final(self).spec_terminal_size() == old(self).spec_terminal_size(),
            exists|cmds: Seq<CellDrawerCommand>|
                final(self).spec_pending() == old(self).spec_pending() + cmds && #[trigger] spec_update(
                    old(self).spec_buffer(),
                    final(self).spec_buffer(),
                    old(self).spec_expand(),
                    cmds,
                ),
    {
        let mut cmds = self.screen_buffer.update_terminal(self.update_interval_expand_amount);
        let ghost c = cmds@;
        let ghost p0 = self.pending@;
        self.pending.append(&mut cmds);
        assert(self.pending@ == p0 + c);
        assert(spec_update(old(self).spec_buffer(), self.spec_buffer(), old(self).spec_expand(), c));
    }

    /// In instant mode, writes the dirty regions now; in buffered mode,
    /// waits for the next frame.
    fn refresh(&mut self)
        requires
            old(self).wf(),
        ensures
            final(self).wf(),
            final(self).spec_screens() == old(self).spec_screens(),
            final(self).spec_library() == old(self).spec_library(),
            final(self).spec_sprites() == old(self).spec_sprites(),
            final(self).spec_mode() == old(self).spec_mode(),
            final(self).spec_expand() == old(self).spec_expand(),
            final(self).spec_terminal_size() == old(self).spec_terminal_size(),
            old(self).spec_mode() == RenderMode::Buffered ==> *final(self) == *old(self),
            old(self).spec_mode() == RenderMode::Instant ==> exists|cmds: Seq<CellDrawerCommand>|
                final(self).spec_pending() == old(self).spec_pending() + cmds && #[trigger] spec_update(
                    old(self).spec_buffer(),
                    final(self).spec_buffer(),
                    old(self).spec_expand(),
                    cmds,
                ),
    {
        match self.render_mode {
            RenderMode::Instant => self.forced_refresh(),
            RenderMode::Buffered => {},
        }
    }
}

spec fn sprite_of_frames_ok(sp: crate::sprites::SpriteDrawable, s: SpriteRegistry) -> bool {
    sp.draw_ok(s)
}

/// Cell `idx` lies in the bounding rows of the object under some key of
/// `gone` whose object id is `id`.
pub open spec fn gone_covers(
    gone: Set<DrawObjectKey>,
    lib: DrawObjectLibrary,
    sprites: SpriteRegistry,
    size: (u16, u16),
    id: usize,
    idx: int,
) -> bool {
    exists|k: DrawObjectKey|
        #[trigger] gone.contains(k) && k.object_id == id && map_covers(
            lib.object_at(k).drawable.spec_bounding(sprites),
            idx,
            size.0 as int,
            size.1 as int,
        )
}

/// The ids whose entry leaves cell `idx` (see `gone_covers`).
pub open spec fn gone_at(gone: Set<DrawObjectKey>, lib: DrawObjectLibrary, sprites: SpriteRegistry, size: (u16, u16), idx: int) -> Set<usize> {
    Set::new(|id: usize| gone_covers(gone, lib, sprites, size, id, idx))
}

/// `cells1` is `cells0` with the entry of every object under a key of
/// `gone` removed from each cell that its bounding rows cover.
pub open spec fn cleared(
    cells0: Seq<Map<usize, CharacterInfo>>,
    cells1: Seq<Map<usize, CharacterInfo>>,
    gone: Set<DrawObjectKey>,
    lib: DrawObjectLibrary,
    sprites: SpriteRegistry,
    size: (u16, u16),
) -> bool {
    &&& cells1.len() == cells0.len()
    &&& forall|idx: int| 0 <= idx < cells0.len() ==> #[trigger] cells1[idx] == cells0[idx].remove_keys(gone_at(gone, lib, sprites, size, idx))
}

/// Clearing in two steps clears what either step clears.
proof fn lemma_cleared_compose(
    c0: Seq<Map<usize, CharacterInfo>>,
    c1: Seq<Map<usize, CharacterInfo>>,
    c2: Seq<Map<usize, CharacterInfo>>,
    g1: Set<DrawObjectKey>,
    g2: Set<DrawObjectKey>,
    lib: DrawObjectLibrary,
    sprites: SpriteRegistry,
    size: (u16, u16),
)
    requires
        cleared(c0, c1, g1, lib, sprites, size),
        cleared(c1, c2, g2, lib, sprites, size),
    ensures
        cleared(c0, c2, g1 + g2, lib, sprites, size),
{
    assert forall|idx: int| 0 <= idx < c0.len() implies #[trigger] c2[idx] == c0[idx].remove_keys(gone_at(g1 + g2, lib, sprites, size, idx)) by {
        let a = gone_at(g1, lib, sprites, size, idx);
        let b = gone_at(g2, lib, sprites, size, idx);
        assert(gone_at(g1 + g2, lib, sprites, size, idx) =~= a + b) by {
            assert forall|id: usize| gone_covers(g1 + g2, lib, sprites, size, id, idx) implies a.contains(id) || b.contains(id) by {
                let k = choose|k: DrawObjectKey|
                    #[trigger] (g1 + g2).contains(k) && k.object_id == id && map_covers(
                        lib.object_at(k).drawable.spec_bounding(sprites),
                        idx,
                        size.0 as int,
                        size.1 as int,
                    );
                if g1.contains(k) {
                    assert(gone_covers(g1, lib, sprites, size, id, idx));
                } else {
                    assert(gone_covers(g2, lib, sprites, size, id, idx));
                }
            }
            assert forall|id: usize| a.contains(id) || b.contains(id) implies gone_covers(g1 + g2, lib, sprites, size, id, idx) by {
                if a.contains(id) {
                    let k = choose|k: DrawObjectKey|
                        #[trigger] g1.contains(k) && k.object_id == id && map_covers(
                            lib.object_at(k).drawable.spec_bounding(sprites),
                            idx,
                            size.0 as int,
                            size.1 as int,
                        );
                    assert((g1 + g2).contains(k));
                } else {
                    let k = choose|k: DrawObjectKey|
                        #[trigger] g2.contains(k) && k.object_id == id && map_covers(
                            lib.object_at(k).drawable.spec_bounding(sprites),
                            idx,
                            size.0 as int,
                            size.1 as int,
                        );
                    assert((g1 + g2).contains(k));
                }
            }
        }
        assert(c1[idx] == c0[idx].remove_keys(a));
        assert(c2[idx] == c1[idx].remove_keys(b));
        assert(c0[idx].remove_keys(a).remove_keys(b) =~= c0[idx].remove_keys(a + b));
    }
}

/// `bs` and `ls` are the buffers and libraries before and after each of
/// the screens drew all its registered objects, screen after screen (see
/// `Screen::all_drawn_from`).
pub open spec fn screens_drawn(
    screens: Seq<Screen>,
    bs: Seq<ScreenBuffer>,
    ls: Seq<DrawObjectLibrary>,
    sprites: SpriteRegistry,
) -> bool {
    &&& bs.len() == screens.len() + 1
    &&& ls.len() == screens.len() + 1
    &&& forall|i: int|
        0 <= i < screens.len() ==> #[trigger] screens[i].all_drawn_from(bs[i], ls[i], sprites, bs[i + 1], ls[i + 1])
}

/// How `refresh` relates a buffer and its queued commands before and
/// after: unchanged in buffered mode; in instant mode the buffer is
/// updated (see `spec_update`) and its commands queued.
pub open spec fn spec_refreshed(
    mode: RenderMode,
    expand: usize,
    b0: ScreenBuffer,
    p0: Seq<CellDrawerCommand>,
    b1: ScreenBuffer,
    p1: Seq<CellDrawerCommand>,
) -> bool {
    match mode {
        RenderMode::Buffered => b1 == b0 && p1 == p0,
        RenderMode::Instant => exists|cmds: Seq<CellDrawerCommand>| p1 == p0 + cmds && #[trigger] spec_update(b0, b1, expand, cmds),
    }
}

/// Adding a sprite that fits the objects showing it keeps objects usable.
proof fn lemma_ok_more_sprites(o: DrawObject, s0: SpriteRegistry, s1: SpriteRegistry)
    requires
        o.ok(s0),
        s1.wf(),
        s1.sprites@.len() == s0.sprites@.len() + 1,
        o.drawable matches crate::drawables::Drawable::Sprite(sp) ==> (sp.sprite_id == s0.sprites@.len()
            ==> crate::sprites::animation_ok(sp.animation_type, s1.sprites@[s0.sprites@.len() as int].frames@.len())),
        forall|i: int| 0 <= i < s0.sprites@.len() ==> #[trigger] s1.sprites@[i] == s0.sprites@[i],
    ensures
        o.ok(s1),
{
    match o.drawable {
        crate::drawables::Drawable::Sprite(sp) => {
            if sp.sprite_id < s0.sprites@.len() {
                assert(s1.sprites@[sp.sprite_id as int] == s0.sprites@[sp.sprite_id as int]);
            }
            assert(sprite_of_frames_ok(sp, s1));
        },
        _ => {},
    }
}

} // verus!
