//! Screens: areas of the terminal on a layer, each showing the objects
//! registered on it.
use crate::errors::DrawError;
use crate::geometry::{Point, Rect};
use crate::objects::{DrawObjectKey, DrawObjectLibrary};
use crate::cell::BasicDraw;
use crate::objects::DrawObject;
use crate::screen_buffer::{map_covers, spec_added, ScreenBuffer};
use crate::sprites::SpriteRegistry;
use vstd::prelude::*;

verus! {

/// A corner of a screen area: a fixed point or a corner of the terminal.
#[derive(Debug, Clone, Copy, PartialEq, Eq, Structural)]
pub enum AreaPoint {
    Point(Point),
    BottomLeft,
    BottomRight,
    TopLeft,
    TopRight,
}

impl AreaPoint {
    pub open spec fn spec_to_point(self, terminal_size: (u16, u16)) -> Point {
        match self {
            AreaPoint::Point(p) => p,
            AreaPoint::TopLeft => Point { x: 0, y: 0 },
            AreaPoint::TopRight => Point { x: terminal_size.0 as i32, y: 0 },
            AreaPoint::BottomLeft => Point { x: 0, y: terminal_size.1 as i32 },
            AreaPoint::BottomRight => Point { x: terminal_size.0 as i32, y: terminal_size.1 as i32 },
        }
    }

    /// The point on a terminal of the given size.
    pub fn screen_point_to_point(&self, terminal_size: &(u16, u16)) -> (p: Point)
        ensures
            p == self.spec_to_point(*terminal_size),
    {
        match self {
            AreaPoint::Point(p) => *p,
            AreaPoint::TopLeft => Point { x: 0, y: 0 },
            AreaPoint::TopRight => Point { x: terminal_size.0 as i32, y: 0 },
            AreaPoint::BottomLeft => Point { x: 0, y: terminal_size.1 as i32 },
            AreaPoint::BottomRight => Point { x: terminal_size.0 as i32, y: terminal_size.1 as i32 },
        }
    }

    /// A fixed point from `usize` coordinates, clamped to `i32::MAX`.
    pub fn from_usize(value: (usize, usize)) -> (a: AreaPoint)
        ensures
            a == AreaPoint::Point(
                Point {
                    x: if value.0 > i32::MAX { i32::MAX } else { value.0 as i32 },
                    y: if value.1 > i32::MAX { i32::MAX } else { value.1 as i32 },
                },
            ),
    {
        let x: i32 = if value.0 > 2147483647usize { 2147483647i32 } else { value.0 as i32 };
        let y: i32 = if value.1 > 2147483647usize { 2147483647i32 } else { value.1 as i32 };
        AreaPoint::Point(Point { x, y })
    }

    /// A fixed point from `u16` coordinates.
    pub fn from_u16(value: (u16, u16)) -> (a: AreaPoint)
        ensures
            a == AreaPoint::Point(Point { x: value.0 as i32, y: value.1 as i32 }),
    {
        AreaPoint::Point(Point { x: value.0 as i32, y: value.1 as i32 })
    }

    /// A fixed point from `i32` coordinates.
    pub fn from_i32(value: (i32, i32)) -> (a: AreaPoint)
        ensures
            a == AreaPoint::Point(Point { x: value.0, y: value.1 }),
    {
        AreaPoint::Point(Point { x: value.0, y: value.1 })
    }
}

/// The area of a screen: between two corners, or the whole terminal.
#[derive(Debug, Clone, Copy, PartialEq, Eq, Structural)]
pub enum AreaRect {
    FromPoints(AreaPoint, AreaPoint),
    FullScreen,
}

impl AreaRect {
    pub open spec fn spec_to_rect(self, terminal_size: (u16, u16)) -> Rect {
        match self {
            AreaRect::FromPoints(p1, p2) => Rect {
                p1: p1.spec_to_point(terminal_size),
                p2: p2.spec_to_point(terminal_size),
            },
            AreaRect::FullScreen => Rect {
                p1: Point { x: 0, y: 0 },
                p2: Point { x: terminal_size.0 as i32, y: terminal_size.1 as i32 },
            },
        }
    }

    /// The rectangle on a terminal of the given size; the full screen runs
    /// from `(0, 0)` to `(width, height)`.
    pub fn area_to_rect(&self, terminal_size: &(u16, u16)) -> (r: Rect)
        ensures
            r == self.spec_to_rect(*terminal_size),
    {
        match self {
            AreaRect::FromPoints(p1, p2) => Rect {
                p1: p1.screen_point_to_point(terminal_size),
                p2: p2.screen_point_to_point(terminal_size),
            },
            AreaRect::FullScreen => {
                let p1 = AreaPoint::TopLeft;
                let p2 = AreaPoint::BottomRight;
                Rect { p1: p1.screen_point_to_point(terminal_size), p2: p2.screen_point_to_point(terminal_size) }
            },
        }
    }
}

/// An area of the terminal on a layer, showing the objects registered on
/// it (in registration order).
#[derive(Debug)]
pub struct Screen {
    pub layer: usize,
    pub id: usize,
    pub area: AreaRect,
    pub terminal_size: (u16, u16),
    pub draw_objects: Vec<usize>,
}

/// Every object of `before` that draws surely is still in `after` and
/// still draws surely.
pub open spec fn keeps_drawing_surely(before: DrawObjectLibrary, after: DrawObjectLibrary, sprites: SpriteRegistry) -> bool {
    forall|k: DrawObjectKey|
        before.has_key(k) && before.object_at(k).drawable.draws_surely(sprites) ==> #[trigger] after.has_key(k)
            && after.object_at(k).drawable.draws_surely(sprites)
}

/// A screen whose objects draw surely still does so in a library that
/// keeps drawing surely.
pub proof fn lemma_screen_keeps_drawing_surely(
    screen: Screen,
    before: DrawObjectLibrary,
    after: DrawObjectLibrary,
    sprites: SpriteRegistry,
)
    requires
        screen.draws_surely(before, sprites),
        keeps_drawing_surely(before, after, sprites),
    ensures
        screen.draws_surely(after, sprites),
{
    assert forall|j: int| 0 <= j < screen.draw_objects@.len() implies {
        let key = DrawObjectKey { screen_id: screen.spec_id(), object_id: #[trigger] screen.draw_objects@[j] };
        after.has_key(key) && after.object_at(key).drawable.draws_surely(sprites)
    } by {
        let key = DrawObjectKey { screen_id: screen.spec_id(), object_id: screen.draw_objects@[j] };
        assert(before.has_key(key) && before.object_at(key).drawable.draws_surely(sprites));
        assert(after.has_key(key));
    }
}

impl Screen {
    pub open spec fn spec_layer(&self) -> usize {
        self.layer
    }

    pub open spec fn spec_id(&self) -> usize {
        self.id
    }

    pub open spec fn spec_area(&self) -> AreaRect {
        self.area
    }

    /// The rectangle the screen covers on its terminal.
    pub open spec fn spec_rect(&self) -> Rect {
        self.spec_area().spec_to_rect(self.terminal_size)
    }

    /// No object is registered twice.
    pub open spec fn wf(&self) -> bool {
        self.draw_objects@.no_duplicates()
    }

    pub fn new(area: AreaRect, layer: usize, id: usize, terminal_size: (u16, u16)) -> (s: Self)
        ensures
            s.spec_area() == area,
            s.spec_layer() == layer,
            s.spec_id() == id,
            s.terminal_size == terminal_size,
            s.draw_objects@ == Seq::<usize>::empty(),
            s.wf(),
    {
        Screen { layer, id, area, terminal_size, draw_objects: Vec::new() }
    }

    pub fn id(&self) -> (id: usize)
        ensures
            id == self.spec_id(),
    {
        self.id
    }

    pub fn layer(&self) -> (l: usize)
        ensures
            l == self.spec_layer(),
    {
        self.layer
    }

    pub fn change_screen_area(&mut self, new_area: AreaRect)
        ensures
            final(self).spec_area() == new_area,
            final(self).spec_layer() == old(self).spec_layer(),
            final(self).spec_id() == old(self).spec_id(),
            final(self).terminal_size == old(self).terminal_size,
            final(self).draw_objects == old(self).draw_objects,
    {
        self.area = new_area;
    }

    pub fn change_screen_layer(&mut self, new_layer: usize)
        ensures
            final(self).spec_layer() == new_layer,
            final(self).spec_area() == old(self).spec_area(),
            final(self).spec_id() == old(self).spec_id(),
            final(self).terminal_size == old(self).terminal_size,
            final(self).draw_objects == old(self).draw_objects,
    {
        self.layer = new_layer;
    }

    /// The rectangle the screen covers.
    pub fn rect(&self) -> (r: Rect)
        ensures
            r == self.spec_rect(),
    {
        self.area.area_to_rect(&self.terminal_size)
    }

    /// Whether the object is registered.
    pub fn contains(&self, obj_id: usize) -> (b: bool)
        ensures
            b == self.draw_objects@.contains(obj_id),
    {
        let mut i: usize = 0;
        while i < self.draw_objects.len()
            invariant
                0 <= i <= self.draw_objects@.len(),
                forall|j: int| 0 <= j < i ==> self.draw_objects@[j] != obj_id,
            decreases self.draw_objects@.len() - i,
        {
            if self.draw_objects[i] == obj_id {
                return true;
            }
            i += 1;
        }
        false
    }

    /// Registers an object for drawing on this screen, if it is not yet
    /// registered and the library holds it for this screen.
    pub fn register_drawable(&mut self, obj_id: usize, obj_library: &DrawObjectLibrary)
        requires
            old(self).wf(),
        ensures
            final(self).wf(),
            final(self).spec_layer() == old(self).spec_layer(),
            final(self).spec_area() == old(self).spec_area(),
            final(self).spec_id() == old(self).spec_id(),
            final(self).terminal_size == old(self).terminal_size,
            (!old(self).draw_objects@.contains(obj_id) && obj_library.has_key(
                DrawObjectKey { screen_id: old(self).spec_id(), object_id: obj_id },
            )) ==> final(self).draw_objects@ == old(self).draw_objects@.push(obj_id),
            !(!old(self).draw_objects@.contains(obj_id) && obj_library.has_key(
                DrawObjectKey { screen_id: old(self).spec_id(), object_id: obj_id },
            )) ==> final(self).draw_objects@ == old(self).draw_objects@,
    {
        if !self.contains(obj_id) && obj_library.find_drawable(&DrawObjectKey { screen_id: self.id, object_id: obj_id }).is_some() {
            self.draw_objects.push(obj_id);
        }
    }

    /// What drawing object `object_id` did, going from buffer `b0` and
    /// library `l0` to `b1` and `l1` with result `r` (see `render_drawable`).
    pub open spec fn drawn(
        &self,
        object_id: usize,
        b0: ScreenBuffer,
        l0: DrawObjectLibrary,
        sprites: SpriteRegistry,
        b1: ScreenBuffer,
        l1: DrawObjectLibrary,
        r: Result<(), DrawError>,
    ) -> bool {
        let key = DrawObjectKey { screen_id: self.spec_id(), object_id };
        if !self.draw_objects@.contains(object_id) {
            &&& r is Ok
            &&& b1 == b0
            &&& l1.slots() == l0.slots()
        } else if !l0.has_key(key) {
            &&& r == Err::<(), DrawError>(DrawError::DrawableHandleNotFound { screen_id: self.spec_id(), obj_id: object_id })
            &&& b1 == b0
            &&& l1.slots() == l0.slots()
        } else {
            let o = l0.object_at(key);
            let n = l1.object_at(key);
            &&& l1.has_key(key)
            &&& l1.slots() == l0.slots().update(object_id as int, Some((self.spec_id(), n)))
            &&& n.layer == o.layer && n.shaders == o.shaders && n.lifetime == o.lifetime && n.creation_time == o.creation_time
            &&& exists|dr: Result<Vec<BasicDraw>, DrawError>|
                #[trigger] o.drawable.draw_result(n.drawable, sprites, dr) && spec_added(
                    b0,
                    b1,
                    n.drawable,
                    o.shaders@,
                    o.layer,
                    object_id,
                    self.spec_layer(),
                    self.spec_rect(),
                    sprites,
                    dr,
                    r,
                )
        }
    }

    /// `bs` and `ls` are the buffers and libraries before and after each
    /// of the first `n` registered objects was drawn, in order and without
    /// error (see `drawn`).
    pub open spec fn drawn_steps(&self, n: nat, bs: Seq<ScreenBuffer>, ls: Seq<DrawObjectLibrary>, sprites: SpriteRegistry) -> bool {
        &&& bs.len() == n + 1
        &&& ls.len() == n + 1
        &&& forall|j: int|
            0 <= j < n ==> #[trigger] self.drawn(self.draw_objects@[j], bs[j], ls[j], sprites, bs[j + 1], ls[j + 1], Ok(()))
    }

    /// All registered objects were drawn, in order and without error,
    /// going from `b0` and `l0` to `b1` and `l1` (see `drawn_steps`).
    pub open spec fn all_drawn_from(
        &self,
        b0: ScreenBuffer,
        l0: DrawObjectLibrary,
        sprites: SpriteRegistry,
        b1: ScreenBuffer,
        l1: DrawObjectLibrary,
    ) -> bool {
        exists|bs: Seq<ScreenBuffer>, ls: Seq<DrawObjectLibrary>|
            #[trigger] self.drawn_steps(self.draw_objects@.len(), bs, ls, sprites) && bs[0] == b0 && ls[0] == l0
                && bs.last() == b1 && ls.last() == l1
    }

    /// Every registered object is in the library and draws surely (see
    /// `Drawable::draws_surely`).
    pub open spec fn draws_surely(&self, obj_library: DrawObjectLibrary, sprites: SpriteRegistry) -> bool {
        forall|j: int|
            0 <= j < self.draw_objects@.len() ==> {
                let key = DrawObjectKey { screen_id: self.spec_id(), object_id: #[trigger] self.draw_objects@[j] };
                obj_library.has_key(key) && obj_library.object_at(key).drawable.draws_surely(sprites)
            }
    }

    /// Draws a registered object into the buffer (see
    /// `ScreenBuffer::add_to_buffer`) inside the screen's rectangle and on
    /// the screen's layer. An object that is not registered is skipped; a
    /// registered one the library does not hold is an error; one that
    /// draws surely is drawn without error.
    pub fn render_drawable(
        &mut self,
        object_id: usize,
        screen_buffer: &mut ScreenBuffer,
        obj_library: &mut DrawObjectLibrary,
        sprites: &SpriteRegistry,
    ) -> (r: Result<(), DrawError>)
        requires
            old(screen_buffer).wf(),
            old(obj_library).all_ok(*sprites),
        ensures
            *final(self) == *old(self),
            final(screen_buffer).wf(),
            final(screen_buffer).spec_size() == old(screen_buffer).spec_size(),
            final(obj_library).all_ok(*sprites),
            ({
                let key = DrawObjectKey { screen_id: old(self).spec_id(), object_id };
                (!old(self).draw_objects@.contains(object_id) || (old(obj_library).has_key(key) && old(obj_library).object_at(key).drawable.draws_surely(*sprites))) ==> r is Ok
            }),
            keeps_drawing_surely(*old(obj_library), *final(obj_library), *sprites),
            old(self).drawn(object_id, *old(screen_buffer), *old(obj_library), *sprites, *final(screen_buffer), *final(obj_library), r),
    {
        if !self.contains(object_id) {
            return Ok(());
        }
        let key = DrawObjectKey { screen_id: self.id, object_id };
        let mut obj = match obj_library.take(&key) {
            Some(o) => o,
            None => {
                return Err(DrawError::DrawableHandleNotFound { screen_id: self.id, obj_id: object_id });
            },
        };
        let ghost o = obj;
        proof {
            assert(old(obj_library).slots()[object_id as int] is Some);
        }
        let rect = self.rect();
        let r = screen_buffer.add_to_buffer(&mut obj, object_id, self.layer, &rect, sprites);
        let ghost dr = choose|dr: Result<Vec<BasicDraw>, DrawError>|
            #[trigger] o.drawable.draw_result(obj.drawable, *sprites, dr) && spec_added(
                *old(screen_buffer),
                *screen_buffer,
                obj.drawable,
                o.shaders@,
                o.layer,
                object_id,
                self.layer,
                rect,
                *sprites,
                dr,
                r,
            );
        proof {
            let dr0 = choose|dr: Result<Vec<BasicDraw>, DrawError>|
                #[trigger] o.drawable.draw_result(obj.drawable, *sprites, dr) && spec_added(
                    *old(screen_buffer),
                    *screen_buffer,
                    obj.drawable,
                    o.shaders@,
                    o.layer,
                    object_id,
                    self.layer,
                    rect,
                    *sprites,
                    dr,
                    r,
                );
            assert(dr0 == dr);
            o.drawable.lemma_draw_keeps_ok(obj.drawable, *sprites, dr);
            if o.drawable.draws_surely(*sprites) {
                o.drawable.lemma_draws_surely(obj.drawable, *sprites, dr);
            }
        }
        let ghost n = obj;
        obj_library.restore(&key, obj);
        proof {
            assert forall|i: int|
                0 <= i < obj_library.slots().len() && (#[trigger] obj_library.slots()[i]) is Some implies obj_library.slots()[i]->Some_0.1.ok(
                *sprites,
            ) by {
                if i != object_id {
                    assert(obj_library.slots()[i] == old(obj_library).slots()[i]);
                }
            }
            assert(obj_library.object_at(key) == n);
            assert(obj_library.slots() =~= old(obj_library).slots().update(object_id as int, Some((self.spec_id(), n))));
            assert(o.drawable.draw_result(n.drawable, *sprites, dr));
        }
        r
    }

    /// Takes an object out of the buffer (see
    /// `ScreenBuffer::remove_from_buffer`); the library must hold it.
    pub fn remove_drawable(
        &mut self,
        object_id: usize,
        screen_buffer: &mut ScreenBuffer,
        obj_library: &DrawObjectLibrary,
        sprites: &SpriteRegistry,
    ) -> (r: Result<(), DrawError>)
        requires
            old(screen_buffer).wf(),
            obj_library.all_ok(*sprites),
        ensures
            *final(self) == *old(self),
            final(screen_buffer).wf(),
            final(screen_buffer).spec_size() == old(screen_buffer).spec_size(),
            ({
                let key = DrawObjectKey { screen_id: old(self).spec_id(), object_id };
                if !obj_library.has_key(key) {
                    &&& r == Err::<(), DrawError>(DrawError::DrawableHandleNotFound { screen_id: old(self).spec_id(), obj_id: object_id })
                    &&& *final(screen_buffer) == *old(screen_buffer)
                } else {
                    let rv = obj_library.object_at(key).drawable.spec_bounding(*sprites);
                    let w = old(screen_buffer).spec_size().0 as int;
                    let h = old(screen_buffer).spec_size().1 as int;
                    &&& r is Ok
                    &&& crate::screen_buffer::removed_where(
                        old(screen_buffer).spec_cells(),
                        final(screen_buffer).spec_cells(),
                        object_id,
                        |idx: int| map_covers(rv, idx, w, h),
                    )
                    &&& final(screen_buffer).spec_intervals().len() >= old(screen_buffer).spec_intervals().len()
                    &&& final(screen_buffer).spec_intervals().subrange(0, old(screen_buffer).spec_intervals().len() as int)
                        == old(screen_buffer).spec_intervals()
                }
            }),
    {
        let key = DrawObjectKey { screen_id: self.id, object_id };
        match obj_library.find_drawable(&key) {
            Some(obj) => {
                proof {
                    assert(obj_library.slots()[object_id as int] is Some);
                }
                screen_buffer.remove_from_buffer(obj, object_id, sprites);
                Ok(())
            },
            None => Err(DrawError::DrawableHandleNotFound { screen_id: self.id, obj_id: object_id }),
        }
    }

    /// The bounding rows of the object registered under `object_id`.
    pub open spec fn bounding_of(&self, obj_library: DrawObjectLibrary, object_id: usize, sprites: SpriteRegistry) -> Map<
        u16,
        Seq<crate::update_interval::UpdateInterval>,
    > {
        obj_library.object_at(DrawObjectKey { screen_id: self.spec_id(), object_id }).drawable.spec_bounding(sprites)
    }

    /// Takes every registered object out of the buffer, in order, stopping
    /// at the first one the library does not hold (that is the error).
    /// When all are held, no cell that an object's rows cover still holds
    /// an entry of that object.
    pub fn remove_all(
        &mut self,
        screen_buffer: &mut ScreenBuffer,
        obj_library: &DrawObjectLibrary,
        sprites: &SpriteRegistry,
    ) -> (r: Result<(), DrawError>)
        requires
            old(screen_buffer).wf(),
            obj_library.all_ok(*sprites),
        ensures
            *final(self) == *old(self),
            final(screen_buffer).wf(),
            final(screen_buffer).spec_size() == old(screen_buffer).spec_size(),
            final(screen_buffer).spec_cells().len() == old(screen_buffer).spec_cells().len(),
            r is Ok <==> forall|k: int|
                0 <= k < old(self).draw_objects@.len() ==> obj_library.has_key(
                    DrawObjectKey { screen_id: old(self).spec_id(), object_id: #[trigger] old(self).draw_objects@[k] },
                ),
            r is Err ==> exists|k: int|
                0 <= k < old(self).draw_objects@.len() && !obj_library.has_key(
                    DrawObjectKey { screen_id: old(self).spec_id(), object_id: #[trigger] old(self).draw_objects@[k] },
                ) && r == Err::<(), DrawError>(
                    DrawError::DrawableHandleNotFound { screen_id: old(self).spec_id(), obj_id: old(self).draw_objects@[k] },
                ),
            r is Ok ==> forall|k: int, idx: int|
                0 <= k < old(self).draw_objects@.len() && 0 <= idx < final(screen_buffer).spec_cells().len()
                    && map_covers(
                    old(self).bounding_of(*obj_library, old(self).draw_objects@[k], *sprites),
                    idx,
                    old(screen_buffer).spec_size().0 as int,
                    old(screen_buffer).spec_size().1 as int,
                ) ==> !#[trigger] final(screen_buffer).spec_cells()[idx].contains_key(old(self).draw_objects@[k]),
    {
        let ids = self.draw_objects.clone();
        let ghost w = screen_buffer.spec_size().0 as int;
        let ghost h = screen_buffer.spec_size().1 as int;
        let mut i: usize = 0;
        while i < ids.len()
            invariant
                *self == *old(self),
                ids@ == old(self).draw_objects@,
                screen_buffer.wf(),
                screen_buffer.spec_size() == old(screen_buffer).spec_size(),
                screen_buffer.spec_cells().len() == old(screen_buffer).spec_cells().len(),
                w == screen_buffer.spec_size().0,
                h == screen_buffer.spec_size().1,
                obj_library.all_ok(*sprites),
                0 <= i <= ids@.len(),
                forall|k: int| 0 <= k < i ==> obj_library.has_key(
                    DrawObjectKey { screen_id: self.spec_id(), object_id: #[trigger] ids@[k] },
                ),
                forall|k: int, idx: int|
                    0 <= k < i && 0 <= idx < screen_buffer.spec_cells().len() && map_covers(
                        self.bounding_of(*obj_library, ids@[k], *sprites),
                        idx,
                        w,
                        h,
                    ) ==> !#[trigger] screen_buffer.spec_cells()[idx].contains_key(ids@[k]),
            decreases ids@.len() - i,
        {
            let ghost before = screen_buffer.spec_cells();
            let id = ids[i];
            match self.remove_drawable(id, screen_buffer, obj_library, sprites) {
                Ok(()) => {},
                Err(e) => {
                    return Err(e);
                },
            }
            proof {
                assert forall|k: int, idx: int|
                    0 <= k < i + 1 && 0 <= idx < screen_buffer.spec_cells().len() && map_covers(
                        self.bounding_of(*obj_library, ids@[k], *sprites),
                        idx,
                        w,
                        h,
                    ) implies !#[trigger] screen_buffer.spec_cells()[idx].contains_key(ids@[k]) by {
                    if k < i {
                        assert(!before[idx].contains_key(ids@[k]));
                    }
                }
            }
            i += 1;
        }
        Ok(())
    }

    /// Draws every registered object, in order (see `render_drawable`),
    /// stopping at the first error. When every registered object draws
    /// surely, this succeeds.
    pub fn render_all(
        &mut self,
        screen_buffer: &mut ScreenBuffer,
        obj_library: &mut DrawObjectLibrary,
        sprites: &SpriteRegistry,
    ) -> (r: Result<(), DrawError>)
        requires
            old(screen_buffer).wf(),
            old(obj_library).all_ok(*sprites),
        ensures
            *final(self) == *old(self),
            final(screen_buffer).wf(),
            final(screen_buffer).spec_size() == old(screen_buffer).spec_size(),
            final(obj_library).all_ok(*sprites),
            final(obj_library).slots().len() == old(obj_library).slots().len(),
            forall|k: DrawObjectKey| old(obj_library).has_key(k) <==> #[trigger] final(obj_library).has_key(k),
            r is Ok ==> forall|k: int|
                0 <= k < old(self).draw_objects@.len() ==> old(obj_library).has_key(
                    DrawObjectKey { screen_id: old(self).spec_id(), object_id: #[trigger] old(self).draw_objects@[k] },
                ),
            old(self).draws_surely(*old(obj_library), *sprites) ==> r is Ok,
            keeps_drawing_surely(*old(obj_library), *final(obj_library), *sprites),
            r is Ok ==> old(self).all_drawn_from(*old(screen_buffer), *old(obj_library), *sprites, *final(screen_buffer), *final(obj_library)),
    {
        let ids = self.draw_objects.clone();
        let mut i: usize = 0;
        let ghost mut bs: Seq<ScreenBuffer> = seq![*screen_buffer];
        let ghost mut ls: Seq<DrawObjectLibrary> = seq![*obj_library];
        while i < ids.len()
            invariant
                *self == *old(self),
                ids@ == old(self).draw_objects@,
                screen_buffer.wf(),
                screen_buffer.spec_size() == old(screen_buffer).spec_size(),
                obj_library.all_ok(*sprites),
                obj_library.slots().len() == old(obj_library).slots().len(),
                forall|k: DrawObjectKey| old(obj_library).has_key(k) <==> #[trigger] obj_library.has_key(k),
                0 <= i <= ids@.len(),
                forall|k: int| 0 <= k < i ==> old(obj_library).has_key(
                    DrawObjectKey { screen_id: self.spec_id(), object_id: #[trigger] ids@[k] },
                ),
                keeps_drawing_surely(*old(obj_library), *obj_library, *sprites),
                old(self).drawn_steps(i as nat, bs, ls, *sprites),
                bs[0] == *old(screen_buffer),
                ls[0] == *old(obj_library),
                bs.last() == *screen_buffer,
                ls.last() == *obj_library,
            decreases ids@.len() - i,
        {
            let ghost b_before = *screen_buffer;
            let id = ids[i];
            let ghost lib0 = *obj_library;
            proof {
                assert(keeps_drawing_surely(*old(obj_library), lib0, *sprites));
                if old(self).draws_surely(*old(obj_library), *sprites) {
                    let key = DrawObjectKey { screen_id: self.spec_id(), object_id: ids@[i as int] };
                    assert(old(obj_library).has_key(key) && old(obj_library).object_at(key).drawable.draws_surely(*sprites));
                }
            }
            match self.render_drawable(id, screen_buffer, obj_library, sprites) {
                Ok(()) => {},
                Err(e) => {
                    proof {
                        assert forall|k: DrawObjectKey| old(obj_library).has_key(k) <==> #[trigger] obj_library.has_key(k) by {
                            assert(lib0.has_key(k) == obj_library.has_key(k));
                        }
                        assert(keeps_drawing_surely(*old(obj_library), *obj_library, *sprites)) by {
                            assert forall|k: DrawObjectKey|
                                old(obj_library).has_key(k) && old(obj_library).object_at(k).drawable.draws_surely(*sprites) implies #[trigger] obj_library.has_key(k)
                                    && obj_library.object_at(k).drawable.draws_surely(*sprites) by {
                                assert(lib0.has_key(k) && lib0.object_at(k).drawable.draws_surely(*sprites));
                            }
                        }
                    }
                    return Err(e);
                },
            }
            proof {
                assert(self.draw_objects@.contains(id)) by {
                    assert(self.draw_objects@[i as int] == id);
                }
                let bs0 = bs;
                let ls0 = ls;
                bs = bs.push(*screen_buffer);
                ls = ls.push(*obj_library);
                assert forall|j: int|
                    0 <= j < i + 1 implies #[trigger] old(self).drawn(old(self).draw_objects@[j], bs[j], ls[j], *sprites, bs[j + 1], ls[j + 1], Ok(())) by {
                    if j < i {
                        assert(old(self).drawn(old(self).draw_objects@[j], bs0[j], ls0[j], *sprites, bs0[j + 1], ls0[j + 1], Ok(())));
                    } else {
                        assert(bs[j] == b_before && ls[j] == lib0);
                    }
                }
                assert forall|k: DrawObjectKey| old(obj_library).has_key(k) <==> #[trigger] obj_library.has_key(k) by {
                    assert(lib0.has_key(k) == obj_library.has_key(k));
                }
                assert(keeps_drawing_surely(*old(obj_library), *obj_library, *sprites)) by {
                    assert forall|k: DrawObjectKey|
                        old(obj_library).has_key(k) && old(obj_library).object_at(k).drawable.draws_surely(*sprites) implies #[trigger] obj_library.has_key(k)
                            && obj_library.object_at(k).drawable.draws_surely(*sprites) by {
                        assert(lib0.has_key(k));
                        assert(lib0.object_at(k).drawable.draws_surely(*sprites));
                    }
                }
            }
            i += 1;
        }
        Ok(())
    }

    /// Unregisters the object, if it is registered (the others keep their
    /// order).
    pub fn deregister_drawable(&mut self, obj_id: usize)
        requires
            old(self).wf(),
        ensures
            final(self).wf(),
            final(self).spec_layer() == old(self).spec_layer(),
            final(self).spec_area() == old(self).spec_area(),
            final(self).spec_id() == old(self).spec_id(),
            final(self).terminal_size == old(self).terminal_size,
            !old(self).draw_objects@.contains(obj_id) ==> final(self).draw_objects@ == old(self).draw_objects@,
            old(self).draw_objects@.contains(obj_id) ==> exists|i: int|
                0 <= i < old(self).draw_objects@.len() && old(self).draw_objects@[i] == obj_id
                    && final(self).draw_objects@ == old(self).draw_objects@.remove(i),
            !final(self).draw_objects@.contains(obj_id),
    {
        let ghost before = self.draw_objects@;
        let mut i: usize = 0;
        while i < self.draw_objects.len()
            invariant
                self.draw_objects@ == before,
                before == old(self).draw_objects@,
                self.layer == old(self).layer,
                self.area == old(self).area,
                self.id == old(self).id,
                self.terminal_size == old(self).terminal_size,
                before.no_duplicates(),
                0 <= i <= before.len(),
                forall|j: int| 0 <= j < i ==> before[j] != obj_id,
            decreases before.len() - i,
        {
            if self.draw_objects[i] == obj_id {
                self.draw_objects.remove(i);
                proof {
                    assert(self.draw_objects@ == before.remove(i as int));
                    assert forall|a: int, b: int| 0 <= a < b < self.draw_objects@.len() implies self.draw_objects@[a]
                        != self.draw_objects@[b] by {
                        let a2 = if a < i { a } else { a + 1 };
                        let b2 = if b < i { b } else { b + 1 };
                        assert(self.draw_objects@[a] == before[a2]);
                        assert(self.draw_objects@[b] == before[b2]);
                    }
                    assert(!self.draw_objects@.contains(obj_id)) by {
                        if self.draw_objects@.contains(obj_id) {
                            let k = choose|k: int| 0 <= k < self.draw_objects@.len() && self.draw_objects@[k] == obj_id;
                            let k2 = if k < i { k } else { k + 1 };
                            assert(before[k2] == obj_id);
                        }
                    }
                    assert(before[i as int] == obj_id);
                    assert(before.contains(obj_id));
                }
                return ;
            }
            i += 1;
        }
    }
}

} // verus!
