//! Builders that collect the parts of a drawable or a draw object and
//! refuse to build while a required part is missing.
use crate::cell::TerminalChar;
use crate::clock::now;
use crate::drawables::{CircleDrawable, Drawable, LineDrawable, RectDrawable, StreamFrame, VideoStreamDrawable};
use crate::errors::{AppError, DrawError, DrawObjectBuilderError};
use crate::geometry::{Point, PointU16, RectUsize};
use crate::objects::{DrawObject, DrawObjectKey, ObjectLifetime};
use crate::renderer::Renderer;
use crate::shaders::Shader;
use crate::sprites::{AnimationInfo, FrameIdent, SpriteDrawable};
use vstd::prelude::*;

verus! {

#[verifier::external_type_specification]
#[verifier::external_body]
#[verifier::reject_recursive_types(T)]
pub struct ExFlumeSender<T>(flume::Sender<T>);

/// `flume::unbounded`: a new channel without a bound, as its sending and
/// receiving ends. Nothing is stated of the two ends; which ends belong
/// together is not visible here.
#[verifier::external_body]
fn unbounded_frame_channel() -> (ends: (flume::Sender<StreamFrame>, flume::Receiver<StreamFrame>)) {
    flume::unbounded()
}

/// The parts of a line.
#[derive(Clone, Copy, Debug)]
pub struct LineDrawableBuilder {
    pub start: Option<PointU16>,
    pub end: Option<PointU16>,
    pub chr: Option<TerminalChar>,
}

impl LineDrawableBuilder {
    pub open spec fn spec_new() -> Self {
        LineDrawableBuilder { start: None, end: None, chr: None }
    }

    pub fn new() -> (b: Self)
        ensures
            b == Self::spec_new(),
    {
        LineDrawableBuilder { start: None, end: None, chr: None }
    }

    pub fn start(self, start: PointU16) -> (b: Self)
        ensures
            b == (LineDrawableBuilder { start: Some(start), ..self }),
    {
        LineDrawableBuilder { start: Some(start), ..self }
    }

    pub fn end(self, end: PointU16) -> (b: Self)
        ensures
            b == (LineDrawableBuilder { end: Some(end), ..self }),
    {
        LineDrawableBuilder { end: Some(end), ..self }
    }

    pub fn chr(self, chr: TerminalChar) -> (b: Self)
        ensures
            b == (LineDrawableBuilder { chr: Some(chr), ..self }),
    {
        LineDrawableBuilder { chr: Some(chr), ..self }
    }

    /// The line, when both ends and the character are given.
    pub open spec fn spec_build(self) -> Result<Drawable, DrawObjectBuilderError> {
        match (self.start, self.end, self.chr) {
            (Some(start), Some(end), Some(chr)) => Ok(Drawable::Line(LineDrawable { start, end, chr })),
            _ => Err(DrawObjectBuilderError::FailedToBuildLineObject()),
        }
    }

    pub fn build(self) -> (r: Result<Drawable, DrawObjectBuilderError>)
        ensures
            r == self.spec_build(),
    {
        match (self.start, self.end, self.chr) {
            (Some(start), Some(end), Some(chr)) => Ok(Drawable::Line(LineDrawable { start, end, chr })),
            _ => Err(DrawObjectBuilderError::FailedToBuildLineObject()),
        }
    }
}

/// The parts of a rectangle; the fill is optional.
#[derive(Clone, Copy, Debug)]
pub struct RectDrawableBuilder {
    pub rect: Option<RectUsize>,
    pub border_thickness: Option<usize>,
    pub border_style: Option<TerminalChar>,
    pub fill_style: Option<TerminalChar>,
}

impl RectDrawableBuilder {
    pub open spec fn spec_new() -> Self {
        RectDrawableBuilder { rect: None, border_thickness: None, border_style: None, fill_style: None }
    }

    pub fn new() -> (b: Self)
        ensures
            b == Self::spec_new(),
    {
        RectDrawableBuilder { rect: None, border_thickness: None, border_style: None, fill_style: None }
    }

    pub fn rect(self, rect: RectUsize) -> (b: Self)
        ensures
            b == (RectDrawableBuilder { rect: Some(rect), ..self }),
    {
        RectDrawableBuilder { rect: Some(rect), ..self }
    }

    pub fn border_thickness(self, thickness: usize) -> (b: Self)
        ensures
            b == (RectDrawableBuilder { border_thickness: Some(thickness), ..self }),
    {
        RectDrawableBuilder { border_thickness: Some(thickness), ..self }
    }

    pub fn border_style(self, style: TerminalChar) -> (b: Self)
        ensures
            b == (RectDrawableBuilder { border_style: Some(style), ..self }),
    {
        RectDrawableBuilder { border_style: Some(style), ..self }
    }

    pub fn fill_style(self, style: TerminalChar) -> (b: Self)
        ensures
            b == (RectDrawableBuilder { fill_style: Some(style), ..self }),
    {
        RectDrawableBuilder { fill_style: Some(style), ..self }
    }

    /// The rectangle, when its corners, border thickness and border
    /// character are given.
    pub open spec fn spec_build(self) -> Result<Drawable, DrawObjectBuilderError> {
        match (self.rect, self.border_thickness, self.border_style) {
            (Some(rect), Some(border_thickness), Some(border_style)) => Ok(
                Drawable::Rect(RectDrawable { rect, border_thickness, border_style, fill_style: self.fill_style }),
            ),
            _ => Err(DrawObjectBuilderError::FailedToBuildRectObject()),
        }
    }

    pub fn build(self) -> (r: Result<Drawable, DrawObjectBuilderError>)
        ensures
            r == self.spec_build(),
    {
        match (self.rect, self.border_thickness, self.border_style) {
            (Some(rect), Some(border_thickness), Some(border_style)) => Ok(
                Drawable::Rect(RectDrawable { rect, border_thickness, border_style, fill_style: self.fill_style }),
            ),
            _ => Err(DrawObjectBuilderError::FailedToBuildRectObject()),
        }
    }
}

/// The parts of a circle; only the radius is required.
#[derive(Clone, Copy, Debug)]
pub struct CircleDrawableBuilder {
    pub center: Option<PointU16>,
    pub radius: Option<u16>,
    pub border_style: Option<TerminalChar>,
    pub fill_style: Option<TerminalChar>,
}

impl CircleDrawableBuilder {
    pub open spec fn spec_new() -> Self {
        CircleDrawableBuilder { center: None, radius: None, border_style: None, fill_style: None }
    }

    pub fn new() -> (b: Self)
        ensures
            b == Self::spec_new(),
    {
        CircleDrawableBuilder { center: None, radius: None, border_style: None, fill_style: None }
    }

    pub fn center(self, center: PointU16) -> (b: Self)
        ensures
            b == (CircleDrawableBuilder { center: Some(center), ..self }),
    {
        CircleDrawableBuilder { center: Some(center), ..self }
    }

    pub fn radius(self, radius: u16) -> (b: Self)
        ensures
            b == (CircleDrawableBuilder { radius: Some(radius), ..self }),
    {
        CircleDrawableBuilder { radius: Some(radius), ..self }
    }

    pub fn border_style(self, style: TerminalChar) -> (b: Self)
        ensures
            b == (CircleDrawableBuilder { border_style: Some(style), ..self }),
    {
        CircleDrawableBuilder { border_style: Some(style), ..self }
    }

    pub fn fill_style(self, style: TerminalChar) -> (b: Self)
        ensures
            b == (CircleDrawableBuilder { fill_style: Some(style), ..self }),
    {
        CircleDrawableBuilder { fill_style: Some(style), ..self }
    }

    /// The circle, when the radius is given; the center defaults to the
    /// origin and the border to `#`.
    pub open spec fn spec_build(self) -> Result<Drawable, DrawObjectBuilderError> {
        match self.radius {
            Some(radius) => Ok(
                Drawable::Circle(
                    CircleDrawable {
                        center: match self.center {
                            Some(c) => c,
                            None => PointU16 { x: 0, y: 0 },
                        },
                        radius,
                        border_style: match self.border_style {
                            Some(s) => s,
                            None => TerminalChar { chr: '#', fg_color: None, bg_color: None },
                        },
                        fill_style: self.fill_style,
                    },
                ),
            ),
            None => Err(DrawObjectBuilderError::FailedToBuildCircleObject()),
        }
    }

    pub fn build(self) -> (r: Result<Drawable, DrawObjectBuilderError>)
        ensures
            r == self.spec_build(),
    {
        match self.radius {
            Some(radius) => {
                let center = match self.center {
                    Some(c) => c,
                    None => PointU16 { x: 0, y: 0 },
                };
                let border_style = match self.border_style {
                    Some(s) => s,
                    None => TerminalChar::from_char('#'),
                };
                Ok(Drawable::Circle(CircleDrawable { center, radius, border_style, fill_style: self.fill_style }))
            },
            None => Err(DrawObjectBuilderError::FailedToBuildCircleObject()),
        }
    }
}

/// The parts of a sprite drawable; only the sprite id is required.
#[derive(Clone, Copy, Debug)]
pub struct SpriteDrawableBuilder {
    pub position: Option<Point>,
    pub sprite_id: Option<usize>,
    pub animation_type: Option<AnimationInfo>,
}

impl SpriteDrawableBuilder {
    pub open spec fn spec_new() -> Self {
        SpriteDrawableBuilder { position: None, sprite_id: None, animation_type: None }
    }

    pub fn new() -> (b: Self)
        ensures
            b == Self::spec_new(),
    {
        SpriteDrawableBuilder { position: None, sprite_id: None, animation_type: None }
    }

    pub fn position(self, position: Point) -> (b: Self)
        ensures
            b == (SpriteDrawableBuilder { position: Some(position), ..self }),
    {
        SpriteDrawableBuilder { position: Some(position), ..self }
    }

    pub fn sprite_id(self, id: usize) -> (b: Self)
        ensures
            b == (SpriteDrawableBuilder { sprite_id: Some(id), ..self }),
    {
        SpriteDrawableBuilder { sprite_id: Some(id), ..self }
    }

    pub fn animation_type(self, anim: AnimationInfo) -> (b: Self)
        ensures
            b == (SpriteDrawableBuilder { animation_type: Some(anim), ..self }),
    {
        SpriteDrawableBuilder { animation_type: Some(anim), ..self }
    }

    /// The sprite drawable, when the sprite id is given; the position
    /// defaults to the origin and the animation to the first frame as an
    /// image. Its animation starts at the moment it is built, which is
    /// left open here.
    pub open spec fn spec_build(self) -> Result<Drawable, DrawObjectBuilderError> {
        match self.sprite_id {
            Some(sprite_id) => Ok(
                Drawable::Sprite(
                    SpriteDrawable {
                        position: match self.position {
                            Some(p) => p,
                            None => Point { x: 0, y: 0 },
                        },
                        sprite_id,
                        last_state_change: arbitrary(),
                        animation_type: match self.animation_type {
                            Some(a) => a,
                            None => AnimationInfo::Image { frame: FrameIdent::FirstFrame },
                        },
                    },
                ),
            ),
            None => Err(DrawObjectBuilderError::FailedToBuildSpriteObject()),
        }
    }

    /// `r` is what building gives, up to the start time of the animation.
    pub open spec fn built(self, r: Result<Drawable, DrawObjectBuilderError>) -> bool {
        match (self.spec_build(), r) {
            (Ok(Drawable::Sprite(a)), Ok(Drawable::Sprite(b))) => b == (SpriteDrawable { last_state_change: b.last_state_change, ..a }),
            (Err(e1), Err(e2)) => e1 == e2,
            _ => false,
        }
    }

    pub fn build(self) -> (r: Result<Drawable, DrawObjectBuilderError>)
        ensures
            self.built(r),
    {
        match self.sprite_id {
            Some(sprite_id) => {
                let position = match self.position {
                    Some(p) => p,
                    None => Point { x: 0, y: 0 },
                };
                let animation_type = match self.animation_type {
                    Some(a) => a,
                    None => AnimationInfo::Image { frame: FrameIdent::FirstFrame },
                };
                Ok(Drawable::Sprite(SpriteDrawable { position, sprite_id, last_state_change: now(), animation_type }))
            },
            None => Err(DrawObjectBuilderError::FailedToBuildSpriteObject()),
        }
    }
}

/// The parts of a video stream drawable; only the receiving end of the
/// frame channel is required.
#[derive(Debug)]
pub struct VideoStreamDrawableBuilder {
    pub position: Option<Point>,
    pub receiver: Option<flume::Receiver<StreamFrame>>,
    pub size: Option<(u16, u16)>,
}

impl VideoStreamDrawableBuilder {
    pub open spec fn spec_new() -> Self {
        VideoStreamDrawableBuilder { position: None, receiver: None, size: None }
    }

    pub fn new() -> (b: Self)
        ensures
            b == Self::spec_new(),
    {
        VideoStreamDrawableBuilder { position: None, receiver: None, size: None }
    }

    pub fn position(self, position: Point) -> (b: Self)
        ensures
            b == (VideoStreamDrawableBuilder { position: Some(position), ..self }),
    {
        VideoStreamDrawableBuilder { position: Some(position), ..self }
    }

    pub fn size(self, size: (u16, u16)) -> (b: Self)
        ensures
            b == (VideoStreamDrawableBuilder { size: Some(size), ..self }),
    {
        VideoStreamDrawableBuilder { size: Some(size), ..self }
    }

    pub fn recv(self, receiver: flume::Receiver<StreamFrame>) -> (b: Self)
        ensures
            b == (VideoStreamDrawableBuilder { receiver: Some(receiver), ..self }),
    {
        VideoStreamDrawableBuilder { receiver: Some(receiver), ..self }
    }

    /// The stream drawable, when the receiver is given; the position
    /// defaults to the origin and the size to nothing.
    pub open spec fn spec_build(self) -> Result<Drawable, DrawObjectBuilderError> {
        match self.receiver {
            Some(receiver) => Ok(
                Drawable::VideoStream(
                    VideoStreamDrawable {
                        position: match self.position {
                            Some(p) => p,
                            None => Point { x: 0, y: 0 },
                        },
                        receiver,
                        size: match self.size {
                            Some(s) => s,
                            None => (0, 0),
                        },
                    },
                ),
            ),
            None => Err(DrawObjectBuilderError::FailedToBuildVideoStream()),
        }
    }

    pub fn build(self) -> (r: Result<Drawable, DrawObjectBuilderError>)
        ensures
            r == self.spec_build(),
    {
        match self.receiver {
            Some(receiver) => {
                let position = match self.position {
                    Some(p) => p,
                    None => Point { x: 0, y: 0 },
                };
                let size = match self.size {
                    Some(s) => s,
                    None => (0, 0),
                };
                Ok(Drawable::VideoStream(VideoStreamDrawable { position, receiver, size }))
            },
            None => Err(DrawObjectBuilderError::FailedToBuildVideoStream()),
        }
    }
}

/// A new frame channel and a stream drawable at `position` that shows what
/// arrives on it; frames are sent through the returned sender.
pub fn make_videostream_drawable(position: Point) -> (r: Result<(flume::Sender<StreamFrame>, Drawable), DrawObjectBuilderError>)
    ensures
        r matches Ok((_, d)) && d matches Drawable::VideoStream(v) && v.position == position && v.size == (0u16, 0u16),
{
    let (sender, receiver) = unbounded_frame_channel();
    let drawable = VideoStreamDrawableBuilder::new().recv(receiver).position(position).build();
    match drawable {
        Ok(d) => Ok((sender, d)),
        Err(e) => Err(e),
    }
}

/// `after` is `before` holding the drawable that a drawable builder gave,
/// or `before` itself when building failed; `r` reports which.
pub open spec fn took_drawable(
    before: DrawObjectBuilder,
    after: DrawObjectBuilder,
    built: Result<Drawable, DrawObjectBuilderError>,
    r: Result<(), DrawObjectBuilderError>,
) -> bool {
    match built {
        Ok(d) => r is Ok && after == (DrawObjectBuilder { drawable: Some(d), ..before }),
        Err(e) => r == Err::<(), DrawObjectBuilderError>(e) && after == before,
    }
}

/// The parts of a draw object: its layer, screen, lifetime, shaders and
/// drawable. Building it registers it with a renderer.
#[derive(Debug)]
pub struct DrawObjectBuilder {
    pub layer: Option<usize>,
    pub shaders: Vec<Shader>,
    pub drawable: Option<Drawable>,
    pub screen_id: Option<usize>,
    pub lt: Option<ObjectLifetime>,
}

impl DrawObjectBuilder {
    pub fn new() -> (b: Self)
        ensures
            b.layer is None,
            b.shaders@.len() == 0,
            b.drawable is None,
            b.screen_id is None,
            b.lt is None,
    {
        DrawObjectBuilder { layer: None, shaders: Vec::new(), drawable: None, screen_id: None, lt: None }
    }

    pub fn layer(&mut self, layer: usize)
        ensures
            *final(self) == (DrawObjectBuilder { layer: Some(layer), ..*old(self) }),
    {
        self.layer = Some(layer);
    }

    pub fn screen(&mut self, screen_id: usize)
        ensures
            *final(self) == (DrawObjectBuilder { screen_id: Some(screen_id), ..*old(self) }),
    {
        self.screen_id = Some(screen_id);
    }

    pub fn add_lifetime(&mut self, lt: ObjectLifetime)
        ensures
            *final(self) == (DrawObjectBuilder { lt: Some(lt), ..*old(self) }),
    {
        self.lt = Some(lt);
    }

    /// Adds a shader after those already given.
    pub fn shader(&mut self, shader: Shader)
        ensures
            final(self).shaders@ == old(self).shaders@.push(shader),
            final(self).layer == old(self).layer,
            final(self).drawable == old(self).drawable,
            final(self).screen_id == old(self).screen_id,
            final(self).lt == old(self).lt,
    {
        self.shaders.push(shader);
    }

    pub fn drawable(&mut self, drawable: Drawable)
        ensures
            *final(self) == (DrawObjectBuilder { drawable: Some(drawable), ..*old(self) }),
    {
        self.drawable = Some(drawable);
    }

    /// Builds a sprite drawable from what `build_fn` makes of an empty
    /// builder and keeps it, or reports why it could not be built.
    pub fn sprite_drawable<F: FnOnce(SpriteDrawableBuilder) -> SpriteDrawableBuilder>(&mut self, build_fn: F) -> (r: Result<(), DrawObjectBuilderError>)
        requires
            call_requires(build_fn, (SpriteDrawableBuilder::spec_new(),)),
        ensures
            exists|b: SpriteDrawableBuilder, built: Result<Drawable, DrawObjectBuilderError>|
                #[trigger] call_ensures(build_fn, (SpriteDrawableBuilder::spec_new(),), b) && #[trigger] b.built(built)
                    && took_drawable(*old(self), *final(self), built, r),
    {
        let builder = build_fn(SpriteDrawableBuilder::new());
        match builder.build() {
            Ok(d) => {
                self.drawable = Some(d);
                Ok(())
            },
            Err(e) => Err(e),
        }
    }

    /// Builds a circle from what `build_fn` makes of an empty builder and
    /// keeps it, or reports why it could not be built.
    pub fn circle_drawable<F: FnOnce(CircleDrawableBuilder) -> CircleDrawableBuilder>(&mut self, build_fn: F) -> (r: Result<(), DrawObjectBuilderError>)
        requires
            call_requires(build_fn, (CircleDrawableBuilder::spec_new(),)),
        ensures
            exists|b: CircleDrawableBuilder|
                #[trigger] call_ensures(build_fn, (CircleDrawableBuilder::spec_new(),), b) && took_drawable(
                    *old(self),
                    *final(self),
                    b.spec_build(),
                    r,
                ),
    {
        let builder = build_fn(CircleDrawableBuilder::new());
        match builder.build() {
            Ok(d) => {
                self.drawable = Some(d);
                Ok(())
            },
            Err(e) => Err(e),
        }
    }

    /// Builds a line from what `build_fn` makes of an empty builder and
    /// keeps it, or reports why it could not be built.
    pub fn line_drawable<F: FnOnce(LineDrawableBuilder) -> LineDrawableBuilder>(&mut self, build_fn: F) -> (r: Result<(), DrawObjectBuilderError>)
        requires
            call_requires(build_fn, (LineDrawableBuilder::spec_new(),)),
        ensures
            exists|b: LineDrawableBuilder|
                #[trigger] call_ensures(build_fn, (LineDrawableBuilder::spec_new(),), b) && took_drawable(
                    *old(self),
                    *final(self),
                    b.spec_build(),
                    r,
                ),
    {
        let builder = build_fn(LineDrawableBuilder::new());
        match builder.build() {
            Ok(d) => {
                self.drawable = Some(d);
                Ok(())
            },
            Err(e) => Err(e),
        }
    }

    /// Builds a rectangle from what `build_fn` makes of an empty builder
    /// and keeps it, or reports why it could not be built.
    pub fn rect_drawable<F: FnOnce(RectDrawableBuilder) -> RectDrawableBuilder>(&mut self, build_fn: F) -> (r: Result<(), DrawObjectBuilderError>)
        requires
            call_requires(build_fn, (RectDrawableBuilder::spec_new(),)),
        ensures
            exists|b: RectDrawableBuilder|
                #[trigger] call_ensures(build_fn, (RectDrawableBuilder::spec_new(),), b) && took_drawable(
                    *old(self),
                    *final(self),
                    b.spec_build(),
                    r,
                ),
    {
        let builder = build_fn(RectDrawableBuilder::new());
        match builder.build() {
            Ok(d) => {
                self.drawable = Some(d);
                Ok(())
            },
            Err(e) => Err(e),
        }
    }

    /// Builds a video stream drawable from what `build_fn` makes of an
    /// empty builder and keeps it, or reports why it could not be built.
    pub fn videostream_drawable<F: FnOnce(VideoStreamDrawableBuilder) -> VideoStreamDrawableBuilder>(&mut self, build_fn: F) -> (r: Result<(), DrawObjectBuilderError>)
        requires
            call_requires(build_fn, (VideoStreamDrawableBuilder::spec_new(),)),
        ensures
            exists|b: VideoStreamDrawableBuilder|
                #[trigger] call_ensures(build_fn, (VideoStreamDrawableBuilder::spec_new(),), b) && took_drawable(
                    *old(self),
                    *final(self),
                    b.spec_build(),
                    r,
                ),
    {
        let builder = build_fn(VideoStreamDrawableBuilder::new());
        match builder.build() {
            Ok(d) => {
                self.drawable = Some(d);
                Ok(())
            },
            Err(e) => Err(e),
        }
    }

    /// Registers the object with the renderer for its screen. The layer,
    /// the screen, the drawable and the lifetime are required, checked in
    /// this order; the drawable is handed over before the lifetime is
    /// checked, so a missing lifetime leaves the builder without it. The
    /// object's time of creation is the moment it is built.
    pub fn build(&mut self, renderer: &mut Renderer) -> (r: Result<DrawObjectKey, AppError>)
        requires
            old(renderer).wf(),
            old(self).drawable matches Some(d) ==> d.draw_ok(old(renderer).spec_sprites()) && d.bounding_ok() && d.size_ok(),
        ensures
            final(renderer).wf(),
            old(self).layer is None ==> r == Err::<DrawObjectKey, AppError>(AppError::DrawObjectBuilder(DrawObjectBuilderError::NoLayerAdded()))
                && *final(self) == *old(self) && *final(renderer) == *old(renderer),
            old(self).layer is Some && old(self).screen_id is None ==> r == Err::<DrawObjectKey, AppError>(
                AppError::DrawObjectBuilder(DrawObjectBuilderError::NoScreenAdded()),
            ) && *final(self) == *old(self) && *final(renderer) == *old(renderer),
            old(self).layer is Some && old(self).screen_id is Some && old(self).drawable is None ==> r == Err::<
                DrawObjectKey,
                AppError,
            >(AppError::DrawObjectBuilder(DrawObjectBuilderError::NoDrawableAdded())) && *final(self) == *old(self)
                && *final(renderer) == *old(renderer),
            old(self).layer is Some && old(self).screen_id is Some && old(self).drawable is Some && old(self).lt is None
                ==> r == Err::<DrawObjectKey, AppError>(AppError::DrawObjectBuilder(DrawObjectBuilderError::NoLifetimeAdded()))
                && *final(self) == (DrawObjectBuilder { drawable: None, ..*old(self) }) && *final(renderer) == *old(renderer),
            old(self).layer is Some && old(self).screen_id is Some && old(self).drawable is Some && old(self).lt is Some
                ==> {
                &&& *final(self) == (DrawObjectBuilder { drawable: None, lt: None, ..*old(self) })
                &&& exists|o: DrawObject, rd: Result<DrawObjectKey, DrawError>|
                    #[trigger] old(renderer).registered(*final(renderer), old(self).screen_id->0, o, rd)
                    && o.layer == old(self).layer->0 && o.lifetime == old(self).lt->0 && o.shaders@ == old(self).shaders@
                    && o.drawable == old(self).drawable->0 && r == match rd {
                        Ok(k) => Ok::<DrawObjectKey, AppError>(k),
                        Err(e) => Err::<DrawObjectKey, AppError>(AppError::Draw(e)),
                    }
            },
    {
        let layer = match self.layer {
            Some(l) => l,
            None => {
                return Err(AppError::DrawObjectBuilder(DrawObjectBuilderError::NoLayerAdded()));
            },
        };
        let screen_id = match self.screen_id {
            Some(s) => s,
            None => {
                return Err(AppError::DrawObjectBuilder(DrawObjectBuilderError::NoScreenAdded()));
            },
        };
        let drawable = match self.drawable.take() {
            Some(d) => d,
            None => {
                return Err(AppError::DrawObjectBuilder(DrawObjectBuilderError::NoDrawableAdded()));
            },
        };
        let lifetime = match self.lt.take() {
            Some(lt) => lt,
            None => {
                return Err(AppError::DrawObjectBuilder(DrawObjectBuilderError::NoLifetimeAdded()));
            },
        };
        let mut shaders: Vec<Shader> = Vec::new();
        let mut i: usize = 0;
        while i < self.shaders.len()
            invariant
                0 <= i <= self.shaders@.len(),
                shaders@ == self.shaders@.take(i as int),
            decreases self.shaders@.len() - i,
        {
            shaders.push(self.shaders[i]);
            assert(shaders@ =~= self.shaders@.take(i + 1));
            i += 1;
        }
        assert(shaders@ =~= self.shaders@);
        let obj = DrawObject { lifetime, creation_time: now(), layer, shaders, drawable };
        match renderer.register_drawable(screen_id, obj) {
            Ok(k) => Ok(k),
            Err(e) => Err(AppError::Draw(e)),
        }
    }
}

} // verus!
