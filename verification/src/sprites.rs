//! Sprites (frame sequences of coloured characters), their registry, and
//! the choice of the frame an animation shows at a given moment.
use crate::cell::{BasicDraw, TerminalChar};
use crate::clock::{as_millis, elapsed};
use crate::errors::{DrawError, FileError};
use crate::geometry::Point;
use std::time::Instant;
use vstd::prelude::*;

verus! {

/// The frames of a sprite, each a row-major buffer of `width * height`
/// characters.
#[derive(Clone, Debug)]
pub struct SpriteEntry {
    pub width: u16,
    pub height: u16,
    pub frames: Vec<Vec<TerminalChar>>,
}

impl SpriteEntry {
    /// Every frame holds exactly `width * height` characters.
    pub open spec fn wf(&self) -> bool {
        forall|i: int| 0 <= i < self.frames.len() ==> (#[trigger] self.frames[i]).len() == self.width * self.height
    }

    /// `(frame count, height, width)`.
    pub fn size(&self) -> (s: (usize, usize, usize))
        ensures
            s == (self.frames.len(), self.height as usize, self.width as usize),
    {
        (self.frames.len(), self.height as usize, self.width as usize)
    }
}

/// All loaded sprites; a sprite's id is its index.
#[derive(Clone, Debug)]
pub struct SpriteRegistry {
    pub sprites: Vec<SpriteEntry>,
}

impl SpriteRegistry {
    pub open spec fn wf(&self) -> bool {
        forall|i: int| 0 <= i < self.sprites.len() ==> (#[trigger] self.sprites[i]).wf()
    }

    pub fn new() -> (r: SpriteRegistry)
        ensures
            r.sprites@.len() == 0,
            r.wf(),
    {
        SpriteRegistry { sprites: Vec::new() }
    }

    /// Stores the sprite and returns its id, the number of sprites held
    /// before.
    pub fn add(&mut self, obj: SpriteEntry) -> (id: usize)
        requires
            old(self).wf(),
            obj.wf(),
        ensures
            final(self).wf(),
            id == old(self).sprites@.len(),
            final(self).sprites@ == old(self).sprites@.push(obj),
    {
        let idx = self.sprites.len();
        self.sprites.push(obj);
        proof {
            assert forall|i: int| 0 <= i < self.sprites.len() implies (#[trigger] self.sprites[i]).wf() by {
                if i < idx {
                    assert(self.sprites[i] == old(self).sprites[i]);
                }
            }
        }
        idx
    }

    /// The sprite with this id, if any.
    pub fn get(&self, id: &usize) -> (r: Option<&SpriteEntry>)
        ensures
            *id < self.sprites@.len() ==> r == Some(&self.sprites@[*id as int]),
            *id >= self.sprites@.len() ==> r is None,
    {
        if *id < self.sprites.len() {
            Some(&self.sprites[*id])
        } else {
            None
        }
    }
}

/// What happens when a video animation reaches its last frame.
#[derive(Clone, Copy, PartialEq, Eq, Debug, Structural)]
pub enum VideoLoopType {
    /// Start again at the first frame.
    Loop,
    /// Stay on the last frame.
    NoLoop,
    /// Play forwards and backwards; not supported by drawing.
    Boomerang,
    /// Stop drawing anything.
    KillOnFinish,
}

/// Playback speed of a video animation.
#[derive(Clone, Copy, PartialEq, Eq, Debug, Structural)]
pub enum VideoSpeed {
    Fps(u16),
    MillisecondsPerFrame(u16),
}

/// A frame of a sprite, by position.
#[derive(Clone, Copy, PartialEq, Eq, Debug, Structural)]
pub enum FrameIdent {
    FirstFrame,
    SpecificFrame(u16),
    LastFrame,
}

/// How a sprite is shown: one fixed frame, or a range of frames played
/// at some speed.
#[derive(Clone, Copy, PartialEq, Eq, Debug, Structural)]
pub enum AnimationInfo {
    Image { frame: FrameIdent },
    Video { loop_type: VideoLoopType, speed: VideoSpeed, start_frame: FrameIdent, end_frame: FrameIdent },
}

impl Default for AnimationInfo {
    /// A looping video over all frames at one frame per second.
    fn default() -> (a: Self)
        ensures
            a == (AnimationInfo::Video {
                loop_type: VideoLoopType::Loop,
                speed: VideoSpeed::Fps(1),
                start_frame: FrameIdent::FirstFrame,
                end_frame: FrameIdent::LastFrame,
            }),
    {
        AnimationInfo::Video {
            loop_type: VideoLoopType::Loop,
            speed: VideoSpeed::Fps(1),
            start_frame: FrameIdent::FirstFrame,
            end_frame: FrameIdent::LastFrame,
        }
    }
}

/// The frame index an identifier stands for in a sprite of `frame_count`
/// frames.
pub open spec fn spec_frame_idx(ident: FrameIdent, frame_count: nat) -> int {
    match ident {
        FrameIdent::FirstFrame => 0,
        FrameIdent::SpecificFrame(i) => i as int,
        FrameIdent::LastFrame => frame_count - 1,
    }
}

/// The identifier can be resolved: the last frame of an empty sprite
/// cannot.
pub open spec fn frame_ident_ok(ident: FrameIdent, frame_count: nat) -> bool {
    ident is LastFrame ==> frame_count > 0
}

pub fn get_frame_idx(ident: &FrameIdent, sprite: &SpriteEntry) -> (idx: usize)
    requires
        frame_ident_ok(*ident, sprite.frames@.len()),
    ensures
        idx == spec_frame_idx(*ident, sprite.frames@.len()),
{
    match ident {
        FrameIdent::FirstFrame => 0,
        FrameIdent::SpecificFrame(idx) => *idx as usize,
        FrameIdent::LastFrame => sprite.frames.len() - 1,
    }
}

/// Frames played after `elapsed_ms` milliseconds, truncated to `u16`.
pub open spec fn spec_frames_since(speed: VideoSpeed, elapsed_ms: u128) -> u16 {
    match speed {
        VideoSpeed::Fps(fps) => ((elapsed_ms * fps) / 1000) as u16,
        VideoSpeed::MillisecondsPerFrame(ms) => (elapsed_ms / (ms as u128)) as u16,
    }
}

/// The frames played after `elapsed_ms` milliseconds, while their count
/// fits in `u16`, are the whole frames that time holds: at `fps` frames a
/// second `n` frames take `1000 n / fps` ms, at `ms` a frame `n ms`.
pub proof fn frames_since_counts_whole_frames(speed: VideoSpeed, elapsed_ms: u128)
    ensures
        speed matches VideoSpeed::Fps(fps) ==> ((elapsed_ms * fps) / 1000 <= 65535 ==> {
            let n = spec_frames_since(speed, elapsed_ms) as int;
            n * 1000 <= elapsed_ms * fps < (n + 1) * 1000
        }),
        speed matches VideoSpeed::MillisecondsPerFrame(ms) ==> (ms > 0 && elapsed_ms / (ms as u128) <= 65535 ==> {
            let n = spec_frames_since(speed, elapsed_ms) as int;
            n * ms <= elapsed_ms < (n + 1) * ms
        }),
{
    match speed {
        VideoSpeed::Fps(fps) => {
            let p = elapsed_ms * fps;
            assert(p / 1000 * 1000 <= p < (p / 1000 + 1) * 1000) by (nonlinear_arith)
                requires
                    p >= 0,
            ;
        },
        VideoSpeed::MillisecondsPerFrame(ms) => {
            if ms > 0 {
                let q = elapsed_ms / (ms as u128);
                assert(q * ms <= elapsed_ms < (q + 1) * ms) by (nonlinear_arith)
                    requires
                        ms > 0,
                        q == elapsed_ms / (ms as u128),
                ;
            }
        },
    }
}

/// The speed can be evaluated: a zero frame duration cannot.
pub open spec fn speed_ok(speed: VideoSpeed) -> bool {
    speed matches VideoSpeed::MillisecondsPerFrame(ms) ==> ms > 0
}

pub fn frames_since(speed: &VideoSpeed, elapsed_ms: u128) -> (n: u16)
    requires
        speed_ok(*speed),
        elapsed_ms <= 18446744073709551615999u128,
    ensures
        n == spec_frames_since(*speed, elapsed_ms),
{
    match speed {
        VideoSpeed::Fps(fps) => {
            assert(elapsed_ms * (*fps as u128) <= 18446744073709551615999u128 * 65535) by (nonlinear_arith)
                requires
                    elapsed_ms <= 18446744073709551615999u128,
                    *fps <= 65535,
            ;
            #[verifier::truncate] (((elapsed_ms * (*fps as u128)) / 1000) as u16)
        },
        VideoSpeed::MillisecondsPerFrame(ms) => #[verifier::truncate] ((elapsed_ms / (*ms as u128)) as u16),
    }
}

/// The animation can be played on a sprite of `frame_count` frames: its
/// frame identifiers resolve, a video does not end before it starts, is
/// not `Boomerang`, has an evaluable speed, and a looping one spans a
/// range whose length is not a multiple of 65536.
pub open spec fn animation_ok(anim: AnimationInfo, frame_count: nat) -> bool {
    match anim {
        AnimationInfo::Image { frame } => frame_ident_ok(frame, frame_count),
        AnimationInfo::Video { loop_type, speed, start_frame, end_frame } => {
            &&& frame_ident_ok(start_frame, frame_count)
            &&& frame_ident_ok(end_frame, frame_count)
            &&& spec_frame_idx(start_frame, frame_count) <= spec_frame_idx(end_frame, frame_count)
            &&& spec_frame_idx(end_frame, frame_count) - spec_frame_idx(start_frame, frame_count) < usize::MAX
            &&& !(loop_type is Boomerang)
            &&& speed_ok(speed)
            &&& (loop_type is Loop ==> (spec_frame_idx(end_frame, frame_count) - spec_frame_idx(
                start_frame,
                frame_count,
            ) + 1) as u16 != 0)
        },
    }
}

/// The frame shown `elapsed_ms` milliseconds after the animation started,
/// or `None` when a `KillOnFinish` video is over. A video counts the
/// frames played so far (truncated to `u16`) and maps that count into its
/// range: `Loop` wraps around, `NoLoop` stays on the last frame.
pub open spec fn spec_select_frame(anim: AnimationInfo, frame_count: nat, elapsed_ms: u128) -> Option<int> {
    match anim {
        AnimationInfo::Image { frame } => Some(spec_frame_idx(frame, frame_count)),
        AnimationInfo::Video { loop_type, speed, start_frame, end_frame } => {
            let start = spec_frame_idx(start_frame, frame_count);
            let total = spec_frame_idx(end_frame, frame_count) - start + 1;
            let n = spec_frames_since(speed, elapsed_ms) as int;
            match loop_type {
                VideoLoopType::Loop => Some(start + n % ((total as u16) as int)),
                VideoLoopType::NoLoop => if n >= (total as u16) as int {
                    Some(start + ((total - 1) as u16) as int)
                } else {
                    Some(start + n)
                },
                VideoLoopType::KillOnFinish => if n >= (total as u16) as int {
                    None
                } else {
                    Some(start + n)
                },
                VideoLoopType::Boomerang => None,
            }
        },
    }
}

/// Every frame the animation can show exists: the image's frame, or a
/// video's end frame (and so every frame from its start on).
pub open spec fn frames_exist(anim: AnimationInfo, frame_count: nat) -> bool {
    match anim {
        AnimationInfo::Image { frame } => spec_frame_idx(frame, frame_count) < frame_count,
        AnimationInfo::Video { end_frame, .. } => spec_frame_idx(end_frame, frame_count) < frame_count,
    }
}

/// A playable animation whose frames exist only ever shows an existing
/// frame.
pub proof fn lemma_selected_frame_exists(anim: AnimationInfo, frame_count: nat, elapsed_ms: u128)
    requires
        animation_ok(anim, frame_count),
        frames_exist(anim, frame_count),
    ensures
        spec_select_frame(anim, frame_count, elapsed_ms) matches Some(f) ==> 0 <= f < frame_count,
{
    match anim {
        AnimationInfo::Image { frame } => {},
        AnimationInfo::Video { loop_type, speed, start_frame, end_frame } => {
            let start = spec_frame_idx(start_frame, frame_count);
            let total = spec_frame_idx(end_frame, frame_count) - start + 1;
            let t16 = (total as u16) as int;
            let m16 = ((total - 1) as u16) as int;
            let n = spec_frames_since(speed, elapsed_ms) as int;
            assert(start >= 0);
            assert(total >= 1);
            assert(t16 <= total) by {
                if total <= 65535 {
                    assert(t16 == total);
                }
            }
            assert(m16 <= total - 1) by {
                if total - 1 <= 65535 {
                    assert(m16 == total - 1);
                }
            }
            match loop_type {
                VideoLoopType::Loop => {
                    assert(t16 > 0);
                    assert(0 <= n % t16 < t16);
                },
                _ => {},
            }
        },
    }
}

/// Chooses the frame to show (see `spec_select_frame`).
pub fn select_frame(anim: &AnimationInfo, sprite: &SpriteEntry, elapsed_ms: u128) -> (r: Option<usize>)
    requires
        animation_ok(*anim, sprite.frames@.len()),
        elapsed_ms <= 18446744073709551615999u128,
    ensures
        r matches Some(i) ==> spec_select_frame(*anim, sprite.frames@.len(), elapsed_ms) == Some(i as int),
        r is None ==> spec_select_frame(*anim, sprite.frames@.len(), elapsed_ms) is None,
{
    match anim {
        AnimationInfo::Image { frame } => Some(get_frame_idx(frame, sprite)),
        AnimationInfo::Video { loop_type, speed, start_frame, end_frame } => {
            let real_start = get_frame_idx(start_frame, sprite);
            let real_end = get_frame_idx(end_frame, sprite);
            let n = frames_since(speed, elapsed_ms);
            let total = real_end - real_start + 1;
            let total16: u16 = #[verifier::truncate] (total as u16);
            assert(total16 <= total) by (bit_vector)
                requires
                    total16 == total as u16,
            ;
            assert((total - 1) as u16 <= total - 1) by (bit_vector)
                requires
                    total >= 1,
            ;
            let in_range: Option<u16> = match loop_type {
                VideoLoopType::Loop => Some(n % total16),
                VideoLoopType::NoLoop => {
                    if n >= total16 {
                        Some(#[verifier::truncate] ((total - 1) as u16))
                    } else {
                        Some(n)
                    }
                },
                VideoLoopType::KillOnFinish => {
                    if n >= total16 {
                        None
                    } else {
                        Some(n)
                    }
                },
                VideoLoopType::Boomerang => None,
            };
            match in_range {
                Some(f) => {
                    assert(real_start + f <= real_end);
                    Some(real_start + f as usize)
                },
                None => None,
            }
        },
    }
}

/// `a + b`, saturating at the bounds of `i32`.
pub open spec fn spec_sat_add_i32(a: i32, b: i32) -> i32 {
    if a + b > i32::MAX {
        i32::MAX
    } else if a + b < i32::MIN {
        i32::MIN
    } else {
        (a + b) as i32
    }
}

pub fn sat_add_i32(a: i32, b: i32) -> (r: i32)
    ensures
        r == spec_sat_add_i32(a, b),
{
    let s: i64 = a as i64 + b as i64;
    if s > 2147483647i64 {
        2147483647i32
    } else if s < -2147483648i64 {
        -2147483648i32
    } else {
        s as i32
    }
}

/// The draw of pixel `i` of a frame placed at `origin`, with rows of
/// `stride` pixels.
pub open spec fn spec_frame_pixel(origin: Point, stride: nat, i: int, chr: TerminalChar) -> BasicDraw {
    BasicDraw {
        pos: Point {
            x: spec_sat_add_i32(origin.x, (i % stride as int) as i32),
            y: spec_sat_add_i32(origin.y, (i / stride as int) as i32),
        },
        chr,
    }
}

/// Places the pixels of a frame at `origin`, `stride` pixels per row.
pub fn place_frame(origin: Point, pixels: &Vec<TerminalChar>, stride: usize) -> (out: Vec<BasicDraw>)
    requires
        stride > 0 || pixels@.len() == 0,
        stride <= 65535,
        pixels@.len() <= 65535 * 65535,
    ensures
        out@.len() == pixels@.len(),
        forall|i: int|
            0 <= i < pixels@.len() ==> #[trigger] out@[i] == spec_frame_pixel(origin, stride as nat, i, pixels@[i]),
{
    let mut out: Vec<BasicDraw> = Vec::new();
    let mut i: usize = 0;
    while i < pixels.len()
        invariant
            0 <= i <= pixels@.len(),
            stride > 0 || pixels@.len() == 0,
            stride <= 65535,
            pixels@.len() <= 65535 * 65535,
            out@.len() == i,
            forall|j: int| 0 <= j < i ==> #[trigger] out@[j] == spec_frame_pixel(origin, stride as nat, j, pixels@[j]),
        decreases pixels@.len() - i,
    {
        let dx: i32 = (i % stride) as i32;
        assert(i / stride <= i) by {
            vstd::arithmetic::div_mod::lemma_div_is_ordered_by_denominator(i as int, 1, stride as int);
        }
        let dy: i32 = (i / stride) as i32;
        let d = BasicDraw { pos: Point { x: sat_add_i32(origin.x, dx), y: sat_add_i32(origin.y, dy) }, chr: pixels[i] };
        out.push(d);
        i += 1;
    }
    out
}

/// Whether the frame identifier can be resolved (see `frame_ident_ok`).
pub fn check_frame_ident(ident: &FrameIdent, frame_count: usize) -> (b: bool)
    ensures
        b == frame_ident_ok(*ident, frame_count as nat),
{
    match ident {
        FrameIdent::LastFrame => frame_count > 0,
        _ => true,
    }
}

/// Whether the animation can be played on a sprite of `frame_count`
/// frames (see `animation_ok`).
pub fn check_animation(anim: &AnimationInfo, frame_count: usize) -> (b: bool)
    ensures
        b == animation_ok(*anim, frame_count as nat),
{
    match anim {
        AnimationInfo::Image { frame } => check_frame_ident(frame, frame_count),
        AnimationInfo::Video { loop_type, speed, start_frame, end_frame } => {
            if !check_frame_ident(start_frame, frame_count) || !check_frame_ident(end_frame, frame_count) {
                return false;
            }
            let s: usize = match start_frame {
                FrameIdent::FirstFrame => 0,
                FrameIdent::SpecificFrame(i) => *i as usize,
                FrameIdent::LastFrame => frame_count - 1,
            };
            let e: usize = match end_frame {
                FrameIdent::FirstFrame => 0,
                FrameIdent::SpecificFrame(i) => *i as usize,
                FrameIdent::LastFrame => frame_count - 1,
            };
            if s > e || e - s == usize::MAX {
                return false;
            }
            match loop_type {
                VideoLoopType::Boomerang => {
                    return false;
                },
                _ => {},
            }
            match speed {
                VideoSpeed::MillisecondsPerFrame(ms) => {
                    if *ms == 0 {
                        return false;
                    }
                },
                _ => {},
            }
            match loop_type {
                VideoLoopType::Loop => {
                    let total: usize = e - s + 1;
                    let t16: u16 = #[verifier::truncate] (total as u16);
                    t16 != 0
                },
                _ => true,
            }
        },
    }
}

impl SpriteEntry {
    /// Whether every frame holds exactly `width * height` characters.
    pub fn check_wf(&self) -> (b: bool)
        ensures
            b == self.wf(),
    {
        assert(self.width * self.height <= 65535 * 65535) by (nonlinear_arith)
            requires
                self.width <= 65535,
                self.height <= 65535,
        ;
        let n: usize = self.width as usize * self.height as usize;
        let mut i: usize = 0;
        while i < self.frames.len()
            invariant
                0 <= i <= self.frames@.len(),
                n == self.width * self.height,
                forall|j: int| 0 <= j < i ==> (#[trigger] self.frames[j]).len() == self.width * self.height,
            decreases self.frames@.len() - i,
        {
            if self.frames[i].len() != n {
                return false;
            }
            i += 1;
        }
        true
    }
}

impl SpriteRegistry {
    /// Whether every sprite is well formed.
    pub fn check_wf(&self) -> (b: bool)
        ensures
            b == self.wf(),
    {
        let mut i: usize = 0;
        while i < self.sprites.len()
            invariant
                0 <= i <= self.sprites@.len(),
                forall|j: int| 0 <= j < i ==> (#[trigger] self.sprites[j]).wf(),
            decreases self.sprites@.len() - i,
        {
            if !self.sprites[i].check_wf() {
                return false;
            }
            i += 1;
        }
        true
    }
}

/// A one-frame sprite from frame `frame` (the first when `None`) of a
/// video of the given size; a frame the video does not have is an error
/// naming the video and the frame.
pub fn single_frame_sprite(
    width: u16,
    height: u16,
    frames: Vec<Vec<TerminalChar>>,
    frame: Option<usize>,
    video_path: String,
) -> (r: Result<SpriteEntry, FileError>)
    ensures
        ({
            let idx = match frame {
                Some(f) => f,
                None => 0usize,
            };
            &&& idx < frames@.len() ==> (r matches Ok(s) && s.width == width && s.height == height && s.frames@
                == seq![frames@[idx as int]])
            &&& idx >= frames@.len() ==> r == Err::<SpriteEntry, FileError>(
                FileError::VideoFrameNotFound { video_path, frame_id: idx },
            )
        }),
{
    let idx = match frame {
        Some(f) => f,
        None => 0,
    };
    if idx >= frames.len() {
        return Err(FileError::VideoFrameNotFound { video_path, frame_id: idx });
    }
    let mut frames = frames;
    let chosen = frames.swap_remove(idx);
    let mut only: Vec<Vec<TerminalChar>> = Vec::new();
    only.push(chosen);
    Ok(SpriteEntry { width, height, frames: only })
}

/// A sprite placed at a position and shown with an animation that started


/// at `last_state_change`.
#[derive(Clone, Debug)]
pub struct SpriteDrawable {
    pub position: Point,
    pub sprite_id: usize,
    pub last_state_change: Instant,
    pub animation_type: AnimationInfo,
}

impl SpriteDrawable {
    /// The draws of frame `frame_idx` of the sprite: every pixel at the
    /// sprite's position, with rows of `size.0` pixels. A missing frame is
    /// an error.
    pub fn draw_frame(&self, sprite: &SpriteEntry, frame_idx: usize, size: (usize, usize)) -> (r: Result<
        Vec<BasicDraw>,
        DrawError,
    >)
        requires
            sprite.wf(),
            size.0 == sprite.height,
        ensures
            frame_idx >= sprite.frames@.len() ==> r == Err::<Vec<BasicDraw>, DrawError>(
                DrawError::SpriteFrameNotFound(self.sprite_id, frame_idx as u16),
            ),
            frame_idx < sprite.frames@.len() ==> (r matches Ok(out) && out@.len()
                == sprite.frames@[frame_idx as int]@.len() && forall|i: int|
                0 <= i < out@.len() ==> #[trigger] out@[i] == spec_frame_pixel(
                    self.position,
                    size.0 as nat,
                    i,
                    sprite.frames@[frame_idx as int]@[i],
                )),
    {
        if frame_idx >= sprite.frames.len() {
            return Err(DrawError::SpriteFrameNotFound(self.sprite_id, frame_idx as u16));
        }
        let frame = &sprite.frames[frame_idx];
        assert(frame@.len() == sprite.width * sprite.height);
        assert(sprite.width * sprite.height <= 65535 * 65535) by (nonlinear_arith)
            requires
                sprite.width <= 65535,
                sprite.height <= 65535,
        ;
        assert(size.0 > 0 || frame@.len() == 0) by (nonlinear_arith)
            requires
                size.0 == sprite.height,
                frame@.len() == sprite.width * sprite.height,
        ;
        Ok(place_frame(self.position, frame, size.0))
    }

    /// The animation of this drawable can be played on its sprite, if the
    /// sprite exists.
    pub open spec fn draw_ok(&self, sprites: SpriteRegistry) -> bool {
        self.sprite_id < sprites.sprites@.len() ==> animation_ok(
            self.animation_type,
            sprites.sprites@[self.sprite_id as int].frames@.len(),
        )
    }

    /// The draws of the frame the animation shows now. A missing sprite or
    /// frame is an error; a finished `KillOnFinish` video draws nothing.
    /// How much time has passed is read from the clock, so the contract
    /// states the result for some elapsed time.
    pub fn draw(&mut self, sprites: &SpriteRegistry) -> (r: Result<Vec<BasicDraw>, DrawError>)
        requires
            sprites.wf(),
            old(self).draw_ok(*sprites),
        ensures
            *final(self) == *old(self),
            old(self).sprite_id >= sprites.sprites@.len() ==> r == Err::<Vec<BasicDraw>, DrawError>(
                DrawError::SpriteNotFound(old(self).sprite_id),
            ),
            old(self).sprite_id < sprites.sprites@.len() ==> exists|e: u128|
                e <= 18446744073709551615999u128 && #[trigger] old(self).spec_draw_result(
                    sprites.sprites@[old(self).sprite_id as int],
                    e,
                    r,
                ),
    {
        let sprite = match sprites.get(&self.sprite_id) {
            Some(s) => s,
            None => {
                return Err(DrawError::SpriteNotFound(self.sprite_id));
            },
        };
        let size = sprite.size();
        proof {
            assert(sprites.sprites@[self.sprite_id as int].wf());
        }
        let d = elapsed(&self.last_state_change);
        let e = as_millis(&d);
        let r = match select_frame(&self.animation_type, sprite, e) {
            Some(frame_idx) => self.draw_frame(sprite, frame_idx, (size.1, size.2)),
            None => Ok(Vec::new()),
        };
        assert(self.spec_draw_result(*sprite, e, r));
        r
    }

    /// `r` is what drawing the sprite after `e` milliseconds gives: no
    /// draws when no frame is shown, else the placed frame or a missing
    /// frame error.
    pub open spec fn spec_draw_result(&self, sprite: SpriteEntry, e: u128, r: Result<Vec<BasicDraw>, DrawError>) -> bool {
        match spec_select_frame(self.animation_type, sprite.frames@.len(), e) {
            None => r matches Ok(v) && v@.len() == 0,
            Some(f) => if f >= sprite.frames@.len() {
                r == Err::<Vec<BasicDraw>, DrawError>(DrawError::SpriteFrameNotFound(self.sprite_id, f as u16))
            } else {
                r matches Ok(out) && out@.len() == sprite.frames@[f]@.len() && forall|i: int|
                    0 <= i < out@.len() ==> #[trigger] out@[i] == spec_frame_pixel(
                        self.position,
                        sprite.height as nat,
                        i,
                        sprite.frames@[f]@[i],
                    )
            },
        }
    }
}

} // verus!
