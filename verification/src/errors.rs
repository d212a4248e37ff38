//! Error values of the library.
use vstd::prelude::*;

verus! {

/// Failures while drawing or addressing screens, objects and sprites.
#[derive(Debug, Clone, PartialEq, Eq)]
pub enum DrawError {
    /// A drawable of another kind was expected.
    WrongDrawableType { expected: String, found: String },
    /// No screen has this key.
    DisplayKeyNotFound(usize),
    /// No object has this id on this screen.
    DrawableHandleNotFound { screen_id: usize, obj_id: usize },
    /// No sprite has this id.
    SpriteNotFound(usize),
    /// The sprite has no such frame.
    SpriteFrameNotFound(usize, u16),
    /// A reply could not be sent over a channel.
    ChannelSendError(String),
}

/// Failures while loading sprite files.
#[derive(Debug, Clone, PartialEq, Eq)]
pub enum FileError {
    /// The file at this path could not be read.
    FailedReadingPath { path: String },
    /// The video has no frame with this index.
    VideoFrameNotFound { video_path: String, frame_id: usize },
}

/// A draw object could not be built from the parts given to its builder.
#[derive(Debug, Clone, Copy, PartialEq, Eq, Structural)]
pub enum DrawObjectBuilderError {
    NoDrawableAdded(),
    NoLayerAdded(),
    NoScreenAdded(),
    NoLifetimeAdded(),
    FailedToBuildSpriteObject(),
    FailedToBuildCircleObject(),
    FailedToBuildLineObject(),
    FailedToBuildPolygonObject(),
    FailedToBuildRectObject(),
    FailedToBuildVideoStream(),
}

/// Any failure of the library's operations.
#[derive(Debug, Clone, PartialEq, Eq)]
pub enum AppError {
    File(FileError),
    DrawObjectBuilder(DrawObjectBuilderError),
    Draw(DrawError),
}

} // verus!
