use termdraw::errors::{AppError, DrawError, DrawObjectBuilderError, FileError};

#[test]
fn errors_compare_by_variant_and_fields() {
    assert_eq!(DrawError::SpriteNotFound(3), DrawError::SpriteNotFound(3));
    assert_ne!(DrawError::SpriteNotFound(3), DrawError::SpriteFrameNotFound(3, 0));
    let f = FileError::VideoFrameNotFound { video_path: "a.vid".to_string(), frame_id: 2 };
    assert_eq!(AppError::File(f.clone()), AppError::File(f));
    assert_ne!(
        AppError::DrawObjectBuilder(DrawObjectBuilderError::NoLayerAdded()),
        AppError::DrawObjectBuilder(DrawObjectBuilderError::NoScreenAdded())
    );
    let w = DrawError::WrongDrawableType { expected: "line".to_string(), found: "rect".to_string() };
    assert!(matches!(w, DrawError::WrongDrawableType { .. }));
    let c = DrawError::ChannelSendError("gone".to_string());
    assert_eq!(AppError::Draw(c.clone()), AppError::Draw(c));
    let p = FileError::FailedReadingPath { path: "x".to_string() };
    assert!(matches!(p, FileError::FailedReadingPath { .. }));
}
