#![allow(unused_imports, dead_code)]
use pincel_core::{AddFrame, AddLayer, AddSlice, AddTile, AddTilemapLayer, AddTileset, Anchor, AnyCommand, Bus, ClearRegion, Command, CommandError, DirtyRegion, DrawEllipse, DrawLine, DrawRectangle, DuplicateLayer, FillRegion, Interpolation, MoveDirection, MoveLayer, MoveSelectionContent, Orientation, PlaceTile, ReframeCanvas, RemoveLayer, RemoveSlice, ReplaceCelPixels, SetFrameDuration, SetLayerBlendMode, SetLayerName, SetLayerOpacity, SetLayerVisible, SetPixel, SetSliceKey, SetTilePixel, ShapeMode, ShapeStyle, TextAlign, TransformCanvas, TransformCel, BlendMode, Cel, CelData, CelKey, CelMap, ColorMode, Frame, FrameIndex, Layer, LayerId, LayerKind, Metadata, Palette, PaletteEntry, PathRef, PixelBuffer, Rgba, Slice, SliceId, SliceKey, Sprite, SpriteBuilder, Tag, TagDirection, TileImage, TileRef, Tileset, TilesetId, Point, Rect, DocumentError};




fn doc_two_frames() -> (Sprite, CelMap) {
    let sprite = Sprite::builder(8, 8)
        .add_layer(Layer::image(LayerId::new(0), "bg"))
        .add_frame(Frame::new(100))
        .add_frame(Frame::new(200))
        .build()
        .expect("sprite builds");
    (sprite, CelMap::new())
}

#[test]
fn apply_sets_and_revert_restores_duration() {
    let (mut s, mut c) = doc_two_frames();
    let mut cmd = SetFrameDuration::new(FrameIndex::new(1), 33);
    cmd.apply(&mut s, &mut c).expect("apply");
    assert_eq!(s.frames[1].duration_ms, 33);
    assert_eq!(s.frames[0].duration_ms, 100, "other frames untouched");
    cmd.revert(&mut s, &mut c);
    assert_eq!(s.frames[1].duration_ms, 200);
}

#[test]
fn apply_with_out_of_range_frame_returns_err() {
    let (mut s, mut c) = doc_two_frames();
    let mut cmd = SetFrameDuration::new(FrameIndex::new(7), 33);
    assert_eq!(
        cmd.apply(&mut s, &mut c),
        Err(CommandError::UnknownFrame(7))
    );
    assert_eq!(s.frames[0].duration_ms, 100, "document unchanged");
}

#[test]
fn set_frame_duration_revert_before_apply_is_a_noop() {
    let (mut s, mut c) = doc_two_frames();
    let mut cmd = SetFrameDuration::new(FrameIndex::new(0), 33);
    cmd.revert(&mut s, &mut c);
    assert_eq!(s.frames[0].duration_ms, 100);
}

#[test]
fn revert_after_failed_apply_is_a_noop() {
    let (mut s, mut c) = doc_two_frames();
    let mut cmd = SetFrameDuration::new(FrameIndex::new(7), 33);
    let _ = cmd.apply(&mut s, &mut c);
    cmd.revert(&mut s, &mut c);
    assert_eq!(s.frames[0].duration_ms, 100);
    assert_eq!(s.frames[1].duration_ms, 200);
}

#[test]
fn merge_same_frame_keeps_the_original_prior_value() {
    let (mut s, mut c) = doc_two_frames();
    let mut first = SetFrameDuration::new(FrameIndex::new(0), 50);
    first.apply(&mut s, &mut c).expect("apply");
    let second = SetFrameDuration::new(FrameIndex::new(0), 60);
    assert!(first.merge(&second));

    // The merged command now represents "set to 60"; applying the
    // absorbed value and reverting must land back on the pre-merge 100.
    let mut merged_apply = SetFrameDuration::new(FrameIndex::new(0), 60);
    merged_apply.apply(&mut s, &mut c).expect("apply");
    assert_eq!(s.frames[0].duration_ms, 60);
    first.revert(&mut s, &mut c);
    assert_eq!(s.frames[0].duration_ms, 100);
}

#[test]
fn merge_different_frame_is_rejected() {
    let mut first = SetFrameDuration::new(FrameIndex::new(0), 50);
    let second = SetFrameDuration::new(FrameIndex::new(1), 50);
    assert!(!first.merge(&second));
}

#[test]
fn set_frame_duration_dirty_region_is_none() {
    assert_eq!(
        SetFrameDuration::new(FrameIndex::new(0), 50).dirty_region(),
        DirtyRegion::NoChange
    );
}
