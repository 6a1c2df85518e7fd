#![allow(unused_imports, dead_code)]
use pincel_core::{AddFrame, AddLayer, AddSlice, AddTile, AddTilemapLayer, AddTileset, Anchor, AnyCommand, Bus, ClearRegion, Command, CommandError, DirtyRegion, DrawEllipse, DrawLine, DrawRectangle, DuplicateLayer, FillRegion, Interpolation, MoveDirection, MoveLayer, MoveSelectionContent, Orientation, PlaceTile, ReframeCanvas, RemoveLayer, RemoveSlice, ReplaceCelPixels, SetFrameDuration, SetLayerBlendMode, SetLayerName, SetLayerOpacity, SetLayerVisible, SetPixel, SetSliceKey, SetTilePixel, ShapeMode, ShapeStyle, TextAlign, TransformCanvas, TransformCel, BlendMode, Cel, CelData, CelKey, CelMap, ColorMode, Frame, FrameIndex, Layer, LayerId, LayerKind, Metadata, Palette, PaletteEntry, PathRef, PixelBuffer, Rgba, Slice, SliceId, SliceKey, Sprite, SpriteBuilder, Tag, TagDirection, TileImage, TileRef, Tileset, TilesetId, Point, Rect, DocumentError};





const L: LayerId = LayerId(0);
const F: FrameIndex = FrameIndex(0);

fn doc() -> (Sprite, CelMap) {
    let sprite = Sprite::builder(2, 2)
        .add_layer(Layer::image(L, "a"))
        .build()
        .unwrap();
    let mut cels = CelMap::new();
    let mut buf = PixelBuffer::empty(2, 2, ColorMode::Rgba);
    buf.data = (0u8..16).collect();
    cels.insert(Cel::image(L, F, buf));
    (sprite, cels)
}

fn data(cels: &CelMap) -> Vec<u8> {
    match &cels.get(L, F).unwrap().data {
        CelData::Image(b) => b.data.clone(),
        _ => unreachable!(),
    }
}

#[test]
fn apply_swaps_in_new_pixels_and_revert_restores() {
    let (mut sprite, mut cels) = doc();
    let before = data(&cels);
    let new: Vec<u8> = vec![255; 16];
    let mut cmd = ReplaceCelPixels::new(L, F, new.clone());
    cmd.apply(&mut sprite, &mut cels).unwrap();
    assert_eq!(data(&cels), new);
    cmd.revert(&mut sprite, &mut cels);
    assert_eq!(data(&cels), before);
}

#[test]
fn apply_with_wrong_length_is_rejected_and_leaves_cel_untouched() {
    let (mut sprite, mut cels) = doc();
    let before = data(&cels);
    let mut cmd = ReplaceCelPixels::new(L, F, vec![0; 8]);
    assert!(matches!(
        cmd.apply(&mut sprite, &mut cels),
        Err(CommandError::BufferLengthMismatch {
            expected: 16,
            got: 8
        })
    ));
    assert_eq!(data(&cels), before);
    assert!(cmd.dirty_region().is_none());
}

#[test]
fn apply_missing_cel_errors() {
    let (mut sprite, mut cels) = doc();
    let mut cmd = ReplaceCelPixels::new(LayerId::new(9), F, vec![0; 16]);
    assert!(matches!(
        cmd.apply(&mut sprite, &mut cels),
        Err(CommandError::MissingCel { .. })
    ));
}

#[test]
fn replace_cel_pixels_revert_before_apply_is_a_noop() {
    let (mut sprite, mut cels) = doc();
    let before = data(&cels);
    let mut cmd = ReplaceCelPixels::new(L, F, vec![7; 16]);
    cmd.revert(&mut sprite, &mut cels);
    assert_eq!(data(&cels), before);
}

#[test]
fn dirty_region_is_cel_rect_or_the_intersected_hint() {
    let (mut sprite, mut cels) = doc();
    let mut cmd = ReplaceCelPixels::new(L, F, vec![1; 16]);
    cmd.apply(&mut sprite, &mut cels).unwrap();
    assert_eq!(
        cmd.dirty_region(),
        DirtyRegion::layer_rect(L, F, Rect::new(0, 0, 2, 2))
    );
    let mut cmd =
        ReplaceCelPixels::new(L, F, vec![2; 16]).with_dirty_hint(Rect::new(1, 1, 5, 5));
    cmd.apply(&mut sprite, &mut cels).unwrap();
    assert_eq!(
        cmd.dirty_region(),
        DirtyRegion::layer_rect(L, F, Rect::new(1, 1, 1, 1))
    );
}

#[test]
fn bus_undo_redo_round_trip_preserves_state() {
    let (mut sprite, mut cels) = doc();
    let before = data(&cels);
    let new: Vec<u8> = vec![9; 16];
    let mut bus = Bus::new();
    bus.execute(
        ReplaceCelPixels::new(L, F, new.clone()).into(),
        &mut sprite,
        &mut cels,
    )
    .unwrap();
    assert_eq!(data(&cels), new);
    assert!(bus.undo(&mut sprite, &mut cels));
    assert_eq!(data(&cels), before);
    assert!(bus.redo(&mut sprite, &mut cels).unwrap());
    assert_eq!(data(&cels), new);
}
