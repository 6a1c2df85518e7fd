#![allow(unused_imports, dead_code)]
use pincel_core::{AddFrame, AddLayer, AddSlice, AddTile, AddTilemapLayer, AddTileset, Anchor, AnyCommand, Bus, ClearRegion, Command, CommandError, DirtyRegion, DrawEllipse, DrawLine, DrawRectangle, DuplicateLayer, FillRegion, Interpolation, MoveDirection, MoveLayer, MoveSelectionContent, Orientation, PlaceTile, ReframeCanvas, RemoveLayer, RemoveSlice, ReplaceCelPixels, SetFrameDuration, SetLayerBlendMode, SetLayerName, SetLayerOpacity, SetLayerVisible, SetPixel, SetSliceKey, SetTilePixel, ShapeMode, ShapeStyle, TextAlign, TransformCanvas, TransformCel, BlendMode, Cel, CelData, CelKey, CelMap, ColorMode, Frame, FrameIndex, Layer, LayerId, LayerKind, Metadata, Palette, PaletteEntry, PathRef, PixelBuffer, Rgba, Slice, SliceId, SliceKey, Sprite, SpriteBuilder, Tag, TagDirection, TileImage, TileRef, Tileset, TilesetId, Point, Rect, DocumentError};





fn slice_with_keys(id: u32, keys: Vec<SliceKey>) -> Slice {
    Slice {
        id: SliceId::new(id),
        name: "s".into(),
        color: Rgba::white(),
        keys,
    }
}

fn key(frame: u32, bounds: Rect) -> SliceKey {
    SliceKey {
        frame: FrameIndex::new(frame),
        bounds,
        center: None,
        pivot: None,
    }
}

fn doc_with(slice: Slice) -> (Sprite, CelMap) {
    let sprite = Sprite::builder(32, 32)
        .add_slice(slice)
        .build()
        .expect("sprite builds");
    (sprite, CelMap::new())
}

#[test]
fn apply_replaces_existing_key_for_same_frame() {
    let (mut sprite, mut cels) =
        doc_with(slice_with_keys(1, vec![key(0, Rect::new(0, 0, 4, 4))]));
    let new = key(0, Rect::new(2, 3, 6, 7));
    let mut cmd = SetSliceKey::new(SliceId::new(1), new);
    cmd.apply(&mut sprite, &mut cels).expect("apply");
    let keys = &sprite.slices[0].keys;
    assert_eq!(keys.len(), 1);
    assert_eq!(keys[0].bounds, Rect::new(2, 3, 6, 7));
}

#[test]
fn apply_inserts_new_key_at_sorted_position() {
    let (mut sprite, mut cels) = doc_with(slice_with_keys(
        1,
        vec![
            key(0, Rect::new(0, 0, 4, 4)),
            key(5, Rect::new(1, 1, 4, 4)),
        ],
    ));
    let mut cmd = SetSliceKey::new(SliceId::new(1), key(2, Rect::new(7, 7, 3, 3)));
    cmd.apply(&mut sprite, &mut cels).expect("apply");
    let keys = &sprite.slices[0].keys;
    assert_eq!(keys.len(), 3);
    assert_eq!(
        keys.iter().map(|k| k.frame.0).collect::<Vec<_>>(),
        vec![0, 2, 5],
        "keys must stay sorted by frame ascending"
    );
    assert_eq!(keys[1].bounds, Rect::new(7, 7, 3, 3));
}

#[test]
fn revert_after_replace_restores_prior_key() {
    let original = key(0, Rect::new(0, 0, 4, 4));
    let (mut sprite, mut cels) = doc_with(slice_with_keys(1, vec![original]));
    let mut cmd = SetSliceKey::new(SliceId::new(1), key(0, Rect::new(9, 9, 1, 1)));
    cmd.apply(&mut sprite, &mut cels).expect("apply");
    cmd.revert(&mut sprite, &mut cels);
    let keys = &sprite.slices[0].keys;
    assert_eq!(keys.len(), 1);
    assert_eq!(keys[0].bounds, Rect::new(0, 0, 4, 4));
}

#[test]
fn revert_after_insert_removes_inserted_key() {
    let (mut sprite, mut cels) = doc_with(slice_with_keys(
        1,
        vec![
            key(0, Rect::new(0, 0, 4, 4)),
            key(5, Rect::new(1, 1, 4, 4)),
        ],
    ));
    let mut cmd = SetSliceKey::new(SliceId::new(1), key(2, Rect::new(7, 7, 3, 3)));
    cmd.apply(&mut sprite, &mut cels).expect("apply");
    cmd.revert(&mut sprite, &mut cels);
    let keys = &sprite.slices[0].keys;
    assert_eq!(
        keys.iter().map(|k| k.frame.0).collect::<Vec<_>>(),
        vec![0, 5]
    );
}

#[test]
fn unknown_slice_is_rejected() {
    let (mut sprite, mut cels) =
        doc_with(slice_with_keys(1, vec![key(0, Rect::new(0, 0, 4, 4))]));
    let mut cmd = SetSliceKey::new(SliceId::new(99), key(0, Rect::new(0, 0, 4, 4)));
    assert_eq!(
        cmd.apply(&mut sprite, &mut cels),
        Err(CommandError::UnknownSlice(99))
    );
    assert_eq!(sprite.slices[0].keys.len(), 1);
}

#[test]
fn set_slice_key_empty_bounds_rect_is_rejected() {
    let (mut sprite, mut cels) =
        doc_with(slice_with_keys(1, vec![key(0, Rect::new(0, 0, 4, 4))]));
    let bad = Rect::new(2, 2, 0, 4);
    let mut cmd = SetSliceKey::new(SliceId::new(1), key(0, bad));
    assert_eq!(
        cmd.apply(&mut sprite, &mut cels),
        Err(CommandError::EmptySliceBounds {
            frame: FrameIndex::new(0),
            bounds: bad,
        })
    );
    assert_eq!(sprite.slices[0].keys[0].bounds, Rect::new(0, 0, 4, 4));
}

#[test]
fn set_slice_key_apply_revert_apply_round_trip_restores_state() {
    let (mut sprite, mut cels) =
        doc_with(slice_with_keys(1, vec![key(0, Rect::new(0, 0, 4, 4))]));
    let new = key(0, Rect::new(2, 3, 6, 7));
    let mut cmd = SetSliceKey::new(SliceId::new(1), new);
    cmd.apply(&mut sprite, &mut cels).expect("apply 1");
    cmd.revert(&mut sprite, &mut cels);
    assert_eq!(sprite.slices[0].keys[0].bounds, Rect::new(0, 0, 4, 4));
    cmd.apply(&mut sprite, &mut cels).expect("apply 2");
    assert_eq!(sprite.slices[0].keys[0].bounds, Rect::new(2, 3, 6, 7));
}

#[test]
fn keys_stay_in_increasing_frame_order() {
    let (mut sprite, mut cels) = doc_with(slice_with_keys(
        1,
        vec![key(0, Rect::new(0, 0, 4, 4)), key(4, Rect::new(0, 0, 4, 4))],
    ));
    let mut a = SetSliceKey::new(SliceId::new(1), key(2, Rect::new(1, 1, 2, 2)));
    a.apply(&mut sprite, &mut cels).expect("apply");
    let mut b = SetSliceKey::new(SliceId::new(1), key(9, Rect::new(1, 1, 2, 2)));
    b.apply(&mut sprite, &mut cels).expect("apply");
    let mut c = SetSliceKey::new(SliceId::new(1), key(4, Rect::new(3, 3, 1, 1)));
    c.apply(&mut sprite, &mut cels).expect("apply");
    let frames: Vec<u32> = sprite.slices[0].keys.iter().map(|k| k.frame.0).collect();
    assert_eq!(frames, vec![0, 2, 4, 9]);
}
