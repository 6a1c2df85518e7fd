#![allow(unused_imports, dead_code)]
use pincel_core::{AddFrame, AddLayer, AddSlice, AddTile, AddTilemapLayer, AddTileset, Anchor, AnyCommand, Bus, ClearRegion, Command, CommandError, DirtyRegion, DrawEllipse, DrawLine, DrawRectangle, DuplicateLayer, FillRegion, Interpolation, MoveDirection, MoveLayer, MoveSelectionContent, Orientation, PlaceTile, ReframeCanvas, RemoveLayer, RemoveSlice, ReplaceCelPixels, SetFrameDuration, SetLayerBlendMode, SetLayerName, SetLayerOpacity, SetLayerVisible, SetPixel, SetSliceKey, SetTilePixel, ShapeMode, ShapeStyle, TextAlign, TransformCanvas, TransformCel, BlendMode, Cel, CelData, CelKey, CelMap, ColorMode, Frame, FrameIndex, Layer, LayerId, LayerKind, Metadata, Palette, PaletteEntry, PathRef, PixelBuffer, Rgba, Slice, SliceId, SliceKey, Sprite, SpriteBuilder, Tag, TagDirection, TileImage, TileRef, Tileset, TilesetId, Point, Rect, DocumentError};





fn slice(id: u32, name: &str) -> Slice {
    Slice {
        id: SliceId::new(id),
        name: name.into(),
        color: Rgba::white(),
        keys: vec![SliceKey {
            frame: FrameIndex::new(0),
            bounds: Rect::new(0, 0, 4, 4),
            center: None,
            pivot: None,
        }],
    }
}

fn doc_with_slices(slices: Vec<Slice>) -> (Sprite, CelMap) {
    let mut builder = Sprite::builder(16, 16);
    for s in slices {
        builder = builder.add_slice(s);
    }
    (builder.build().expect("sprite builds"), CelMap::new())
}

#[test]
fn apply_removes_matching_slice() {
    let (mut sprite, mut cels) =
        doc_with_slices(vec![slice(1, "a"), slice(2, "b"), slice(3, "c")]);
    let mut cmd = RemoveSlice::new(SliceId::new(2));
    cmd.apply(&mut sprite, &mut cels).expect("apply");
    assert_eq!(sprite.slices.len(), 2);
    assert_eq!(sprite.slices[0].id, SliceId::new(1));
    assert_eq!(sprite.slices[1].id, SliceId::new(3));
}

#[test]
fn revert_reinserts_at_same_index() {
    let (mut sprite, mut cels) =
        doc_with_slices(vec![slice(1, "a"), slice(2, "b"), slice(3, "c")]);
    let mut cmd = RemoveSlice::new(SliceId::new(2));
    cmd.apply(&mut sprite, &mut cels).expect("apply");
    cmd.revert(&mut sprite, &mut cels);
    assert_eq!(sprite.slices.len(), 3);
    assert_eq!(
        sprite.slices.iter().map(|s| s.id.0).collect::<Vec<_>>(),
        vec![1, 2, 3]
    );
}

#[test]
fn unknown_id_is_rejected() {
    let (mut sprite, mut cels) = doc_with_slices(vec![slice(1, "a")]);
    let mut cmd = RemoveSlice::new(SliceId::new(99));
    assert_eq!(
        cmd.apply(&mut sprite, &mut cels),
        Err(CommandError::UnknownSlice(99))
    );
    assert_eq!(sprite.slices.len(), 1);
}

#[test]
fn remove_slice_revert_before_apply_is_a_noop() {
    let (mut sprite, mut cels) = doc_with_slices(vec![slice(1, "a")]);
    let mut cmd = RemoveSlice::new(SliceId::new(1));
    cmd.revert(&mut sprite, &mut cels);
    assert_eq!(sprite.slices.len(), 1);
}

#[test]
fn remove_slice_apply_revert_apply_round_trip_restores_state() {
    let (mut sprite, mut cels) = doc_with_slices(vec![slice(1, "a"), slice(2, "b")]);
    let mut cmd = RemoveSlice::new(SliceId::new(1));
    cmd.apply(&mut sprite, &mut cels).expect("apply 1");
    assert_eq!(sprite.slices.len(), 1);
    cmd.revert(&mut sprite, &mut cels);
    assert_eq!(
        sprite.slices.iter().map(|s| s.id.0).collect::<Vec<_>>(),
        vec![1, 2]
    );
    cmd.apply(&mut sprite, &mut cels).expect("apply 2");
    assert_eq!(sprite.slices.len(), 1);
    assert_eq!(sprite.slices[0].id, SliceId::new(2));
}
