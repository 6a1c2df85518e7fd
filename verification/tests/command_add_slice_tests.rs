#![allow(unused_imports, dead_code)]
use pincel_core::{AddFrame, AddLayer, AddSlice, AddTile, AddTilemapLayer, AddTileset, Anchor, AnyCommand, Bus, ClearRegion, Command, CommandError, DirtyRegion, DrawEllipse, DrawLine, DrawRectangle, DuplicateLayer, FillRegion, Interpolation, MoveDirection, MoveLayer, MoveSelectionContent, Orientation, PlaceTile, ReframeCanvas, RemoveLayer, RemoveSlice, ReplaceCelPixels, SetFrameDuration, SetLayerBlendMode, SetLayerName, SetLayerOpacity, SetLayerVisible, SetPixel, SetSliceKey, SetTilePixel, ShapeMode, ShapeStyle, TextAlign, TransformCanvas, TransformCel, BlendMode, Cel, CelData, CelKey, CelMap, ColorMode, Frame, FrameIndex, Layer, LayerId, LayerKind, Metadata, Palette, PaletteEntry, PathRef, PixelBuffer, Rgba, Slice, SliceId, SliceKey, Sprite, SpriteBuilder, Tag, TagDirection, TileImage, TileRef, Tileset, TilesetId, Point, Rect, DocumentError};





fn empty_doc() -> (Sprite, CelMap) {
    (
        Sprite::builder(16, 16).build().expect("sprite builds"),
        CelMap::new(),
    )
}

fn slice(id: u32, name: &str) -> Slice {
    Slice {
        id: SliceId::new(id),
        name: name.into(),
        color: Rgba::white(),
        keys: vec![SliceKey {
            frame: FrameIndex::new(0),
            bounds: Rect::new(0, 0, 4, 4),
            center: None,
            pivot: None,
        }],
    }
}

#[test]
fn apply_appends_slice() {
    let (mut sprite, mut cels) = empty_doc();
    let mut cmd = AddSlice::new(slice(1, "hitbox"));
    cmd.apply(&mut sprite, &mut cels).expect("apply");
    assert_eq!(sprite.slices.len(), 1);
    assert_eq!(sprite.slices[0].id, SliceId::new(1));
    assert_eq!(sprite.slices[0].name, "hitbox");
}

#[test]
fn revert_removes_inserted_slice() {
    let (mut sprite, mut cels) = empty_doc();
    let mut cmd = AddSlice::new(slice(7, "s"));
    cmd.apply(&mut sprite, &mut cels).expect("apply");
    assert_eq!(sprite.slices.len(), 1);
    cmd.revert(&mut sprite, &mut cels);
    assert!(sprite.slices.is_empty());
}

#[test]
fn add_slice_duplicate_id_is_rejected() {
    let (mut sprite, mut cels) = empty_doc();
    AddSlice::new(slice(1, "a"))
        .apply(&mut sprite, &mut cels)
        .expect("apply 1");
    let mut dup = AddSlice::new(slice(1, "b"));
    assert_eq!(
        dup.apply(&mut sprite, &mut cels),
        Err(CommandError::DuplicateSliceId(1))
    );
    assert_eq!(sprite.slices.len(), 1);
}

#[test]
fn empty_keys_is_rejected() {
    let (mut sprite, mut cels) = empty_doc();
    let s = Slice {
        id: SliceId::new(3),
        name: "empty".into(),
        color: Rgba::white(),
        keys: Vec::new(),
    };
    let mut cmd = AddSlice::new(s);
    assert_eq!(
        cmd.apply(&mut sprite, &mut cels),
        Err(CommandError::EmptySliceKeys(3))
    );
    assert!(sprite.slices.is_empty());
}

#[test]
fn add_slice_empty_bounds_rect_is_rejected() {
    let (mut sprite, mut cels) = empty_doc();
    let bad = Rect::new(2, 2, 0, 4);
    let s = Slice {
        id: SliceId::new(5),
        name: "bad".into(),
        color: Rgba::white(),
        keys: vec![SliceKey {
            frame: FrameIndex::new(0),
            bounds: bad,
            center: None,
            pivot: None,
        }],
    };
    let mut cmd = AddSlice::new(s);
    assert_eq!(
        cmd.apply(&mut sprite, &mut cels),
        Err(CommandError::EmptySliceBounds {
            frame: FrameIndex::new(0),
            bounds: bad,
        })
    );
    assert!(sprite.slices.is_empty());
}

#[test]
fn add_slice_apply_revert_apply_round_trip_restores_state() {
    let (mut sprite, mut cels) = empty_doc();
    let original = slice(2, "round");
    let mut cmd = AddSlice::new(original.clone());
    cmd.apply(&mut sprite, &mut cels).expect("apply 1");
    cmd.revert(&mut sprite, &mut cels);
    assert!(sprite.slices.is_empty());
    cmd.apply(&mut sprite, &mut cels).expect("apply 2");
    assert_eq!(sprite.slices, vec![original]);
}
