#![allow(unused_imports, dead_code)]
use pincel_core::{AddFrame, AddLayer, AddSlice, AddTile, AddTilemapLayer, AddTileset, Anchor, AnyCommand, Bus, ClearRegion, Command, CommandError, DirtyRegion, DrawEllipse, DrawLine, DrawRectangle, DuplicateLayer, FillRegion, Interpolation, MoveDirection, MoveLayer, MoveSelectionContent, Orientation, PlaceTile, ReframeCanvas, RemoveLayer, RemoveSlice, ReplaceCelPixels, SetFrameDuration, SetLayerBlendMode, SetLayerName, SetLayerOpacity, SetLayerVisible, SetPixel, SetSliceKey, SetTilePixel, ShapeMode, ShapeStyle, TextAlign, TransformCanvas, TransformCel, BlendMode, Cel, CelData, CelKey, CelMap, ColorMode, Frame, FrameIndex, Layer, LayerId, LayerKind, Metadata, Palette, PaletteEntry, PathRef, PixelBuffer, Rgba, Slice, SliceId, SliceKey, Sprite, SpriteBuilder, Tag, TagDirection, TileImage, TileRef, Tileset, TilesetId, Point, Rect, DocumentError};




fn empty_doc() -> (Sprite, CelMap) {
    (
        Sprite::builder(8, 8).build().expect("sprite builds"),
        CelMap::new(),
    )
}

#[test]
fn apply_appends_tileset() {
    let (mut sprite, mut cels) = empty_doc();
    let mut cmd = AddTileset::new(Tileset::new(TilesetId::new(1), "ground", (16, 16)));
    cmd.apply(&mut sprite, &mut cels).expect("apply");
    assert_eq!(sprite.tilesets.len(), 1);
    assert_eq!(sprite.tilesets[0].id, TilesetId::new(1));
}

#[test]
fn revert_removes_inserted_tileset() {
    let (mut sprite, mut cels) = empty_doc();
    let mut cmd = AddTileset::new(Tileset::new(TilesetId::new(7), "t", (8, 8)));
    cmd.apply(&mut sprite, &mut cels).expect("apply");
    assert_eq!(sprite.tilesets.len(), 1);
    cmd.revert(&mut sprite, &mut cels);
    assert!(sprite.tilesets.is_empty());
}

#[test]
fn add_tileset_duplicate_id_is_rejected() {
    let (mut sprite, mut cels) = empty_doc();
    AddTileset::new(Tileset::new(TilesetId::new(1), "a", (8, 8)))
        .apply(&mut sprite, &mut cels)
        .expect("apply 1");
    let mut dup = AddTileset::new(Tileset::new(TilesetId::new(1), "b", (8, 8)));
    assert_eq!(
        dup.apply(&mut sprite, &mut cels),
        Err(CommandError::DuplicateTilesetId(1))
    );
    assert_eq!(sprite.tilesets.len(), 1);
}

#[test]
fn add_tileset_apply_revert_apply_round_trip_restores_state() {
    let (mut sprite, mut cels) = empty_doc();
    let mut cmd = AddTileset::new(Tileset::new(TilesetId::new(2), "t", (8, 8)));
    cmd.apply(&mut sprite, &mut cels).expect("apply 1");
    cmd.revert(&mut sprite, &mut cels);
    assert!(sprite.tilesets.is_empty());
    cmd.apply(&mut sprite, &mut cels).expect("apply 2");
    assert_eq!(sprite.tilesets.len(), 1);
    assert_eq!(sprite.tilesets[0].id, TilesetId::new(2));
}
