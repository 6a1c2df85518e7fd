#![allow(unused_imports, dead_code)]
use pincel_core::{AddFrame, AddLayer, AddSlice, AddTile, AddTilemapLayer, AddTileset, Anchor, AnyCommand, Bus, ClearRegion, Command, CommandError, DirtyRegion, DrawEllipse, DrawLine, DrawRectangle, DuplicateLayer, FillRegion, Interpolation, MoveDirection, MoveLayer, MoveSelectionContent, Orientation, PlaceTile, ReframeCanvas, RemoveLayer, RemoveSlice, ReplaceCelPixels, SetFrameDuration, SetLayerBlendMode, SetLayerName, SetLayerOpacity, SetLayerVisible, SetPixel, SetSliceKey, SetTilePixel, ShapeMode, ShapeStyle, TextAlign, TransformCanvas, TransformCel, BlendMode, Cel, CelData, CelKey, CelMap, ColorMode, Frame, FrameIndex, Layer, LayerId, LayerKind, Metadata, Palette, PaletteEntry, PathRef, PixelBuffer, Rgba, Slice, SliceId, SliceKey, Sprite, SpriteBuilder, Tag, TagDirection, TileImage, TileRef, Tileset, TilesetId, Point, Rect, DocumentError};




fn doc_with_tileset() -> (Sprite, CelMap) {
    let sprite = Sprite::builder(8, 8)
        .add_tileset(Tileset::new(TilesetId::new(1), "ground", (4, 4)))
        .build()
        .expect("sprite builds");
    (sprite, CelMap::new())
}

#[test]
fn apply_appends_transparent_tile_sized_to_tileset() {
    let (mut sprite, mut cels) = doc_with_tileset();
    let mut cmd = AddTile::new(TilesetId::new(1));
    cmd.apply(&mut sprite, &mut cels).expect("apply");
    let tiles = &sprite.tilesets[0].tiles;
    assert_eq!(tiles.len(), 1);
    assert_eq!((tiles[0].pixels.width, tiles[0].pixels.height), (4, 4));
    assert!(tiles[0].pixels.data.iter().all(|&b| b == 0));
}

#[test]
fn apply_unknown_tileset_yields_error() {
    let (mut sprite, mut cels) = doc_with_tileset();
    let mut cmd = AddTile::new(TilesetId::new(9));
    assert_eq!(
        cmd.apply(&mut sprite, &mut cels),
        Err(CommandError::UnknownTileset(9))
    );
    assert!(sprite.tilesets[0].tiles.is_empty());
}

#[test]
fn revert_pops_appended_tile() {
    let (mut sprite, mut cels) = doc_with_tileset();
    let mut cmd = AddTile::new(TilesetId::new(1));
    cmd.apply(&mut sprite, &mut cels).expect("apply");
    cmd.revert(&mut sprite, &mut cels);
    assert!(sprite.tilesets[0].tiles.is_empty());
}

#[test]
fn revert_without_apply_is_a_no_op() {
    let (mut sprite, mut cels) = doc_with_tileset();
    sprite.tilesets[0].tiles.push(TileImage {
        pixels: PixelBuffer::empty(4, 4, ColorMode::Rgba),
    });
    let mut cmd = AddTile::new(TilesetId::new(1));
    cmd.revert(&mut sprite, &mut cels);
    assert_eq!(sprite.tilesets[0].tiles.len(), 1);
}

#[test]
fn add_tile_apply_revert_apply_round_trip_restores_state() {
    let (mut sprite, mut cels) = doc_with_tileset();
    let mut cmd = AddTile::new(TilesetId::new(1));
    cmd.apply(&mut sprite, &mut cels).expect("apply 1");
    cmd.revert(&mut sprite, &mut cels);
    assert!(sprite.tilesets[0].tiles.is_empty());
    cmd.apply(&mut sprite, &mut cels).expect("apply 2");
    assert_eq!(sprite.tilesets[0].tiles.len(), 1);
}
