#![allow(unused_imports, dead_code)]
use pincel_core::{AddFrame, AddLayer, AddSlice, AddTile, AddTilemapLayer, AddTileset, Anchor, AnyCommand, Bus, ClearRegion, Command, CommandError, DirtyRegion, DrawEllipse, DrawLine, DrawRectangle, DuplicateLayer, FillRegion, Interpolation, MoveDirection, MoveLayer, MoveSelectionContent, Orientation, PlaceTile, ReframeCanvas, RemoveLayer, RemoveSlice, ReplaceCelPixels, SetFrameDuration, SetLayerBlendMode, SetLayerName, SetLayerOpacity, SetLayerVisible, SetPixel, SetSliceKey, SetTilePixel, ShapeMode, ShapeStyle, TextAlign, TransformCanvas, TransformCel, BlendMode, Cel, CelData, CelKey, CelMap, ColorMode, Frame, FrameIndex, Layer, LayerId, LayerKind, Metadata, Palette, PaletteEntry, PathRef, PixelBuffer, Rgba, Slice, SliceId, SliceKey, Sprite, SpriteBuilder, Tag, TagDirection, TileImage, TileRef, Tileset, TilesetId, Point, Rect, DocumentError};




fn fixture() -> (Sprite, CelMap) {
    let mut sprite = Sprite::builder(8, 8)
        .add_layer(pincel_core::document::Layer::image(
            pincel_core::document::LayerId::new(1),
            "bg",
        ))
        .add_frame(pincel_core::document::Frame::new(100))
        .build()
        .expect("sprite builds");
    let mut tileset = Tileset::new(TilesetId::new(0), "t", (2, 2));
    tileset.tiles.push(TileImage {
        pixels: PixelBuffer::empty(2, 2, ColorMode::Rgba),
    });
    sprite.tilesets.push(tileset);
    (sprite, CelMap::new())
}

fn pixel(sprite: &Sprite, ts: TilesetId, tile_id: u32, x: u32, y: u32) -> Rgba {
    let tileset = sprite.tileset(ts).expect("tileset present");
    let tile = tileset.tile(tile_id).expect("tile present");
    let off = ((y * tile.pixels.width + x) * 4) as usize;
    Rgba {
        r: tile.pixels.data[off],
        g: tile.pixels.data[off + 1],
        b: tile.pixels.data[off + 2],
        a: tile.pixels.data[off + 3],
    }
}

#[test]
fn set_tile_pixel_apply_writes_pixel_and_records_previous() {
    let (mut sprite, mut cels) = fixture();
    let mut cmd = SetTilePixel::new(TilesetId::new(0), 0, 1, 0, Rgba::white());
    cmd.apply(&mut sprite, &mut cels).expect("apply");
    assert_eq!(pixel(&sprite, TilesetId::new(0), 0, 1, 0), Rgba::white());
    assert_eq!(cmd.previous, Some(Rgba::transparent()));
}

#[test]
fn set_tile_pixel_revert_restores_previous_pixel() {
    let (mut sprite, mut cels) = fixture();
    let mut cmd = SetTilePixel::new(TilesetId::new(0), 0, 1, 1, Rgba::white());
    cmd.apply(&mut sprite, &mut cels).expect("apply");
    cmd.revert(&mut sprite, &mut cels);
    assert_eq!(
        pixel(&sprite, TilesetId::new(0), 0, 1, 1),
        Rgba::transparent()
    );
}

#[test]
fn unknown_tileset_yields_error() {
    let (mut sprite, mut cels) = fixture();
    let mut cmd = SetTilePixel::new(TilesetId::new(99), 0, 0, 0, Rgba::white());
    assert_eq!(
        cmd.apply(&mut sprite, &mut cels).unwrap_err(),
        CommandError::UnknownTileset(99)
    );
}

#[test]
fn unknown_tile_yields_error() {
    let (mut sprite, mut cels) = fixture();
    let mut cmd = SetTilePixel::new(TilesetId::new(0), 5, 0, 0, Rgba::white());
    assert_eq!(
        cmd.apply(&mut sprite, &mut cels).unwrap_err(),
        CommandError::UnknownTile {
            tileset: 0,
            tile_id: 5,
        }
    );
}

#[test]
fn set_tile_pixel_out_of_bounds_pixel_yields_error() {
    let (mut sprite, mut cels) = fixture();
    let mut cmd = SetTilePixel::new(TilesetId::new(0), 0, 5, 5, Rgba::white());
    let err = cmd.apply(&mut sprite, &mut cels).unwrap_err();
    assert!(matches!(err, CommandError::TilePixelOutOfBounds { .. }));
}
