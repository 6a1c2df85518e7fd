#![allow(unused_imports, dead_code)]
use pincel_core::{AddFrame, AddLayer, AddSlice, AddTile, AddTilemapLayer, AddTileset, Anchor, AnyCommand, Bus, ClearRegion, Command, CommandError, DirtyRegion, DrawEllipse, DrawLine, DrawRectangle, DuplicateLayer, FillRegion, Interpolation, MoveDirection, MoveLayer, MoveSelectionContent, Orientation, PlaceTile, ReframeCanvas, RemoveLayer, RemoveSlice, ReplaceCelPixels, SetFrameDuration, SetLayerBlendMode, SetLayerName, SetLayerOpacity, SetLayerVisible, SetPixel, SetSliceKey, SetTilePixel, ShapeMode, ShapeStyle, TextAlign, TransformCanvas, TransformCel, BlendMode, Cel, CelData, CelKey, CelMap, ColorMode, Frame, FrameIndex, Layer, LayerId, LayerKind, Metadata, Palette, PaletteEntry, PathRef, PixelBuffer, Rgba, Slice, SliceId, SliceKey, Sprite, SpriteBuilder, Tag, TagDirection, TileImage, TileRef, Tileset, TilesetId, Point, Rect, DocumentError};




#[test]
fn new_seeds_empty_tile_list_and_base_index_one() {
    let t = Tileset::new(TilesetId::new(2), "ground", (16, 16));
    assert_eq!(t.id, TilesetId::new(2));
    assert_eq!(t.name, "ground");
    assert_eq!(t.tile_size, (16, 16));
    assert_eq!(t.tile_count(), 0);
    assert_eq!(t.base_index, 1);
    assert!(t.external_file.is_none());
}

#[test]
fn tile_lookup_returns_none_past_end() {
    let mut t = Tileset::new(TilesetId::new(0), "t", (8, 8));
    t.tiles.push(TileImage {
        pixels: PixelBuffer::empty(8, 8, ColorMode::Rgba),
    });
    assert!(t.tile(0).is_some());
    assert!(t.tile(1).is_none());
    assert!(t.tile(u32::MAX).is_none());
}
