#![allow(unused_imports, dead_code)]
use pincel_core::{AddFrame, AddLayer, AddSlice, AddTile, AddTilemapLayer, AddTileset, Anchor, AnyCommand, Bus, ClearRegion, Command, CommandError, DirtyRegion, DrawEllipse, DrawLine, DrawRectangle, DuplicateLayer, FillRegion, Interpolation, MoveDirection, MoveLayer, MoveSelectionContent, Orientation, PlaceTile, ReframeCanvas, RemoveLayer, RemoveSlice, ReplaceCelPixels, SetFrameDuration, SetLayerBlendMode, SetLayerName, SetLayerOpacity, SetLayerVisible, SetPixel, SetSliceKey, SetTilePixel, ShapeMode, ShapeStyle, TextAlign, TransformCanvas, TransformCel, BlendMode, Cel, CelData, CelKey, CelMap, ColorMode, Frame, FrameIndex, Layer, LayerId, LayerKind, Metadata, Palette, PaletteEntry, PathRef, PixelBuffer, Rgba, Slice, SliceId, SliceKey, Sprite, SpriteBuilder, Tag, TagDirection, TileImage, TileRef, Tileset, TilesetId, Point, Rect, DocumentError};



#[test]
fn empty_buffer_has_correct_byte_count() {
    let b = PixelBuffer::empty(4, 3, ColorMode::Rgba);
    assert_eq!(b.data.len(), 4 * 3 * 4);
    assert!(b.is_well_formed());
    assert!(b.data.iter().all(|&v| v == 0));
}

#[test]
fn empty_indexed_buffer_uses_one_byte_per_pixel() {
    let b = PixelBuffer::empty(
        8,
        8,
        ColorMode::Indexed {
            transparent_index: 0,
        },
    );
    assert_eq!(b.data.len(), 64);
}

#[test]
fn tile_ref_empty_has_id_zero() {
    assert_eq!(TileRef::empty().tile_id, 0);
}

#[test]
fn cel_image_defaults_to_origin_full_opacity() {
    let buf = PixelBuffer::empty(2, 2, ColorMode::Rgba);
    let c = Cel::image(LayerId::new(0), FrameIndex::new(0), buf);
    assert_eq!(c.position, (0, 0));
    assert_eq!(c.opacity, 255);
    assert!(matches!(c.data, CelData::Image(_)));
}

#[test]
fn cel_tilemap_fills_grid_with_empty_tiles() {
    let c = Cel::tilemap(LayerId::new(0), FrameIndex::new(0), 4, 3);
    assert_eq!(c.position, (0, 0));
    assert_eq!(c.opacity, 255);
    match c.data {
        CelData::Tilemap {
            grid_w,
            grid_h,
            tiles,
        } => {
            assert_eq!(grid_w, 4);
            assert_eq!(grid_h, 3);
            assert_eq!(tiles.len(), 12);
            assert!(tiles.iter().all(|t| *t == TileRef::empty()));
        }
        _ => panic!("expected tilemap cel"),
    }
}

#[test]
fn cel_tilemap_supports_zero_sized_grid() {
    let c = Cel::tilemap(LayerId::new(0), FrameIndex::new(0), 0, 0);
    match c.data {
        CelData::Tilemap {
            grid_w,
            grid_h,
            tiles,
        } => {
            assert_eq!((grid_w, grid_h), (0, 0));
            assert!(tiles.is_empty());
        }
        _ => panic!("expected tilemap cel"),
    }
}
