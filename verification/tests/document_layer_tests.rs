#![allow(unused_imports, dead_code)]
use pincel_core::{AddFrame, AddLayer, AddSlice, AddTile, AddTilemapLayer, AddTileset, Anchor, AnyCommand, Bus, ClearRegion, Command, CommandError, DirtyRegion, DrawEllipse, DrawLine, DrawRectangle, DuplicateLayer, FillRegion, Interpolation, MoveDirection, MoveLayer, MoveSelectionContent, Orientation, PlaceTile, ReframeCanvas, RemoveLayer, RemoveSlice, ReplaceCelPixels, SetFrameDuration, SetLayerBlendMode, SetLayerName, SetLayerOpacity, SetLayerVisible, SetPixel, SetSliceKey, SetTilePixel, ShapeMode, ShapeStyle, TextAlign, TransformCanvas, TransformCel, BlendMode, Cel, CelData, CelKey, CelMap, ColorMode, Frame, FrameIndex, Layer, LayerId, LayerKind, Metadata, Palette, PaletteEntry, PathRef, PixelBuffer, Rgba, Slice, SliceId, SliceKey, Sprite, SpriteBuilder, Tag, TagDirection, TileImage, TileRef, Tileset, TilesetId, Point, Rect, DocumentError};



#[test]
fn image_layer_has_default_appearance() {
    let l = Layer::image(LayerId::new(0), "bg");
    assert_eq!(l.id, LayerId::new(0));
    assert_eq!(l.name, "bg");
    assert_eq!(l.kind, LayerKind::Image);
    assert!(l.visible);
    assert!(l.editable);
    assert_eq!(l.blend_mode, BlendMode::Normal);
    assert_eq!(l.opacity, 255);
    assert!(l.parent.is_none());
}

#[test]
fn tilemap_layer_carries_tileset_id() {
    let l = Layer::tilemap(LayerId::new(2), "tiles", TilesetId::new(7));
    assert_eq!(
        l.kind,
        LayerKind::Tilemap {
            tileset_id: TilesetId::new(7)
        }
    );
}

#[test]
fn blend_mode_numeric_values_match_aseprite() {
    assert_eq!(BlendMode::Normal as u16, 0);
    assert_eq!(BlendMode::Multiply as u16, 1);
    assert_eq!(BlendMode::Divide as u16, 18);
}
