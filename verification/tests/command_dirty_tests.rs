#![allow(unused_imports, dead_code)]
use pincel_core::{AddFrame, AddLayer, AddSlice, AddTile, AddTilemapLayer, AddTileset, Anchor, AnyCommand, Bus, ClearRegion, Command, CommandError, DirtyRegion, DrawEllipse, DrawLine, DrawRectangle, DuplicateLayer, FillRegion, Interpolation, MoveDirection, MoveLayer, MoveSelectionContent, Orientation, PlaceTile, ReframeCanvas, RemoveLayer, RemoveSlice, ReplaceCelPixels, SetFrameDuration, SetLayerBlendMode, SetLayerName, SetLayerOpacity, SetLayerVisible, SetPixel, SetSliceKey, SetTilePixel, ShapeMode, ShapeStyle, TextAlign, TransformCanvas, TransformCel, BlendMode, Cel, CelData, CelKey, CelMap, ColorMode, Frame, FrameIndex, Layer, LayerId, LayerKind, Metadata, Palette, PaletteEntry, PathRef, PixelBuffer, Rgba, Slice, SliceId, SliceKey, Sprite, SpriteBuilder, Tag, TagDirection, TileImage, TileRef, Tileset, TilesetId, Point, Rect, DocumentError};



#[test]
fn layer_rect_helper_matches_struct_variant() {
    let r = Rect::new(2, 3, 4, 5);
    let region = DirtyRegion::layer_rect(LayerId::new(7), FrameIndex::new(1), r);
    assert_eq!(
        region,
        DirtyRegion::Layer {
            layer: LayerId::new(7),
            frame: FrameIndex::new(1),
            rect: r,
        }
    );
}

#[test]
fn is_none_only_true_for_none_variant() {
    assert!(DirtyRegion::NoChange.is_none());
    assert!(!DirtyRegion::Canvas.is_none());
    assert!(
        !DirtyRegion::layer_rect(LayerId::new(0), FrameIndex::new(0), Rect::new(0, 0, 1, 1))
            .is_none()
    );
}

#[test]
fn bbox_handles_unordered_endpoints() {
    let layer = LayerId::new(0);
    let frame = FrameIndex::new(0);
    // (3,3) to (1,1) — reversed order should still produce the same rect.
    assert_eq!(
        DirtyRegion::bbox(layer, frame, 3, 3, 1, 1),
        DirtyRegion::layer_rect(layer, frame, Rect::new(1, 1, 3, 3))
    );
}

#[test]
fn bbox_includes_both_endpoint_pixels() {
    let layer = LayerId::new(0);
    let frame = FrameIndex::new(0);
    // 1×1 box when the endpoints coincide.
    assert_eq!(
        DirtyRegion::bbox(layer, frame, 5, 7, 5, 7),
        DirtyRegion::layer_rect(layer, frame, Rect::new(5, 7, 1, 1))
    );
}

#[test]
fn bbox_with_negative_coordinates_keeps_min_origin() {
    let layer = LayerId::new(0);
    let frame = FrameIndex::new(0);
    assert_eq!(
        DirtyRegion::bbox(layer, frame, -2, -3, 1, 1),
        DirtyRegion::layer_rect(layer, frame, Rect::new(-2, -3, 4, 5))
    );
}
