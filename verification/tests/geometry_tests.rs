#![allow(unused_imports, dead_code)]
use pincel_core::{AddFrame, AddLayer, AddSlice, AddTile, AddTilemapLayer, AddTileset, Anchor, AnyCommand, Bus, ClearRegion, Command, CommandError, DirtyRegion, DrawEllipse, DrawLine, DrawRectangle, DuplicateLayer, FillRegion, Interpolation, MoveDirection, MoveLayer, MoveSelectionContent, Orientation, PlaceTile, ReframeCanvas, RemoveLayer, RemoveSlice, ReplaceCelPixels, SetFrameDuration, SetLayerBlendMode, SetLayerName, SetLayerOpacity, SetLayerVisible, SetPixel, SetSliceKey, SetTilePixel, ShapeMode, ShapeStyle, TextAlign, TransformCanvas, TransformCel, BlendMode, Cel, CelData, CelKey, CelMap, ColorMode, Frame, FrameIndex, Layer, LayerId, LayerKind, Metadata, Palette, PaletteEntry, PathRef, PixelBuffer, Rgba, Slice, SliceId, SliceKey, Sprite, SpriteBuilder, Tag, TagDirection, TileImage, TileRef, Tileset, TilesetId, Point, Rect, DocumentError};




#[test]
fn rect_contains_includes_top_left_excludes_bottom_right() {
    let r = Rect::new(2, 3, 4, 5);
    assert!(r.contains(Point::new(2, 3)));
    assert!(r.contains(Point::new(5, 7)));
    assert!(!r.contains(Point::new(6, 7)));
    assert!(!r.contains(Point::new(5, 8)));
    assert!(!r.contains(Point::new(1, 3)));
}

#[test]
fn rect_is_empty_when_either_dimension_is_zero() {
    assert!(Rect::new(0, 0, 0, 5).is_empty());
    assert!(Rect::new(0, 0, 5, 0).is_empty());
    assert!(!Rect::new(0, 0, 1, 1).is_empty());
}

#[test]
fn point_origin_is_zero_zero() {
    assert_eq!(Point::origin(), Point::new(0, 0));
}

#[test]
fn rect_intersect_fully_inside_returns_inner() {
    let outer = Rect::new(0, 0, 10, 10);
    let inner = Rect::new(2, 3, 4, 5);
    assert_eq!(outer.intersect(inner), inner);
    assert_eq!(inner.intersect(outer), inner);
}

#[test]
fn rect_intersect_partial_overlap_returns_overlap() {
    let a = Rect::new(0, 0, 10, 10);
    let b = Rect::new(5, 5, 10, 10);
    assert_eq!(a.intersect(b), Rect::new(5, 5, 5, 5));
}

#[test]
fn rect_intersect_no_overlap_returns_empty() {
    let a = Rect::new(0, 0, 4, 4);
    let b = Rect::new(10, 10, 4, 4);
    assert!(a.intersect(b).is_empty());
}

#[test]
fn rect_intersect_touching_edges_returns_empty() {
    let a = Rect::new(0, 0, 4, 4);
    // b starts exactly where a ends (exclusive upper bound).
    let b = Rect::new(4, 0, 4, 4);
    assert!(a.intersect(b).is_empty());
}

#[test]
fn rect_intersect_negative_coordinates_clamp_correctly() {
    let a = Rect::new(-5, -5, 10, 10);
    let b = Rect::new(0, 0, 10, 10);
    assert_eq!(a.intersect(b), Rect::new(0, 0, 5, 5));
}
