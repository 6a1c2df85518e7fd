#![allow(unused_imports, dead_code)]
use pincel_core::{AddFrame, AddLayer, AddSlice, AddTile, AddTilemapLayer, AddTileset, Anchor, AnyCommand, Bus, ClearRegion, Command, CommandError, DirtyRegion, DrawEllipse, DrawLine, DrawRectangle, DuplicateLayer, FillRegion, Interpolation, MoveDirection, MoveLayer, MoveSelectionContent, Orientation, PlaceTile, ReframeCanvas, RemoveLayer, RemoveSlice, ReplaceCelPixels, SetFrameDuration, SetLayerBlendMode, SetLayerName, SetLayerOpacity, SetLayerVisible, SetPixel, SetSliceKey, SetTilePixel, ShapeMode, ShapeStyle, TextAlign, TransformCanvas, TransformCel, BlendMode, Cel, CelData, CelKey, CelMap, ColorMode, Frame, FrameIndex, Layer, LayerId, LayerKind, Metadata, Palette, PaletteEntry, PathRef, PixelBuffer, Rgba, Slice, SliceId, SliceKey, Sprite, SpriteBuilder, Tag, TagDirection, TileImage, TileRef, Tileset, TilesetId, Point, Rect, DocumentError};




fn sample_cel(layer: u32, frame: u32) -> Cel {
    Cel::image(
        LayerId::new(layer),
        FrameIndex::new(frame),
        PixelBuffer::empty(2, 2, ColorMode::Rgba),
    )
}

#[test]
fn insert_and_get_round_trip() {
    let mut map = CelMap::new();
    let cel = sample_cel(1, 0);
    assert!(map.insert(cel.clone()).is_none());
    assert_eq!(map.get(LayerId::new(1), FrameIndex::new(0)), Some(&cel));
    assert_eq!(map.len(), 1);
}

#[test]
fn insert_replaces_existing_cel() {
    let mut map = CelMap::new();
    map.insert(sample_cel(1, 0));
    let mut replacement = sample_cel(1, 0);
    replacement.opacity = 128;
    let prior = map.insert(replacement.clone()).expect("prior cel returned");
    assert_eq!(prior.opacity, 255);
    assert_eq!(
        map.get(LayerId::new(1), FrameIndex::new(0)),
        Some(&replacement)
    );
}

#[test]
fn remove_returns_stored_cel() {
    let mut map = CelMap::new();
    map.insert(sample_cel(2, 1));
    let removed = map.remove(LayerId::new(2), FrameIndex::new(1));
    assert!(removed.is_some());
    assert!(map.is_empty());
}

#[test]
fn clone_holds_the_same_cels() {
    let mut m = CelMap::new();
    m.insert(Cel::image(LayerId::new(2), FrameIndex::new(0), PixelBuffer::empty(2, 2, ColorMode::Rgba)));
    m.insert(Cel::image(LayerId::new(1), FrameIndex::new(3), PixelBuffer::empty(1, 1, ColorMode::Rgba)));
    let c = m.clone();
    assert_eq!(c, m);
    assert_eq!(c.len(), 2);
}
