#![allow(unused_imports, dead_code)]
use pincel_core::{AddFrame, AddLayer, AddSlice, AddTile, AddTilemapLayer, AddTileset, Anchor, AnyCommand, Bus, ClearRegion, Command, CommandError, DirtyRegion, DrawEllipse, DrawLine, DrawRectangle, DuplicateLayer, FillRegion, Interpolation, MoveDirection, MoveLayer, MoveSelectionContent, Orientation, PlaceTile, ReframeCanvas, RemoveLayer, RemoveSlice, ReplaceCelPixels, SetFrameDuration, SetLayerBlendMode, SetLayerName, SetLayerOpacity, SetLayerVisible, SetPixel, SetSliceKey, SetTilePixel, ShapeMode, ShapeStyle, TextAlign, TransformCanvas, TransformCel, BlendMode, Cel, CelData, CelKey, CelMap, ColorMode, Frame, FrameIndex, Layer, LayerId, LayerKind, Metadata, Palette, PaletteEntry, PathRef, PixelBuffer, Rgba, Slice, SliceId, SliceKey, Sprite, SpriteBuilder, Tag, TagDirection, TileImage, TileRef, Tileset, TilesetId, Point, Rect, DocumentError};
use pincel_core::command::transform_support::{orient_point, orient_rect, Raster};



fn raster(w: u32, h: u32, px: &[[u8; 4]]) -> Raster {
    let mut r = Raster::transparent(w, h);
    for (i, p) in px.iter().enumerate() {
        r.put(i as u32 % w, i as u32 / w, *p);
    }
    r
}

const R: [u8; 4] = [255, 0, 0, 255];
const G: [u8; 4] = [0, 255, 0, 255];
const B: [u8; 4] = [0, 0, 255, 255];
const T: [u8; 4] = [0, 0, 0, 0];

#[test]
fn oriented_flip_and_rotate_move_pixels_as_expected() {
    // 2×1: [R G]
    let src = raster(2, 1, &[R, G]);
    assert_eq!(
        src.oriented(Orientation::FlipHorizontal).data,
        raster(2, 1, &[G, R]).data
    );
    let cw = src.oriented(Orientation::Rotate90Cw);
    assert_eq!((cw.width, cw.height), (1, 2));
    assert_eq!(cw.get(0, 0), R);
    assert_eq!(cw.get(0, 1), G);
    let ccw = src.oriented(Orientation::Rotate90Ccw);
    assert_eq!(ccw.get(0, 0), G);
    assert_eq!(ccw.get(0, 1), R);
    assert_eq!(
        src.oriented(Orientation::Rotate180).data,
        raster(2, 1, &[G, R]).data
    );
}

#[test]
fn four_quarter_turns_are_the_identity() {
    let src = raster(3, 2, &[R, G, B, T, R, G]);
    let mut cur = src.clone();
    for _ in 0..4 {
        cur = cur.oriented(Orientation::Rotate90Cw);
    }
    assert_eq!(cur, src);
}

#[test]
fn orient_region_only_touches_the_rect() {
    // 3×1: [R G B], flip the first two horizontally.
    let mut r = raster(3, 1, &[R, G, B]);
    r.orient_region(Rect::new(0, 0, 2, 1), Orientation::FlipHorizontal);
    assert_eq!(r.data, raster(3, 1, &[G, R, B]).data);
}

#[test]
fn orient_region_quarter_turn_on_non_square_rect_clips_to_the_rect() {
    // 3×1 rect rotated 90° becomes 1×3 centred on the rect: only the
    // middle pixel survives, at the centre column.
    let mut r = raster(3, 1, &[R, G, B]);
    r.orient_region(Rect::new(0, 0, 3, 1), Orientation::Rotate90Cw);
    assert_eq!(r.data, raster(3, 1, &[T, G, T]).data);
}

#[test]
fn orient_rect_matches_pixel_mapping() {
    // Pixel (0,0) on a 3×2 canvas rotated CW lands at (1,0).
    assert_eq!(orient_point((0, 0), Orientation::Rotate90Cw, 3, 2), (1, 0));
    assert_eq!(orient_point((2, 1), Orientation::Rotate90Cw, 3, 2), (0, 2));
    assert_eq!(orient_point((0, 0), Orientation::Rotate90Ccw, 3, 2), (0, 2));
    assert_eq!(
        orient_point((0, 0), Orientation::FlipHorizontal, 3, 2),
        (2, 0)
    );
    assert_eq!(
        orient_rect(Rect::new(0, 0, 2, 1), Orientation::Rotate180, 3, 2),
        Rect::new(1, 1, 2, 1)
    );
}
