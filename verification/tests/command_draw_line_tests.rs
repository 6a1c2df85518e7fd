#![allow(unused_imports, dead_code)]
use pincel_core::{AddFrame, AddLayer, AddSlice, AddTile, AddTilemapLayer, AddTileset, Anchor, AnyCommand, Bus, ClearRegion, Command, CommandError, DirtyRegion, DrawEllipse, DrawLine, DrawRectangle, DuplicateLayer, FillRegion, Interpolation, MoveDirection, MoveLayer, MoveSelectionContent, Orientation, PlaceTile, ReframeCanvas, RemoveLayer, RemoveSlice, ReplaceCelPixels, SetFrameDuration, SetLayerBlendMode, SetLayerName, SetLayerOpacity, SetLayerVisible, SetPixel, SetSliceKey, SetTilePixel, ShapeMode, ShapeStyle, TextAlign, TransformCanvas, TransformCel, BlendMode, Cel, CelData, CelKey, CelMap, ColorMode, Frame, FrameIndex, Layer, LayerId, LayerKind, Metadata, Palette, PaletteEntry, PathRef, PixelBuffer, Rgba, Slice, SliceId, SliceKey, Sprite, SpriteBuilder, Tag, TagDirection, TileImage, TileRef, Tileset, TilesetId, Point, Rect, DocumentError};
use pincel_core::command::draw_line::bresenham;




fn fixture() -> (Sprite, CelMap) {
    let sprite = Sprite::builder(8, 8)
        .add_layer(Layer::image(LayerId::new(1), "bg"))
        .add_frame(Frame::new(100))
        .build()
        .expect("sprite builds");
    let mut cels = CelMap::new();
    cels.insert(Cel::image(
        LayerId::new(1),
        FrameIndex::new(0),
        PixelBuffer::empty(8, 8, ColorMode::Rgba),
    ));
    (sprite, cels)
}

fn pixel(cels: &CelMap, x: u32, y: u32) -> Rgba {
    let cel = cels
        .get(LayerId::new(1), FrameIndex::new(0))
        .expect("cel exists");
    let CelData::Image(buf) = &cel.data else {
        panic!("expected image cel");
    };
    let off = ((y * buf.width + x) * 4) as usize;
    Rgba {
        r: buf.data[off],
        g: buf.data[off + 1],
        b: buf.data[off + 2],
        a: buf.data[off + 3],
    }
}

#[test]
fn bresenham_horizontal_line_covers_each_x() {
    let pts = bresenham(0, 3, 4, 3);
    assert_eq!(pts, vec![(0, 3), (1, 3), (2, 3), (3, 3), (4, 3)]);
}

#[test]
fn bresenham_vertical_line_covers_each_y() {
    let pts = bresenham(2, 1, 2, 5);
    assert_eq!(pts, vec![(2, 1), (2, 2), (2, 3), (2, 4), (2, 5)]);
}

#[test]
fn bresenham_perfect_diagonal_covers_each_step() {
    let pts = bresenham(0, 0, 3, 3);
    assert_eq!(pts, vec![(0, 0), (1, 1), (2, 2), (3, 3)]);
}

#[test]
fn bresenham_reverse_diagonal_is_symmetric() {
    let pts = bresenham(3, 3, 0, 0);
    assert_eq!(pts, vec![(3, 3), (2, 2), (1, 1), (0, 0)]);
}

#[test]
fn bresenham_same_endpoint_yields_single_pixel() {
    let pts = bresenham(2, 2, 2, 2);
    assert_eq!(pts, vec![(2, 2)]);
}

#[test]
fn apply_writes_horizontal_pixels() {
    let (mut sprite, mut cels) = fixture();
    let mut cmd = DrawLine::new(LayerId::new(1), FrameIndex::new(0), 1, 2, 4, 2, Rgba::white());
    cmd.apply(&mut sprite, &mut cels).expect("apply ok");
    for x in 1..=4 {
        assert_eq!(pixel(&cels, x, 2), Rgba::white());
    }
    assert_eq!(pixel(&cels, 0, 2), Rgba::transparent());
    assert_eq!(pixel(&cels, 5, 2), Rgba::transparent());
}

#[test]
fn apply_writes_diagonal_pixels() {
    let (mut sprite, mut cels) = fixture();
    let mut cmd = DrawLine::new(LayerId::new(1), FrameIndex::new(0), 0, 0, 3, 3, Rgba::white());
    cmd.apply(&mut sprite, &mut cels).expect("apply ok");
    for i in 0..=3 {
        assert_eq!(pixel(&cels, i, i), Rgba::white());
    }
}

#[test]
fn apply_single_pixel_line_writes_one_pixel() {
    let (mut sprite, mut cels) = fixture();
    let mut cmd = DrawLine::new(LayerId::new(1), FrameIndex::new(0), 5, 5, 5, 5, Rgba::white());
    cmd.apply(&mut sprite, &mut cels).expect("apply ok");
    assert_eq!(pixel(&cels, 5, 5), Rgba::white());
}

#[test]
fn revert_restores_each_pixel() {
    let (mut sprite, mut cels) = fixture();
    let mut cmd = DrawLine::new(LayerId::new(1), FrameIndex::new(0), 0, 0, 7, 7, Rgba::white());
    cmd.apply(&mut sprite, &mut cels).expect("apply ok");
    cmd.revert(&mut sprite, &mut cels);
    for i in 0..8u32 {
        assert_eq!(pixel(&cels, i, i), Rgba::transparent());
    }
}

#[test]
fn apply_skips_pixels_outside_cel_silently() {
    let (mut sprite, mut cels) = fixture();
    // Line extends past the right edge of the 8×8 cel; the in-bounds
    // pixels still land, the rest are dropped without an error.
    let mut cmd = DrawLine::new(
        LayerId::new(1),
        FrameIndex::new(0),
        6,
        4,
        12,
        4,
        Rgba::white(),
    );
    cmd.apply(&mut sprite, &mut cels).expect("apply ok");
    assert_eq!(pixel(&cels, 6, 4), Rgba::white());
    assert_eq!(pixel(&cels, 7, 4), Rgba::white());
}

#[test]
fn apply_with_offset_cel_uses_local_coords() {
    let (mut sprite, mut cels) = fixture();
    cels.get_mut(LayerId::new(1), FrameIndex::new(0))
        .unwrap()
        .position = (2, 2);
    // Sprite-space (3, 3) → local (1, 1). (1, 1) → local (-1, -1) is dropped.
    let mut cmd = DrawLine::new(LayerId::new(1), FrameIndex::new(0), 1, 3, 3, 3, Rgba::white());
    cmd.apply(&mut sprite, &mut cels).expect("apply ok");
    assert_eq!(pixel(&cels, 0, 1), Rgba::white());
    assert_eq!(pixel(&cels, 1, 1), Rgba::white());
}

#[test]
fn draw_line_missing_cel_yields_error() {
    let (mut sprite, mut cels) = fixture();
    let mut cmd = DrawLine::new(
        LayerId::new(99),
        FrameIndex::new(0),
        0,
        0,
        1,
        1,
        Rgba::white(),
    );
    let err = cmd.apply(&mut sprite, &mut cels).unwrap_err();
    assert_eq!(
        err,
        CommandError::MissingCel {
            layer: LayerId::new(99),
            frame: FrameIndex::new(0),
        }
    );
}

#[test]
fn does_not_merge_with_another_draw_line() {
    let mut a = DrawLine::new(LayerId::new(1), FrameIndex::new(0), 0, 0, 1, 1, Rgba::white());
    let b = DrawLine::new(LayerId::new(1), FrameIndex::new(0), 1, 1, 2, 2, Rgba::white());
    assert!(!a.merge(&b));
}
