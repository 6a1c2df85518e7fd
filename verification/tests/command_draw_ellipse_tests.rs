#![allow(unused_imports, dead_code)]
use pincel_core::{AddFrame, AddLayer, AddSlice, AddTile, AddTilemapLayer, AddTileset, Anchor, AnyCommand, Bus, ClearRegion, Command, CommandError, DirtyRegion, DrawEllipse, DrawLine, DrawRectangle, DuplicateLayer, FillRegion, Interpolation, MoveDirection, MoveLayer, MoveSelectionContent, Orientation, PlaceTile, ReframeCanvas, RemoveLayer, RemoveSlice, ReplaceCelPixels, SetFrameDuration, SetLayerBlendMode, SetLayerName, SetLayerOpacity, SetLayerVisible, SetPixel, SetSliceKey, SetTilePixel, ShapeMode, ShapeStyle, TextAlign, TransformCanvas, TransformCel, BlendMode, Cel, CelData, CelKey, CelMap, ColorMode, Frame, FrameIndex, Layer, LayerId, LayerKind, Metadata, Palette, PaletteEntry, PathRef, PixelBuffer, Rgba, Slice, SliceId, SliceKey, Sprite, SpriteBuilder, Tag, TagDirection, TileImage, TileRef, Tileset, TilesetId, Point, Rect, DocumentError};
use pincel_core::command::draw_ellipse::normalize;




fn fixture(size: u32) -> (Sprite, CelMap) {
    let sprite = Sprite::builder(size, size)
        .add_layer(Layer::image(LayerId::new(1), "bg"))
        .add_frame(Frame::new(100))
        .build()
        .expect("sprite builds");
    let mut cels = CelMap::new();
    cels.insert(Cel::image(
        LayerId::new(1),
        FrameIndex::new(0),
        PixelBuffer::empty(size, size, ColorMode::Rgba),
    ));
    (sprite, cels)
}

fn pixel(cels: &CelMap, x: u32, y: u32) -> Rgba {
    let cel = cels
        .get(LayerId::new(1), FrameIndex::new(0))
        .expect("cel exists");
    let CelData::Image(buf) = &cel.data else {
        panic!("expected image cel");
    };
    let off = ((y * buf.width + x) * 4) as usize;
    Rgba {
        r: buf.data[off],
        g: buf.data[off + 1],
        b: buf.data[off + 2],
        a: buf.data[off + 3],
    }
}

fn is_set(cels: &CelMap, x: u32, y: u32) -> bool {
    pixel(cels, x, y) != Rgba::transparent()
}

#[test]
fn draw_ellipse_normalize_orders_endpoints_minmax() {
    assert_eq!(normalize(1, 2, 4, 6), (1, 2, 4, 6));
    assert_eq!(normalize(4, 6, 1, 2), (1, 2, 4, 6));
    assert_eq!(normalize(-3, -1, 0, 5), (-3, -1, 0, 5));
}

#[test]
fn single_pixel_bbox_writes_one_pixel() {
    let (mut sprite, mut cels) = fixture(8);
    let mut cmd = DrawEllipse::new(
        LayerId::new(1),
        FrameIndex::new(0),
        (3, 3),
        (3, 3),
        false,
        Rgba::white(),
    );
    cmd.apply(&mut sprite, &mut cels).expect("apply ok");
    assert_eq!(pixel(&cels, 3, 3), Rgba::white());
    assert_eq!(pixel(&cels, 2, 3), Rgba::transparent());
    assert_eq!(pixel(&cels, 4, 3), Rgba::transparent());
}

#[test]
fn zero_width_bbox_collapses_to_vertical_line() {
    let (mut sprite, mut cels) = fixture(8);
    let mut cmd = DrawEllipse::new(
        LayerId::new(1),
        FrameIndex::new(0),
        (4, 1),
        (4, 5),
        false,
        Rgba::white(),
    );
    cmd.apply(&mut sprite, &mut cels).expect("apply ok");
    for y in 1..=5u32 {
        assert_eq!(pixel(&cels, 4, y), Rgba::white());
    }
    // Nothing else is touched.
    assert_eq!(pixel(&cels, 3, 3), Rgba::transparent());
    assert_eq!(pixel(&cels, 5, 3), Rgba::transparent());
}

#[test]
fn zero_height_bbox_collapses_to_horizontal_line() {
    let (mut sprite, mut cels) = fixture(8);
    let mut cmd = DrawEllipse::new(
        LayerId::new(1),
        FrameIndex::new(0),
        (1, 4),
        (6, 4),
        true,
        Rgba::white(),
    );
    cmd.apply(&mut sprite, &mut cels).expect("apply ok");
    for x in 1..=6u32 {
        assert_eq!(pixel(&cels, x, 4), Rgba::white());
    }
    assert_eq!(pixel(&cels, 0, 4), Rgba::transparent());
    assert_eq!(pixel(&cels, 7, 4), Rgba::transparent());
}

#[test]
fn outline_is_symmetric_about_the_center_of_the_bbox() {
    let (mut sprite, mut cels) = fixture(11);
    // Square bbox 0..=10 → an inscribed circle. The midpoint
    // algorithm is symmetric in both axes, so reflecting any rim
    // pixel about the center (5, 5) hits another rim pixel.
    let mut cmd = DrawEllipse::new(
        LayerId::new(1),
        FrameIndex::new(0),
        (0, 0),
        (10, 10),
        false,
        Rgba::white(),
    );
    cmd.apply(&mut sprite, &mut cels).expect("apply ok");
    for y in 0..11u32 {
        for x in 0..11u32 {
            let mirror_x = 10 - x;
            let mirror_y = 10 - y;
            assert_eq!(
                is_set(&cels, x, y),
                is_set(&cels, mirror_x, y),
                "horizontal mirror at ({x}, {y})",
            );
            assert_eq!(
                is_set(&cels, x, y),
                is_set(&cels, x, mirror_y),
                "vertical mirror at ({x}, {y})",
            );
        }
    }
}

#[test]
fn outline_touches_the_four_axis_extremes() {
    let (mut sprite, mut cels) = fixture(11);
    let mut cmd = DrawEllipse::new(
        LayerId::new(1),
        FrameIndex::new(0),
        (0, 0),
        (10, 10),
        false,
        Rgba::white(),
    );
    cmd.apply(&mut sprite, &mut cels).expect("apply ok");
    // For an 11×11 bbox the rim must include the four axis-aligned
    // extremes — anything else and the user sees a broken rim.
    assert_eq!(pixel(&cels, 5, 0), Rgba::white());
    assert_eq!(pixel(&cels, 5, 10), Rgba::white());
    assert_eq!(pixel(&cels, 0, 5), Rgba::white());
    assert_eq!(pixel(&cels, 10, 5), Rgba::white());
    // The center is interior, not on the rim.
    assert_eq!(pixel(&cels, 5, 5), Rgba::transparent());
}

#[test]
fn fill_includes_the_center_and_the_rim() {
    let (mut sprite, mut cels) = fixture(11);
    let mut cmd = DrawEllipse::new(
        LayerId::new(1),
        FrameIndex::new(0),
        (0, 0),
        (10, 10),
        true,
        Rgba::white(),
    );
    cmd.apply(&mut sprite, &mut cels).expect("apply ok");
    // Center pixel filled.
    assert_eq!(pixel(&cels, 5, 5), Rgba::white());
    // Rim extremes filled.
    assert_eq!(pixel(&cels, 5, 0), Rgba::white());
    assert_eq!(pixel(&cels, 0, 5), Rgba::white());
    // The four bbox corners lie outside an inscribed circle.
    assert_eq!(pixel(&cels, 0, 0), Rgba::transparent());
    assert_eq!(pixel(&cels, 10, 10), Rgba::transparent());
}

#[test]
fn fill_rows_are_contiguous() {
    let (mut sprite, mut cels) = fixture(11);
    let mut cmd = DrawEllipse::new(
        LayerId::new(1),
        FrameIndex::new(0),
        (0, 0),
        (10, 10),
        true,
        Rgba::white(),
    );
    cmd.apply(&mut sprite, &mut cels).expect("apply ok");
    for y in 0..11u32 {
        let mut filled = Vec::new();
        for x in 0..11u32 {
            if is_set(&cels, x, y) {
                filled.push(x);
            }
        }
        if filled.is_empty() {
            continue;
        }
        let lo = *filled.first().unwrap();
        let hi = *filled.last().unwrap();
        for x in lo..=hi {
            assert!(is_set(&cels, x, y), "gap inside fill at ({x}, {y})");
        }
    }
}

#[test]
fn reversed_endpoints_produce_the_same_ellipse() {
    let (mut sprite_a, mut cels_fwd) = fixture(11);
    let mut fwd = DrawEllipse::new(
        LayerId::new(1),
        FrameIndex::new(0),
        (1, 2),
        (9, 8),
        false,
        Rgba::white(),
    );
    fwd.apply(&mut sprite_a, &mut cels_fwd).expect("apply ok");

    let (mut sprite_b, mut cels_rev) = fixture(11);
    let mut rev = DrawEllipse::new(
        LayerId::new(1),
        FrameIndex::new(0),
        (9, 8),
        (1, 2),
        false,
        Rgba::white(),
    );
    rev.apply(&mut sprite_b, &mut cels_rev).expect("apply ok");

    for y in 0..11u32 {
        for x in 0..11u32 {
            assert_eq!(pixel(&cels_fwd, x, y), pixel(&cels_rev, x, y));
        }
    }
}

#[test]
fn draw_ellipse_revert_restores_outline_pixels() {
    let (mut sprite, mut cels) = fixture(11);
    let mut cmd = DrawEllipse::new(
        LayerId::new(1),
        FrameIndex::new(0),
        (0, 0),
        (10, 10),
        false,
        Rgba::white(),
    );
    cmd.apply(&mut sprite, &mut cels).expect("apply ok");
    cmd.revert(&mut sprite, &mut cels);
    for y in 0..11u32 {
        for x in 0..11u32 {
            assert_eq!(pixel(&cels, x, y), Rgba::transparent());
        }
    }
}

#[test]
fn draw_ellipse_revert_restores_fill_pixels() {
    let (mut sprite, mut cels) = fixture(11);
    let mut cmd = DrawEllipse::new(
        LayerId::new(1),
        FrameIndex::new(0),
        (0, 0),
        (10, 10),
        true,
        Rgba::white(),
    );
    cmd.apply(&mut sprite, &mut cels).expect("apply ok");
    cmd.revert(&mut sprite, &mut cels);
    for y in 0..11u32 {
        for x in 0..11u32 {
            assert_eq!(pixel(&cels, x, y), Rgba::transparent());
        }
    }
}

#[test]
fn outline_clipped_to_cel_bounds() {
    let (mut sprite, mut cels) = fixture(8);
    // Bbox extends one pixel past the 8×8 cel on each side, so
    // the rim's cardinal extremes lie outside the cel but the
    // diagonal-ish rim pixels still land inside. Out-of-cel rim
    // segments are silently dropped.
    let mut cmd = DrawEllipse::new(
        LayerId::new(1),
        FrameIndex::new(0),
        (-1, -1),
        (8, 8),
        false,
        Rgba::white(),
    );
    cmd.apply(&mut sprite, &mut cels).expect("apply ok");
    let mut any = false;
    for y in 0..8u32 {
        for x in 0..8u32 {
            if is_set(&cels, x, y) {
                any = true;
            }
        }
    }
    assert!(any, "expected some rim pixels inside the cel");
}

#[test]
fn bbox_entirely_outside_cel_is_noop() {
    let (mut sprite, mut cels) = fixture(8);
    let mut cmd = DrawEllipse::new(
        LayerId::new(1),
        FrameIndex::new(0),
        (100, 100),
        (110, 110),
        true,
        Rgba::white(),
    );
    cmd.apply(&mut sprite, &mut cels).expect("apply ok");
    for y in 0..8u32 {
        for x in 0..8u32 {
            assert_eq!(pixel(&cels, x, y), Rgba::transparent());
        }
    }
}

#[test]
fn huge_bbox_short_circuits_without_drawing() {
    // i32::MIN/MAX corners would otherwise drive a perimeter walk
    // of ~2³² iterations and overflow `a*b*b` in the algorithm's
    // products. The command short-circuits to a no-op.
    let (mut sprite, mut cels) = fixture(8);
    let mut cmd = DrawEllipse::new(
        LayerId::new(1),
        FrameIndex::new(0),
        (i32::MIN, i32::MIN),
        (i32::MAX, i32::MAX),
        true,
        Rgba::white(),
    );
    cmd.apply(&mut sprite, &mut cels).expect("apply ok");
    for y in 0..8u32 {
        for x in 0..8u32 {
            assert_eq!(pixel(&cels, x, y), Rgba::transparent());
        }
    }
}

#[test]
fn draw_ellipse_fill_with_offset_cel_uses_local_coords() {
    let (mut sprite, mut cels) = fixture(8);
    cels.get_mut(LayerId::new(1), FrameIndex::new(0))
        .unwrap()
        .position = (2, 2);
    // Sprite-space bbox (3..=8) overlaps cel-local (1..=6). The
    // ellipse rim center sits at sprite (5.5, 5.5) → local (3.5,
    // 3.5).
    let mut cmd = DrawEllipse::new(
        LayerId::new(1),
        FrameIndex::new(0),
        (3, 3),
        (8, 8),
        true,
        Rgba::white(),
    );
    cmd.apply(&mut sprite, &mut cels).expect("apply ok");
    // The center pixel of the cel-local mapping lands inside the
    // fill. (3, 3) in local coords corresponds to sprite (5, 5).
    assert_eq!(pixel(&cels, 3, 3), Rgba::white());
    // Pixels outside the sprite-space bbox stay transparent.
    assert_eq!(pixel(&cels, 0, 0), Rgba::transparent());
}

#[test]
fn draw_ellipse_missing_cel_yields_error() {
    let (mut sprite, mut cels) = fixture(8);
    let mut cmd = DrawEllipse::new(
        LayerId::new(99),
        FrameIndex::new(0),
        (0, 0),
        (1, 1),
        true,
        Rgba::white(),
    );
    let err = cmd.apply(&mut sprite, &mut cels).unwrap_err();
    assert_eq!(
        err,
        CommandError::MissingCel {
            layer: LayerId::new(99),
            frame: FrameIndex::new(0),
        }
    );
}

#[test]
fn does_not_merge_with_another_draw_ellipse() {
    let mut a = DrawEllipse::new(
        LayerId::new(1),
        FrameIndex::new(0),
        (0, 0),
        (4, 4),
        false,
        Rgba::white(),
    );
    let b = DrawEllipse::new(
        LayerId::new(1),
        FrameIndex::new(0),
        (5, 5),
        (9, 9),
        false,
        Rgba::white(),
    );
    assert!(!a.merge(&b));
}

#[test]
fn outline_is_mirror_symmetric_about_both_box_axes() {
    let (mut sprite, mut cels) = fixture(16);
    let mut cmd = DrawEllipse::new(
        LayerId::new(1),
        FrameIndex::new(0),
        (2, 3),
        (12, 10),
        false,
        Rgba::white(),
    );
    cmd.apply(&mut sprite, &mut cels).expect("apply ok");
    let mut any = false;
    for y in 3..=10u32 {
        for x in 2..=12u32 {
            any |= is_set(&cels, x, y);
            assert_eq!(is_set(&cels, x, y), is_set(&cels, 2 + 12 - x, y));
            assert_eq!(is_set(&cels, x, y), is_set(&cels, x, 3 + 10 - y));
        }
    }
    assert!(any);
}

#[test]
fn second_revert_leaves_the_cel_alone() {
    let (mut sprite, mut cels) = fixture(8);
    let mut cmd = DrawEllipse::new(
        LayerId::new(1),
        FrameIndex::new(0),
        (1, 1),
        (5, 4),
        false,
        Rgba::white(),
    );
    cmd.apply(&mut sprite, &mut cels).expect("apply ok");
    cmd.revert(&mut sprite, &mut cels);
    let mut again = DrawEllipse::new(
        LayerId::new(1),
        FrameIndex::new(0),
        (1, 1),
        (5, 4),
        false,
        Rgba::white(),
    );
    again.apply(&mut sprite, &mut cels).expect("apply ok");
    let snapshot: Vec<Rgba> = (0..64u32).map(|i| pixel(&cels, i % 8, i / 8)).collect();
    assert!(snapshot.iter().any(|p| *p == Rgba::white()));
    cmd.revert(&mut sprite, &mut cels);
    let after: Vec<Rgba> = (0..64u32).map(|i| pixel(&cels, i % 8, i / 8)).collect();
    assert_eq!(after, snapshot);
}
