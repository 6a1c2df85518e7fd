#![allow(unused_imports, dead_code)]
use pincel_core::{AddFrame, AddLayer, AddSlice, AddTile, AddTilemapLayer, AddTileset, Anchor, AnyCommand, Bus, ClearRegion, Command, CommandError, DirtyRegion, DrawEllipse, DrawLine, DrawRectangle, DuplicateLayer, FillRegion, Interpolation, MoveDirection, MoveLayer, MoveSelectionContent, Orientation, PlaceTile, ReframeCanvas, RemoveLayer, RemoveSlice, ReplaceCelPixels, SetFrameDuration, SetLayerBlendMode, SetLayerName, SetLayerOpacity, SetLayerVisible, SetPixel, SetSliceKey, SetTilePixel, ShapeMode, ShapeStyle, TextAlign, TransformCanvas, TransformCel, BlendMode, Cel, CelData, CelKey, CelMap, ColorMode, Frame, FrameIndex, Layer, LayerId, LayerKind, Metadata, Palette, PaletteEntry, PathRef, PixelBuffer, Rgba, Slice, SliceId, SliceKey, Sprite, SpriteBuilder, Tag, TagDirection, TileImage, TileRef, Tileset, TilesetId, Point, Rect, DocumentError};
use pincel_core::command::draw_rectangle::normalize;




fn fixture() -> (Sprite, CelMap) {
    let sprite = Sprite::builder(8, 8)
        .add_layer(Layer::image(LayerId::new(1), "bg"))
        .add_frame(Frame::new(100))
        .build()
        .expect("sprite builds");
    let mut cels = CelMap::new();
    cels.insert(Cel::image(
        LayerId::new(1),
        FrameIndex::new(0),
        PixelBuffer::empty(8, 8, ColorMode::Rgba),
    ));
    (sprite, cels)
}

fn pixel(cels: &CelMap, x: u32, y: u32) -> Rgba {
    let cel = cels
        .get(LayerId::new(1), FrameIndex::new(0))
        .expect("cel exists");
    let CelData::Image(buf) = &cel.data else {
        panic!("expected image cel");
    };
    let off = ((y * buf.width + x) * 4) as usize;
    Rgba {
        r: buf.data[off],
        g: buf.data[off + 1],
        b: buf.data[off + 2],
        a: buf.data[off + 3],
    }
}

#[test]
fn draw_rectangle_normalize_orders_endpoints_minmax() {
    assert_eq!(normalize(1, 2, 4, 6), (1, 2, 4, 6));
    assert_eq!(normalize(4, 6, 1, 2), (1, 2, 4, 6));
    assert_eq!(normalize(1, 6, 4, 2), (1, 2, 4, 6));
    assert_eq!(normalize(-3, -1, 0, 5), (-3, -1, 0, 5));
}

#[test]
fn outline_writes_only_the_border() {
    let (mut sprite, mut cels) = fixture();
    let mut cmd = DrawRectangle::new(
        LayerId::new(1),
        FrameIndex::new(0),
        (1, 1),
        (4, 4),
        false,
        Rgba::white(),
    );
    cmd.apply(&mut sprite, &mut cels).expect("apply ok");
    // Border pixels.
    for x in 1..=4 {
        assert_eq!(pixel(&cels, x, 1), Rgba::white());
        assert_eq!(pixel(&cels, x, 4), Rgba::white());
    }
    for y in 2..=3 {
        assert_eq!(pixel(&cels, 1, y), Rgba::white());
        assert_eq!(pixel(&cels, 4, y), Rgba::white());
    }
    // Interior stays transparent.
    for y in 2..=3 {
        for x in 2..=3 {
            assert_eq!(pixel(&cels, x, y), Rgba::transparent());
        }
    }
    // Outside the rect stays transparent.
    assert_eq!(pixel(&cels, 0, 0), Rgba::transparent());
    assert_eq!(pixel(&cels, 5, 5), Rgba::transparent());
}

#[test]
fn fill_writes_every_pixel_in_the_bbox() {
    let (mut sprite, mut cels) = fixture();
    let mut cmd = DrawRectangle::new(
        LayerId::new(1),
        FrameIndex::new(0),
        (1, 1),
        (3, 3),
        true,
        Rgba::white(),
    );
    cmd.apply(&mut sprite, &mut cels).expect("apply ok");
    for y in 1..=3 {
        for x in 1..=3 {
            assert_eq!(pixel(&cels, x, y), Rgba::white());
        }
    }
    assert_eq!(pixel(&cels, 0, 1), Rgba::transparent());
    assert_eq!(pixel(&cels, 4, 3), Rgba::transparent());
}

#[test]
fn reversed_endpoints_produce_the_same_rectangle() {
    let (mut sprite, mut cels_fwd) = fixture();
    let mut fwd = DrawRectangle::new(
        LayerId::new(1),
        FrameIndex::new(0),
        (1, 2),
        (4, 5),
        false,
        Rgba::white(),
    );
    fwd.apply(&mut sprite, &mut cels_fwd).expect("apply ok");

    let (mut sprite2, mut cels_rev) = fixture();
    let mut rev = DrawRectangle::new(
        LayerId::new(1),
        FrameIndex::new(0),
        (4, 5),
        (1, 2),
        false,
        Rgba::white(),
    );
    rev.apply(&mut sprite2, &mut cels_rev).expect("apply ok");

    for y in 0..8u32 {
        for x in 0..8u32 {
            assert_eq!(pixel(&cels_fwd, x, y), pixel(&cels_rev, x, y));
        }
    }
}

#[test]
fn single_pixel_rectangle_outline_writes_one_pixel() {
    let (mut sprite, mut cels) = fixture();
    let mut cmd = DrawRectangle::new(
        LayerId::new(1),
        FrameIndex::new(0),
        (3, 3),
        (3, 3),
        false,
        Rgba::white(),
    );
    cmd.apply(&mut sprite, &mut cels).expect("apply ok");
    assert_eq!(pixel(&cels, 3, 3), Rgba::white());
    // Neighbors stay transparent.
    assert_eq!(pixel(&cels, 2, 3), Rgba::transparent());
    assert_eq!(pixel(&cels, 4, 3), Rgba::transparent());
}

#[test]
fn one_dimensional_outline_degenerates_to_a_line() {
    let (mut sprite, mut cels) = fixture();
    // Same `y` for both corners — outline should collapse to a single
    // horizontal run without writing the "bottom" edge twice.
    let mut cmd = DrawRectangle::new(
        LayerId::new(1),
        FrameIndex::new(0),
        (0, 2),
        (5, 2),
        false,
        Rgba::white(),
    );
    cmd.apply(&mut sprite, &mut cels).expect("apply ok");
    for x in 0..=5 {
        assert_eq!(pixel(&cels, x, 2), Rgba::white());
    }
    // No other rows should be touched.
    for y in 0..8u32 {
        if y == 2 {
            continue;
        }
        for x in 0..8u32 {
            assert_eq!(pixel(&cels, x, y), Rgba::transparent());
        }
    }
}

#[test]
fn draw_rectangle_revert_restores_outline_pixels() {
    let (mut sprite, mut cels) = fixture();
    let mut cmd = DrawRectangle::new(
        LayerId::new(1),
        FrameIndex::new(0),
        (0, 0),
        (7, 7),
        false,
        Rgba::white(),
    );
    cmd.apply(&mut sprite, &mut cels).expect("apply ok");
    cmd.revert(&mut sprite, &mut cels);
    for y in 0..8u32 {
        for x in 0..8u32 {
            assert_eq!(pixel(&cels, x, y), Rgba::transparent());
        }
    }
}

#[test]
fn draw_rectangle_revert_restores_fill_pixels() {
    let (mut sprite, mut cels) = fixture();
    let mut cmd = DrawRectangle::new(
        LayerId::new(1),
        FrameIndex::new(0),
        (1, 1),
        (6, 6),
        true,
        Rgba::white(),
    );
    cmd.apply(&mut sprite, &mut cels).expect("apply ok");
    cmd.revert(&mut sprite, &mut cels);
    for y in 0..8u32 {
        for x in 0..8u32 {
            assert_eq!(pixel(&cels, x, y), Rgba::transparent());
        }
    }
}

#[test]
fn outline_clips_to_cel_bounds() {
    let (mut sprite, mut cels) = fixture();
    // Rect extends past the 8×8 cel on all sides. Only the in-bounds
    // border segments should be written.
    let mut cmd = DrawRectangle::new(
        LayerId::new(1),
        FrameIndex::new(0),
        (-2, -2),
        (10, 10),
        false,
        Rgba::white(),
    );
    cmd.apply(&mut sprite, &mut cels).expect("apply ok");
    // The border lies entirely outside the cel, so nothing should be
    // written.
    for y in 0..8u32 {
        for x in 0..8u32 {
            assert_eq!(pixel(&cels, x, y), Rgba::transparent());
        }
    }
}

#[test]
fn outline_partial_overlap_writes_only_in_bounds_edge_pixels() {
    let (mut sprite, mut cels) = fixture();
    // Rect bottom edge crosses the cel; top / left / right are
    // outside. Only the bottom row inside the cel should be touched.
    let mut cmd = DrawRectangle::new(
        LayerId::new(1),
        FrameIndex::new(0),
        (-3, -3),
        (10, 4),
        false,
        Rgba::white(),
    );
    cmd.apply(&mut sprite, &mut cels).expect("apply ok");
    for x in 0..8u32 {
        assert_eq!(pixel(&cels, x, 4), Rgba::white());
    }
    for y in 0..8u32 {
        if y == 4 {
            continue;
        }
        for x in 0..8u32 {
            assert_eq!(pixel(&cels, x, y), Rgba::transparent());
        }
    }
}

#[test]
fn fill_clips_to_cel_bounds() {
    let (mut sprite, mut cels) = fixture();
    let mut cmd = DrawRectangle::new(
        LayerId::new(1),
        FrameIndex::new(0),
        (-2, -2),
        (3, 3),
        true,
        Rgba::white(),
    );
    cmd.apply(&mut sprite, &mut cels).expect("apply ok");
    for y in 0..=3u32 {
        for x in 0..=3u32 {
            assert_eq!(pixel(&cels, x, y), Rgba::white());
        }
    }
    assert_eq!(pixel(&cels, 4, 4), Rgba::transparent());
}

#[test]
fn draw_rectangle_fill_with_offset_cel_uses_local_coords() {
    let (mut sprite, mut cels) = fixture();
    cels.get_mut(LayerId::new(1), FrameIndex::new(0))
        .unwrap()
        .position = (2, 2);
    // Sprite-space (3..=4, 3..=4) → local (1..=2, 1..=2). Pixels at
    // sprite (1, 1) (= local (-1, -1)) are silently skipped.
    let mut cmd = DrawRectangle::new(
        LayerId::new(1),
        FrameIndex::new(0),
        (1, 1),
        (4, 4),
        true,
        Rgba::white(),
    );
    cmd.apply(&mut sprite, &mut cels).expect("apply ok");
    for ly in 0..=2u32 {
        for lx in 0..=2u32 {
            assert_eq!(pixel(&cels, lx, ly), Rgba::white());
        }
    }
    // Local (3, 3) is past sprite-space (4, 4) — outside the rect.
    assert_eq!(pixel(&cels, 3, 3), Rgba::transparent());
}

#[test]
fn draw_rectangle_missing_cel_yields_error() {
    let (mut sprite, mut cels) = fixture();
    let mut cmd = DrawRectangle::new(
        LayerId::new(99),
        FrameIndex::new(0),
        (0, 0),
        (1, 1),
        true,
        Rgba::white(),
    );
    let err = cmd.apply(&mut sprite, &mut cels).unwrap_err();
    assert_eq!(
        err,
        CommandError::MissingCel {
            layer: LayerId::new(99),
            frame: FrameIndex::new(0),
        }
    );
}

#[test]
fn does_not_merge_with_another_draw_rectangle() {
    let mut a = DrawRectangle::new(
        LayerId::new(1),
        FrameIndex::new(0),
        (0, 0),
        (1, 1),
        false,
        Rgba::white(),
    );
    let b = DrawRectangle::new(
        LayerId::new(1),
        FrameIndex::new(0),
        (2, 2),
        (3, 3),
        false,
        Rgba::white(),
    );
    assert!(!a.merge(&b));
}

#[test]
fn outline_with_far_endpoints_does_not_allocate_per_unclipped_pixel() {
    // i32::MIN/MAX corners must clip to the cel before iterating —
    // otherwise the prior-pixel vec would grow to 2^32 entries and
    // exhaust memory.
    let (mut sprite, mut cels) = fixture();
    let mut cmd = DrawRectangle::new(
        LayerId::new(1),
        FrameIndex::new(0),
        (i32::MIN, i32::MIN),
        (i32::MAX, i32::MAX),
        false,
        Rgba::white(),
    );
    cmd.apply(&mut sprite, &mut cels).expect("apply ok");
    // The outline corners are way outside the cel, so nothing lands.
    for y in 0..8u32 {
        for x in 0..8u32 {
            assert_eq!(pixel(&cels, x, y), Rgba::transparent());
        }
    }
}

#[test]
fn fill_with_far_endpoints_clips_to_cel() {
    let (mut sprite, mut cels) = fixture();
    let mut cmd = DrawRectangle::new(
        LayerId::new(1),
        FrameIndex::new(0),
        (i32::MIN, i32::MIN),
        (i32::MAX, i32::MAX),
        true,
        Rgba::white(),
    );
    cmd.apply(&mut sprite, &mut cels).expect("apply ok");
    // Every cel pixel was inside the rect, so every pixel is now opaque.
    for y in 0..8u32 {
        for x in 0..8u32 {
            assert_eq!(pixel(&cels, x, y), Rgba::white());
        }
    }
}
