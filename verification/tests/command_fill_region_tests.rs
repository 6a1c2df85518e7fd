#![allow(unused_imports, dead_code)]
use pincel_core::{AddFrame, AddLayer, AddSlice, AddTile, AddTilemapLayer, AddTileset, Anchor, AnyCommand, Bus, ClearRegion, Command, CommandError, DirtyRegion, DrawEllipse, DrawLine, DrawRectangle, DuplicateLayer, FillRegion, Interpolation, MoveDirection, MoveLayer, MoveSelectionContent, Orientation, PlaceTile, ReframeCanvas, RemoveLayer, RemoveSlice, ReplaceCelPixels, SetFrameDuration, SetLayerBlendMode, SetLayerName, SetLayerOpacity, SetLayerVisible, SetPixel, SetSliceKey, SetTilePixel, ShapeMode, ShapeStyle, TextAlign, TransformCanvas, TransformCel, BlendMode, Cel, CelData, CelKey, CelMap, ColorMode, Frame, FrameIndex, Layer, LayerId, LayerKind, Metadata, Palette, PaletteEntry, PathRef, PixelBuffer, Rgba, Slice, SliceId, SliceKey, Sprite, SpriteBuilder, Tag, TagDirection, TileImage, TileRef, Tileset, TilesetId, Point, Rect, DocumentError};




const RED: Rgba = Rgba {
    r: 255,
    g: 0,
    b: 0,
    a: 255,
};
const BLUE: Rgba = Rgba {
    r: 0,
    g: 0,
    b: 255,
    a: 255,
};

fn fixture() -> (Sprite, CelMap) {
    let sprite = Sprite::builder(8, 8)
        .add_layer(Layer::image(LayerId::new(1), "bg"))
        .add_frame(Frame::new(100))
        .build()
        .expect("sprite builds");
    let mut cels = CelMap::new();
    cels.insert(Cel::image(
        LayerId::new(1),
        FrameIndex::new(0),
        PixelBuffer::empty(8, 8, ColorMode::Rgba),
    ));
    (sprite, cels)
}

fn pixel(cels: &CelMap, x: u32, y: u32) -> Rgba {
    let cel = cels
        .get(LayerId::new(1), FrameIndex::new(0))
        .expect("cel exists");
    let CelData::Image(buf) = &cel.data else {
        panic!("expected image cel");
    };
    let off = ((y * buf.width + x) * 4) as usize;
    Rgba {
        r: buf.data[off],
        g: buf.data[off + 1],
        b: buf.data[off + 2],
        a: buf.data[off + 3],
    }
}

fn write_pixel(cels: &mut CelMap, x: u32, y: u32, color: Rgba) {
    let cel = cels
        .get_mut(LayerId::new(1), FrameIndex::new(0))
        .expect("cel exists");
    let CelData::Image(buf) = &mut cel.data else {
        panic!("expected image cel");
    };
    let off = ((y * buf.width + x) * 4) as usize;
    buf.data[off] = color.r;
    buf.data[off + 1] = color.g;
    buf.data[off + 2] = color.b;
    buf.data[off + 3] = color.a;
}

#[test]
fn fill_on_blank_cel_paints_every_pixel() {
    let (mut sprite, mut cels) = fixture();
    let mut cmd = FillRegion::new(LayerId::new(1), FrameIndex::new(0), 3, 3, RED);
    cmd.apply(&mut sprite, &mut cels).expect("apply ok");
    for y in 0..8u32 {
        for x in 0..8u32 {
            assert_eq!(pixel(&cels, x, y), RED);
        }
    }
    assert_eq!(cmd.filled_count(), 64);
}

#[test]
fn fill_stops_at_a_color_boundary() {
    // Paint a vertical line down column 4; flood-filling from (0, 0)
    // should only touch x = 0..=3, leaving the line and the right half
    // untouched.
    let (mut sprite, mut cels) = fixture();
    for y in 0..8u32 {
        write_pixel(&mut cels, 4, y, BLUE);
    }
    let mut cmd = FillRegion::new(LayerId::new(1), FrameIndex::new(0), 0, 0, RED);
    cmd.apply(&mut sprite, &mut cels).expect("apply ok");
    for y in 0..8u32 {
        for x in 0..=3u32 {
            assert_eq!(pixel(&cels, x, y), RED);
        }
        assert_eq!(pixel(&cels, 4, y), BLUE);
        for x in 5..8u32 {
            assert_eq!(pixel(&cels, x, y), Rgba::transparent());
        }
    }
    assert_eq!(cmd.filled_count(), 32);
}

#[test]
fn fill_is_four_connected_not_eight() {
    // A diagonal blue line should *not* leak through. The fill seeded
    // from (0, 0) covers the top-left triangle only; the bottom-right
    // triangle stays transparent.
    let (mut sprite, mut cels) = fixture();
    for i in 0..8u32 {
        write_pixel(&mut cels, i, i, BLUE);
    }
    let mut cmd = FillRegion::new(LayerId::new(1), FrameIndex::new(0), 0, 1, RED);
    cmd.apply(&mut sprite, &mut cels).expect("apply ok");
    // Top-left triangle (above diagonal) is red.
    for y in 1..8u32 {
        for x in 0..y {
            assert_eq!(pixel(&cels, x, y), RED);
        }
    }
    // The diagonal stays blue.
    for i in 0..8u32 {
        assert_eq!(pixel(&cels, i, i), BLUE);
    }
    // Bottom-right triangle (below diagonal) is untouched.
    for y in 0..7u32 {
        for x in (y + 1)..8u32 {
            assert_eq!(pixel(&cels, x, y), Rgba::transparent());
        }
    }
}

#[test]
fn fill_with_same_color_is_a_noop() {
    let (mut sprite, mut cels) = fixture();
    // Pre-fill with RED, then fill again with RED — no pixels should
    // be recorded as modified.
    for y in 0..8u32 {
        for x in 0..8u32 {
            write_pixel(&mut cels, x, y, RED);
        }
    }
    let mut cmd = FillRegion::new(LayerId::new(1), FrameIndex::new(0), 0, 0, RED);
    cmd.apply(&mut sprite, &mut cels).expect("apply ok");
    assert_eq!(cmd.filled_count(), 0);
    // Revert is also a no-op; pixels stay red.
    cmd.revert(&mut sprite, &mut cels);
    for y in 0..8u32 {
        for x in 0..8u32 {
            assert_eq!(pixel(&cels, x, y), RED);
        }
    }
}

#[test]
fn revert_restores_every_filled_pixel() {
    let (mut sprite, mut cels) = fixture();
    // Pre-paint a single pixel BLUE; everything else is transparent.
    write_pixel(&mut cels, 3, 3, BLUE);
    let mut cmd = FillRegion::new(LayerId::new(1), FrameIndex::new(0), 0, 0, RED);
    cmd.apply(&mut sprite, &mut cels).expect("apply ok");
    cmd.revert(&mut sprite, &mut cels);
    // Back to the pre-apply state: BLUE at (3, 3), transparent elsewhere.
    for y in 0..8u32 {
        for x in 0..8u32 {
            let expected = if (x, y) == (3, 3) {
                BLUE
            } else {
                Rgba::transparent()
            };
            assert_eq!(pixel(&cels, x, y), expected);
        }
    }
}

#[test]
fn seed_outside_cel_is_a_noop() {
    let (mut sprite, mut cels) = fixture();
    let mut cmd = FillRegion::new(LayerId::new(1), FrameIndex::new(0), 100, 100, RED);
    cmd.apply(&mut sprite, &mut cels).expect("apply ok");
    for y in 0..8u32 {
        for x in 0..8u32 {
            assert_eq!(pixel(&cels, x, y), Rgba::transparent());
        }
    }
    assert_eq!(cmd.filled_count(), 0);
}

#[test]
fn seed_with_negative_local_coord_is_a_noop() {
    let (mut sprite, mut cels) = fixture();
    // Offset the cel so sprite (0, 0) → local (-2, -2).
    cels.get_mut(LayerId::new(1), FrameIndex::new(0))
        .unwrap()
        .position = (2, 2);
    let mut cmd = FillRegion::new(LayerId::new(1), FrameIndex::new(0), 0, 0, RED);
    cmd.apply(&mut sprite, &mut cels).expect("apply ok");
    for y in 0..8u32 {
        for x in 0..8u32 {
            assert_eq!(pixel(&cels, x, y), Rgba::transparent());
        }
    }
}

#[test]
fn seed_uses_cel_local_coords_for_offset_cels() {
    let (mut sprite, mut cels) = fixture();
    cels.get_mut(LayerId::new(1), FrameIndex::new(0))
        .unwrap()
        .position = (4, 4);
    // Sprite (5, 5) → local (1, 1); fills the whole 8×8 buffer.
    let mut cmd = FillRegion::new(LayerId::new(1), FrameIndex::new(0), 5, 5, RED);
    cmd.apply(&mut sprite, &mut cels).expect("apply ok");
    assert_eq!(cmd.filled_count(), 64);
}

#[test]
fn fill_region_missing_cel_yields_error() {
    let (mut sprite, mut cels) = fixture();
    let mut cmd = FillRegion::new(LayerId::new(99), FrameIndex::new(0), 0, 0, RED);
    let err = cmd.apply(&mut sprite, &mut cels).unwrap_err();
    assert_eq!(
        err,
        CommandError::MissingCel {
            layer: LayerId::new(99),
            frame: FrameIndex::new(0),
        }
    );
}

#[test]
fn fill_into_enclosed_region_does_not_leak() {
    // Build a 6×6 RED frame inside an 8×8 transparent cel, then fill
    // from inside (4, 4): only the interior 4×4 region should turn
    // BLUE, the RED frame stays RED, and the outside transparent rim
    // is untouched.
    let (mut sprite, mut cels) = fixture();
    for x in 1..=6u32 {
        write_pixel(&mut cels, x, 1, RED);
        write_pixel(&mut cels, x, 6, RED);
    }
    for y in 2..=5u32 {
        write_pixel(&mut cels, 1, y, RED);
        write_pixel(&mut cels, 6, y, RED);
    }
    let mut cmd = FillRegion::new(LayerId::new(1), FrameIndex::new(0), 4, 4, BLUE);
    cmd.apply(&mut sprite, &mut cels).expect("apply ok");
    // Outer rim: transparent.
    for x in 0..8u32 {
        assert_eq!(pixel(&cels, x, 0), Rgba::transparent());
        assert_eq!(pixel(&cels, x, 7), Rgba::transparent());
    }
    for y in 0..8u32 {
        assert_eq!(pixel(&cels, 0, y), Rgba::transparent());
        assert_eq!(pixel(&cels, 7, y), Rgba::transparent());
    }
    // RED frame: still RED.
    for x in 1..=6u32 {
        assert_eq!(pixel(&cels, x, 1), RED);
        assert_eq!(pixel(&cels, x, 6), RED);
    }
    for y in 2..=5u32 {
        assert_eq!(pixel(&cels, 1, y), RED);
        assert_eq!(pixel(&cels, 6, y), RED);
    }
    // Interior 4×4: filled BLUE.
    for y in 2..=5u32 {
        for x in 2..=5u32 {
            assert_eq!(pixel(&cels, x, y), BLUE);
        }
    }
    assert_eq!(cmd.filled_count(), 16);
}

#[test]
fn does_not_merge_with_another_fill_region() {
    let mut a = FillRegion::new(LayerId::new(1), FrameIndex::new(0), 0, 0, RED);
    let b = FillRegion::new(LayerId::new(1), FrameIndex::new(0), 1, 1, BLUE);
    assert!(!a.merge(&b));
}

#[test]
fn revert_clears_the_record_and_a_second_revert_does_nothing() {
    let (mut sprite, mut cels) = fixture();
    write_pixel(&mut cels, 3, 3, BLUE);
    let mut cmd = FillRegion::new(LayerId::new(1), FrameIndex::new(0), 0, 0, RED);
    cmd.apply(&mut sprite, &mut cels).expect("apply ok");
    assert_eq!(cmd.filled_count(), 63);
    cmd.revert(&mut sprite, &mut cels);
    assert_eq!(cmd.filled_count(), 0);
    write_pixel(&mut cels, 0, 0, RED);
    cmd.revert(&mut sprite, &mut cels);
    assert_eq!(pixel(&cels, 0, 0), RED);
}
