#![allow(unused_imports, dead_code)]
use pincel_core::{AddFrame, AddLayer, AddSlice, AddTile, AddTilemapLayer, AddTileset, Anchor, AnyCommand, Bus, ClearRegion, Command, CommandError, DirtyRegion, DrawEllipse, DrawLine, DrawRectangle, DuplicateLayer, FillRegion, Interpolation, MoveDirection, MoveLayer, MoveSelectionContent, Orientation, PlaceTile, ReframeCanvas, RemoveLayer, RemoveSlice, ReplaceCelPixels, SetFrameDuration, SetLayerBlendMode, SetLayerName, SetLayerOpacity, SetLayerVisible, SetPixel, SetSliceKey, SetTilePixel, ShapeMode, ShapeStyle, TextAlign, TransformCanvas, TransformCel, BlendMode, Cel, CelData, CelKey, CelMap, ColorMode, Frame, FrameIndex, Layer, LayerId, LayerKind, Metadata, Palette, PaletteEntry, PathRef, PixelBuffer, Rgba, Slice, SliceId, SliceKey, Sprite, SpriteBuilder, Tag, TagDirection, TileImage, TileRef, Tileset, TilesetId, Point, Rect, DocumentError};
use pincel_core::command::set_pixel::PixelWrite;





fn fixture() -> (Sprite, CelMap) {
    let sprite = Sprite::builder(8, 8)
        .add_layer(pincel_core::document::Layer::image(LayerId::new(1), "bg"))
        .add_frame(pincel_core::document::Frame::new(100))
        .build()
        .expect("sprite builds");
    let mut cels = CelMap::new();
    cels.insert(Cel::image(
        LayerId::new(1),
        FrameIndex::new(0),
        PixelBuffer::empty(8, 8, ColorMode::Rgba),
    ));
    (sprite, cels)
}

fn pixel(cels: &CelMap, x: u32, y: u32) -> Rgba {
    let cel = cels
        .get(LayerId::new(1), FrameIndex::new(0))
        .expect("cel exists");
    let CelData::Image(buf) = &cel.data else {
        panic!("expected image cel");
    };
    let off = ((y * buf.width + x) * 4) as usize;
    Rgba {
        r: buf.data[off],
        g: buf.data[off + 1],
        b: buf.data[off + 2],
        a: buf.data[off + 3],
    }
}

fn px(x: i32, y: i32, color: Rgba) -> SetPixel {
    SetPixel::new(LayerId::new(1), FrameIndex::new(0), x, y, color)
}

#[test]
fn set_pixel_apply_writes_pixel_and_records_previous() {
    let (mut sprite, mut cels) = fixture();
    let mut cmd = px(2, 3, Rgba::white());
    cmd.apply(&mut sprite, &mut cels).expect("apply succeeds");
    assert_eq!(pixel(&cels, 2, 3), Rgba::white());
    assert_eq!(cmd.writes[0].previous, Some(Rgba::transparent()));
}

#[test]
fn set_pixel_revert_restores_previous_pixel() {
    let (mut sprite, mut cels) = fixture();
    let mut cmd = px(4, 4, Rgba::white());
    cmd.apply(&mut sprite, &mut cels).expect("apply succeeds");
    cmd.revert(&mut sprite, &mut cels);
    assert_eq!(pixel(&cels, 4, 4), Rgba::transparent());
}

#[test]
fn apply_then_revert_then_apply_round_trip() {
    let (mut sprite, mut cels) = fixture();
    let mut cmd = px(0, 0, Rgba::white());
    cmd.apply(&mut sprite, &mut cels).expect("apply 1");
    cmd.revert(&mut sprite, &mut cels);
    cmd.apply(&mut sprite, &mut cels).expect("apply 2");
    assert_eq!(pixel(&cels, 0, 0), Rgba::white());
}

#[test]
fn set_pixel_missing_cel_yields_error() {
    let (mut sprite, mut cels) = fixture();
    let mut cmd = SetPixel::new(LayerId::new(99), FrameIndex::new(0), 0, 0, Rgba::white());
    let err = cmd.apply(&mut sprite, &mut cels).unwrap_err();
    assert_eq!(
        err,
        CommandError::MissingCel {
            layer: LayerId::new(99),
            frame: FrameIndex::new(0),
        }
    );
}

#[test]
fn set_pixel_out_of_bounds_pixel_yields_error() {
    let (mut sprite, mut cels) = fixture();
    let mut cmd = px(100, 100, Rgba::white());
    let err = cmd.apply(&mut sprite, &mut cels).unwrap_err();
    assert!(matches!(err, CommandError::PixelOutOfBounds { .. }));
}

#[test]
fn coords_outside_cel_position_are_rejected() {
    let (mut sprite, mut cels) = fixture();
    // Place cel offset to (4, 4); painting (3, 3) on sprite is outside the cel.
    cels.get_mut(LayerId::new(1), FrameIndex::new(0))
        .unwrap()
        .position = (4, 4);
    let mut cmd = px(3, 3, Rgba::white());
    let err = cmd.apply(&mut sprite, &mut cels).unwrap_err();
    assert!(matches!(err, CommandError::PixelOutOfBounds { .. }));
}

#[test]
fn merge_same_layer_frame_absorbs_pixels() {
    let (mut sprite, mut cels) = fixture();
    let mut a = px(0, 0, Rgba::white());
    a.apply(&mut sprite, &mut cels).expect("apply a");
    let mut b = px(1, 0, Rgba::white());
    b.apply(&mut sprite, &mut cels).expect("apply b");
    assert!(a.merge(&b));
    assert_eq!(a.writes.len(), 2);
}

#[test]
fn merge_rejects_different_layer_or_frame() {
    let mut a = px(0, 0, Rgba::white());
    let other_layer = SetPixel::new(LayerId::new(2), FrameIndex::new(0), 1, 0, Rgba::white());
    assert!(!a.merge(&other_layer));
    let other_frame = SetPixel::new(LayerId::new(1), FrameIndex::new(1), 1, 0, Rgba::white());
    assert!(!a.merge(&other_frame));
}

#[test]
fn revert_of_merged_stroke_restores_all_pixels() {
    let (mut sprite, mut cels) = fixture();
    let mut stroke = px(0, 0, Rgba::white());
    stroke.apply(&mut sprite, &mut cels).expect("apply 0");
    for x in 1..4 {
        let mut next = px(x, 0, Rgba::white());
        next.apply(&mut sprite, &mut cels).expect("apply next");
        assert!(stroke.merge(&next));
    }
    stroke.revert(&mut sprite, &mut cels);
    for x in 0..4 {
        assert_eq!(pixel(&cels, x, 0), Rgba::transparent(), "x={x}");
    }
}

#[test]
fn revert_restores_twice_painted_pixel_to_original() {
    let (mut sprite, mut cels) = fixture();
    // Same pixel painted white then red within one stroke; revert must
    // restore the pre-stroke transparent, not the intermediate white.
    let mut stroke = px(1, 1, Rgba::white());
    stroke.apply(&mut sprite, &mut cels).expect("apply white");
    let red = Rgba::new(255, 0, 0, 255);
    let mut second = px(1, 1, red);
    second.apply(&mut sprite, &mut cels).expect("apply red");
    assert!(stroke.merge(&second));
    assert_eq!(pixel(&cels, 1, 1), red);
    stroke.revert(&mut sprite, &mut cels);
    assert_eq!(pixel(&cels, 1, 1), Rgba::transparent());
}

#[test]
fn apply_of_merged_command_supports_redo() {
    let (mut sprite, mut cels) = fixture();
    let mut stroke = px(0, 0, Rgba::white());
    stroke.apply(&mut sprite, &mut cels).expect("apply 0");
    let mut next = px(3, 2, Rgba::white());
    next.apply(&mut sprite, &mut cels).expect("apply next");
    assert!(stroke.merge(&next));
    stroke.revert(&mut sprite, &mut cels);
    stroke.apply(&mut sprite, &mut cels).expect("re-apply");
    assert_eq!(pixel(&cels, 0, 0), Rgba::white());
    assert_eq!(pixel(&cels, 3, 2), Rgba::white());
}

#[test]
fn failed_apply_rolls_back_earlier_writes() {
    let (mut sprite, mut cels) = fixture();
    let mut stroke = px(0, 0, Rgba::white());
    stroke.apply(&mut sprite, &mut cels).expect("apply 0");
    stroke.revert(&mut sprite, &mut cels);
    // Sneak an out-of-bounds write into the batch, then re-apply.
    stroke.writes.push(PixelWrite {
        sprite_x: 100,
        sprite_y: 100,
        new_color: Rgba::white(),
        previous: None,
    });
    let err = stroke.apply(&mut sprite, &mut cels).unwrap_err();
    assert!(matches!(err, CommandError::PixelOutOfBounds { .. }));
    assert_eq!(
        pixel(&cels, 0, 0),
        Rgba::transparent(),
        "first write rolled back"
    );
}

#[test]
fn dirty_region_of_merged_stroke_is_bbox_union() {
    let (mut sprite, mut cels) = fixture();
    let mut stroke = px(2, 3, Rgba::white());
    stroke.apply(&mut sprite, &mut cels).expect("apply 0");
    let mut next = px(5, 1, Rgba::white());
    next.apply(&mut sprite, &mut cels).expect("apply next");
    assert!(stroke.merge(&next));
    assert_eq!(
        stroke.dirty_region(),
        DirtyRegion::layer_rect(LayerId::new(1), FrameIndex::new(0), Rect::new(2, 1, 4, 3),)
    );
}

#[test]
fn set_pixel_reports_no_change_before_apply_and_its_box_after_revert() {
    let (mut sprite, mut cels) = fixture();
    let mut cmd = px(2, 3, Rgba::white());
    assert!(cmd.dirty_region().is_none());
    cmd.apply(&mut sprite, &mut cels).expect("apply succeeds");
    let applied = cmd.dirty_region();
    assert_eq!(
        applied,
        DirtyRegion::layer_rect(LayerId::new(1), FrameIndex::new(0), Rect::new(2, 3, 1, 1))
    );
    cmd.revert(&mut sprite, &mut cels);
    assert_eq!(cmd.dirty_region(), applied);
}

#[test]
fn set_pixel_failed_apply_still_reports_no_change() {
    let (mut sprite, mut cels) = fixture();
    let mut cmd = px(20, 3, Rgba::white());
    assert!(cmd.apply(&mut sprite, &mut cels).is_err());
    assert!(cmd.dirty_region().is_none());
}
