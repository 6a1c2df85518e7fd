#![allow(unused_imports, dead_code)]
use pincel_core::{AddFrame, AddLayer, AddSlice, AddTile, AddTilemapLayer, AddTileset, Anchor, AnyCommand, Bus, ClearRegion, Command, CommandError, DirtyRegion, DrawEllipse, DrawLine, DrawRectangle, DuplicateLayer, FillRegion, Interpolation, MoveDirection, MoveLayer, MoveSelectionContent, Orientation, PlaceTile, ReframeCanvas, RemoveLayer, RemoveSlice, ReplaceCelPixels, SetFrameDuration, SetLayerBlendMode, SetLayerName, SetLayerOpacity, SetLayerVisible, SetPixel, SetSliceKey, SetTilePixel, ShapeMode, ShapeStyle, TextAlign, TransformCanvas, TransformCel, BlendMode, Cel, CelData, CelKey, CelMap, ColorMode, Frame, FrameIndex, Layer, LayerId, LayerKind, Metadata, Palette, PaletteEntry, PathRef, PixelBuffer, Rgba, Slice, SliceId, SliceKey, Sprite, SpriteBuilder, Tag, TagDirection, TileImage, TileRef, Tileset, TilesetId, Point, Rect, DocumentError};
use pincel_core::command::move_selection_content::{read_pixel, write_pixel};




const RED: Rgba = Rgba {
    r: 255,
    g: 0,
    b: 0,
    a: 255,
};
const BLUE: Rgba = Rgba {
    r: 0,
    g: 0,
    b: 255,
    a: 255,
};

fn fixture() -> (Sprite, CelMap) {
    let sprite = Sprite::builder(8, 8)
        .add_layer(Layer::image(LayerId::new(1), "bg"))
        .add_frame(Frame::new(100))
        .build()
        .expect("sprite builds");
    let mut cels = CelMap::new();
    cels.insert(Cel::image(
        LayerId::new(1),
        FrameIndex::new(0),
        PixelBuffer::empty(8, 8, ColorMode::Rgba),
    ));
    (sprite, cels)
}

fn pixel(cels: &CelMap, x: u32, y: u32) -> Rgba {
    let cel = cels
        .get(LayerId::new(1), FrameIndex::new(0))
        .expect("cel exists");
    let CelData::Image(buf) = &cel.data else {
        panic!("expected image cel");
    };
    read_pixel(buf, x, y)
}

fn write(cels: &mut CelMap, x: u32, y: u32, color: Rgba) {
    let cel = cels
        .get_mut(LayerId::new(1), FrameIndex::new(0))
        .expect("cel exists");
    let CelData::Image(buf) = &mut cel.data else {
        panic!("expected image cel");
    };
    write_pixel(buf, x, y, color);
}

#[test]
fn move_translates_pixels_and_selection() {
    let (mut sprite, mut cels) = fixture();
    // Paint a 2×2 RED square at (1, 1).
    write(&mut cels, 1, 1, RED);
    write(&mut cels, 2, 1, RED);
    write(&mut cels, 1, 2, RED);
    write(&mut cels, 2, 2, RED);
    sprite.set_selection(Rect::new(1, 1, 2, 2));
    let mut cmd = MoveSelectionContent::new(LayerId::new(1), FrameIndex::new(0), 3, 2);
    cmd.apply(&mut sprite, &mut cels).expect("apply ok");
    // Source cleared.
    assert_eq!(pixel(&cels, 1, 1), Rgba::transparent());
    assert_eq!(pixel(&cels, 2, 1), Rgba::transparent());
    assert_eq!(pixel(&cels, 1, 2), Rgba::transparent());
    assert_eq!(pixel(&cels, 2, 2), Rgba::transparent());
    // Destination painted.
    assert_eq!(pixel(&cels, 4, 3), RED);
    assert_eq!(pixel(&cels, 5, 3), RED);
    assert_eq!(pixel(&cels, 4, 4), RED);
    assert_eq!(pixel(&cels, 5, 4), RED);
    // Selection translated.
    assert_eq!(sprite.selection, Some(Rect::new(4, 3, 2, 2)));
    assert_eq!(cmd.moved_count(), 4);
}

#[test]
fn move_with_overlapping_source_and_destination() {
    let (mut sprite, mut cels) = fixture();
    // 3×1 stripe at row 4: RED RED BLUE at (1, 4) (2, 4) (3, 4).
    write(&mut cels, 1, 4, RED);
    write(&mut cels, 2, 4, RED);
    write(&mut cels, 3, 4, BLUE);
    // Select (1, 4)..(2, 4), move +1 to the right; destination
    // overlaps with the source (column 2).
    sprite.set_selection(Rect::new(1, 4, 2, 1));
    let mut cmd = MoveSelectionContent::new(LayerId::new(1), FrameIndex::new(0), 1, 0);
    cmd.apply(&mut sprite, &mut cels).expect("apply ok");
    // (1, 4) cleared (source-only).
    assert_eq!(pixel(&cels, 1, 4), Rgba::transparent());
    // (2, 4) overlap: cleared then overwritten with RED from src(1,4).
    assert_eq!(pixel(&cels, 2, 4), RED);
    // (3, 4) destination-only: overwritten with RED from src(2,4).
    assert_eq!(pixel(&cels, 3, 4), RED);
}

#[test]
fn revert_restores_source_destination_and_selection() {
    let (mut sprite, mut cels) = fixture();
    // Paint mixed src + dst: RED at (1,1)(2,1), BLUE at (4,1)(5,1).
    write(&mut cels, 1, 1, RED);
    write(&mut cels, 2, 1, RED);
    write(&mut cels, 4, 1, BLUE);
    write(&mut cels, 5, 1, BLUE);
    sprite.set_selection(Rect::new(1, 1, 2, 1));
    let mut cmd = MoveSelectionContent::new(LayerId::new(1), FrameIndex::new(0), 3, 0);
    cmd.apply(&mut sprite, &mut cels).expect("apply ok");
    cmd.revert(&mut sprite, &mut cels);
    // Source restored.
    assert_eq!(pixel(&cels, 1, 1), RED);
    assert_eq!(pixel(&cels, 2, 1), RED);
    // Destination restored.
    assert_eq!(pixel(&cels, 4, 1), BLUE);
    assert_eq!(pixel(&cels, 5, 1), BLUE);
    // Selection restored.
    assert_eq!(sprite.selection, Some(Rect::new(1, 1, 2, 1)));
}

#[test]
fn revert_with_overlapping_rects_restores_originals() {
    let (mut sprite, mut cels) = fixture();
    write(&mut cels, 1, 4, RED);
    write(&mut cels, 2, 4, RED);
    write(&mut cels, 3, 4, BLUE);
    sprite.set_selection(Rect::new(1, 4, 2, 1));
    let mut cmd = MoveSelectionContent::new(LayerId::new(1), FrameIndex::new(0), 1, 0);
    cmd.apply(&mut sprite, &mut cels).expect("apply ok");
    cmd.revert(&mut sprite, &mut cels);
    assert_eq!(pixel(&cels, 1, 4), RED);
    assert_eq!(pixel(&cels, 2, 4), RED);
    assert_eq!(pixel(&cels, 3, 4), BLUE);
    assert_eq!(sprite.selection, Some(Rect::new(1, 4, 2, 1)));
}

#[test]
fn move_with_no_selection_errors() {
    let (mut sprite, mut cels) = fixture();
    let mut cmd = MoveSelectionContent::new(LayerId::new(1), FrameIndex::new(0), 1, 0);
    let err = cmd.apply(&mut sprite, &mut cels).unwrap_err();
    assert_eq!(err, CommandError::NoSelection);
}

#[test]
fn destination_outside_cel_drops_pixels() {
    let (mut sprite, mut cels) = fixture();
    // Paint a RED pixel at (0, 0) and select it; move (-1, 0) so
    // the destination is off-cel. The source is still cleared,
    // but the destination pixel is silently dropped (the cel does
    // not grow).
    write(&mut cels, 0, 0, RED);
    sprite.set_selection(Rect::new(0, 0, 1, 1));
    let mut cmd = MoveSelectionContent::new(LayerId::new(1), FrameIndex::new(0), -1, 0);
    cmd.apply(&mut sprite, &mut cels).expect("apply ok");
    assert_eq!(pixel(&cels, 0, 0), Rgba::transparent());
    // Revert restores the source even though the destination was
    // off-cel and never recorded an overwritten pixel.
    cmd.revert(&mut sprite, &mut cels);
    assert_eq!(pixel(&cels, 0, 0), RED);
}

#[test]
fn selection_outside_cel_apply_is_a_noop_but_translates_selection() {
    let (mut sprite, mut cels) = fixture();
    sprite.set_selection(Rect::new(100, 100, 2, 2));
    let mut cmd = MoveSelectionContent::new(LayerId::new(1), FrameIndex::new(0), 1, 1);
    cmd.apply(&mut sprite, &mut cels).expect("apply ok");
    assert_eq!(cmd.moved_count(), 0);
    // Selection still translates even when no pixels move — the
    // marquee rides along with the (empty) drag.
    assert_eq!(sprite.selection, Some(Rect::new(101, 101, 2, 2)));
}

#[test]
fn zero_delta_apply_then_revert_is_identity() {
    let (mut sprite, mut cels) = fixture();
    write(&mut cels, 2, 2, RED);
    sprite.set_selection(Rect::new(2, 2, 1, 1));
    let mut cmd = MoveSelectionContent::new(LayerId::new(1), FrameIndex::new(0), 0, 0);
    cmd.apply(&mut sprite, &mut cels).expect("apply ok");
    assert_eq!(pixel(&cels, 2, 2), RED);
    cmd.revert(&mut sprite, &mut cels);
    assert_eq!(pixel(&cels, 2, 2), RED);
    assert_eq!(sprite.selection, Some(Rect::new(2, 2, 1, 1)));
}

#[test]
fn missing_cel_errors() {
    let (mut sprite, mut cels) = fixture();
    sprite.set_selection(Rect::new(0, 0, 2, 2));
    let mut cmd = MoveSelectionContent::new(LayerId::new(99), FrameIndex::new(0), 1, 0);
    let err = cmd.apply(&mut sprite, &mut cels).unwrap_err();
    assert_eq!(
        err,
        CommandError::MissingCel {
            layer: LayerId::new(99),
            frame: FrameIndex::new(0),
        }
    );
}

#[test]
fn does_not_merge_with_another_move() {
    let mut a = MoveSelectionContent::new(LayerId::new(1), FrameIndex::new(0), 1, 0);
    let b = MoveSelectionContent::new(LayerId::new(1), FrameIndex::new(0), 1, 0);
    assert!(!a.merge(&b));
}

#[test]
fn moved_count_is_the_selected_cel_area_and_revert_resets_it() {
    let (mut sprite, mut cels) = fixture();
    // The selection hangs over the cel's right edge: 2 of its 4 columns lie
    // on the cel, and pixels moved right fall off.
    sprite.set_selection(Rect::new(6, 0, 4, 3));
    let mut cmd = MoveSelectionContent::new(LayerId::new(1), FrameIndex::new(0), 5, 0);
    assert_eq!(cmd.moved_count(), 0);
    cmd.apply(&mut sprite, &mut cels).expect("apply ok");
    assert_eq!(cmd.moved_count(), 6);
    cmd.revert(&mut sprite, &mut cels);
    assert_eq!(cmd.moved_count(), 0);
}

#[test]
fn failed_move_records_nothing() {
    let (mut sprite, mut cels) = fixture();
    let mut cmd = MoveSelectionContent::new(LayerId::new(1), FrameIndex::new(0), 1, 1);
    assert!(matches!(cmd.apply(&mut sprite, &mut cels), Err(CommandError::NoSelection)));
    assert_eq!(cmd.moved_count(), 0);
}
