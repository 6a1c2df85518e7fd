#![allow(unused_imports, dead_code)]
use pincel_core::{AddFrame, AddLayer, AddSlice, AddTile, AddTilemapLayer, AddTileset, Anchor, AnyCommand, Bus, ClearRegion, Command, CommandError, DirtyRegion, DrawEllipse, DrawLine, DrawRectangle, DuplicateLayer, FillRegion, Interpolation, MoveDirection, MoveLayer, MoveSelectionContent, Orientation, PlaceTile, ReframeCanvas, RemoveLayer, RemoveSlice, ReplaceCelPixels, SetFrameDuration, SetLayerBlendMode, SetLayerName, SetLayerOpacity, SetLayerVisible, SetPixel, SetSliceKey, SetTilePixel, ShapeMode, ShapeStyle, TextAlign, TransformCanvas, TransformCel, BlendMode, Cel, CelData, CelKey, CelMap, ColorMode, Frame, FrameIndex, Layer, LayerId, LayerKind, Metadata, Palette, PaletteEntry, PathRef, PixelBuffer, Rgba, Slice, SliceId, SliceKey, Sprite, SpriteBuilder, Tag, TagDirection, TileImage, TileRef, Tileset, TilesetId, Point, Rect, DocumentError};
use pincel_core::command::move_selection_content::read_pixel;




const RED: Rgba = Rgba {
    r: 255,
    g: 0,
    b: 0,
    a: 255,
};

fn doc_with_filled_cel() -> (Sprite, CelMap) {
    let sprite = Sprite::builder(4, 4)
        .add_layer(Layer::image(LayerId::new(0), "bg"))
        .add_frame(Frame::new(100))
        .build()
        .expect("sprite builds");
    let mut buffer = PixelBuffer::empty(4, 4, ColorMode::Rgba);
    for i in 0..(4 * 4) {
        let off = i * 4;
        buffer.data[off] = 255;
        buffer.data[off + 3] = 255; // opaque red
    }
    let mut cels = CelMap::new();
    cels.insert(Cel::image(LayerId::new(0), FrameIndex::new(0), buffer));
    (sprite, cels)
}

#[test]
fn clear_sets_region_transparent_and_revert_restores() {
    let (mut s, mut c) = doc_with_filled_cel();
    // Clear the top-left 2x2.
    let mut cmd = ClearRegion::new(LayerId::new(0), FrameIndex::new(0), Rect::new(0, 0, 2, 2));
    cmd.apply(&mut s, &mut c).expect("apply");
    assert_eq!(cmd.cleared_count(), 4);
    let cel = c.get(LayerId::new(0), FrameIndex::new(0)).unwrap();
    let CelData::Image(buf) = &cel.data else {
        panic!("image")
    };
    assert_eq!(read_pixel(buf, 0, 0), Rgba::transparent());
    assert_eq!(read_pixel(buf, 1, 1), Rgba::transparent());
    assert_eq!(read_pixel(buf, 2, 2), RED, "outside the rect untouched");
    cmd.revert(&mut s, &mut c);
    let cel = c.get(LayerId::new(0), FrameIndex::new(0)).unwrap();
    let CelData::Image(buf) = &cel.data else {
        panic!("image")
    };
    assert_eq!(read_pixel(buf, 0, 0), RED, "revert restores");
}

#[test]
fn clear_with_no_cel_is_a_noop() {
    let sprite = Sprite::builder(4, 4)
        .add_layer(Layer::image(LayerId::new(0), "bg"))
        .add_frame(Frame::new(100))
        .build()
        .expect("builds");
    let mut cels = CelMap::new();
    let mut cmd = ClearRegion::new(LayerId::new(0), FrameIndex::new(0), Rect::new(0, 0, 2, 2));
    cmd.apply(&mut sprite.clone(), &mut cels).expect("no-op ok");
    assert_eq!(cmd.cleared_count(), 0);
}

#[test]
fn clear_off_cel_rect_clears_nothing() {
    let (mut s, mut c) = doc_with_filled_cel();
    let mut cmd =
        ClearRegion::new(LayerId::new(0), FrameIndex::new(0), Rect::new(10, 10, 2, 2));
    cmd.apply(&mut s, &mut c).expect("apply");
    assert_eq!(cmd.cleared_count(), 0);
}
