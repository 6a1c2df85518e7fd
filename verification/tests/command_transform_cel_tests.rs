#![allow(unused_imports, dead_code)]
use pincel_core::{AddFrame, AddLayer, AddSlice, AddTile, AddTilemapLayer, AddTileset, Anchor, AnyCommand, Bus, ClearRegion, Command, CommandError, DirtyRegion, DrawEllipse, DrawLine, DrawRectangle, DuplicateLayer, FillRegion, Interpolation, MoveDirection, MoveLayer, MoveSelectionContent, Orientation, PlaceTile, ReframeCanvas, RemoveLayer, RemoveSlice, ReplaceCelPixels, SetFrameDuration, SetLayerBlendMode, SetLayerName, SetLayerOpacity, SetLayerVisible, SetPixel, SetSliceKey, SetTilePixel, ShapeMode, ShapeStyle, TextAlign, TransformCanvas, TransformCel, BlendMode, Cel, CelData, CelKey, CelMap, ColorMode, Frame, FrameIndex, Layer, LayerId, LayerKind, Metadata, Palette, PaletteEntry, PathRef, PixelBuffer, Rgba, Slice, SliceId, SliceKey, Sprite, SpriteBuilder, Tag, TagDirection, TileImage, TileRef, Tileset, TilesetId, Point, Rect, DocumentError};





const L: LayerId = LayerId(0);
const F: FrameIndex = FrameIndex(0);

fn doc(w: u32, h: u32, px: &[u8]) -> (Sprite, CelMap) {
    let sprite = Sprite::builder(w, h)
        .add_layer(Layer::image(L, "a"))
        .add_frame(Frame::new(100))
        .build()
        .unwrap();
    let mut cels = CelMap::new();
    let mut buf = PixelBuffer::empty(w, h, ColorMode::Rgba);
    buf.data = px.to_vec();
    cels.insert(Cel::image(L, F, buf));
    (sprite, cels)
}

fn data(cels: &CelMap) -> Vec<u8> {
    match &cels.get(L, F).unwrap().data {
        CelData::Image(b) => b.data.clone(),
        _ => unreachable!(),
    }
}

#[test]
fn flip_horizontal_mirrors_and_undo_restores() {
    let (mut s, mut c) = doc(2, 1, &[1, 1, 1, 255, 2, 2, 2, 255]);
    let before = data(&c);
    let mut bus = Bus::new();
    bus.execute(
        TransformCel::new(L, F, Orientation::FlipHorizontal).into(),
        &mut s,
        &mut c,
    )
    .unwrap();
    assert_eq!(data(&c), vec![2, 2, 2, 255, 1, 1, 1, 255]);
    assert!(bus.undo(&mut s, &mut c));
    assert_eq!(data(&c), before);
}

#[test]
fn within_rect_leaves_outside_pixels_alone() {
    let (mut s, mut c) = doc(3, 1, &[1, 1, 1, 255, 2, 2, 2, 255, 3, 3, 3, 255]);
    let mut cmd =
        TransformCel::new(L, F, Orientation::FlipHorizontal).within(Rect::new(1, 0, 2, 1));
    cmd.apply(&mut s, &mut c).unwrap();
    assert_eq!(data(&c), vec![1, 1, 1, 255, 3, 3, 3, 255, 2, 2, 2, 255]);
    assert_eq!(
        cmd.dirty_region(),
        DirtyRegion::layer_rect(L, F, Rect::new(1, 0, 2, 1))
    );
}

#[test]
fn trimmed_cel_is_normalised_to_canvas_size() {
    let (mut s, mut c) = doc(4, 4, &[0; 64]);
    let mut small = PixelBuffer::empty(1, 1, ColorMode::Rgba);
    small.data = vec![9, 9, 9, 255];
    let mut cel = Cel::image(L, F, small);
    cel.position = (3, 0);
    c.insert(cel);
    let mut cmd = TransformCel::new(L, F, Orientation::FlipHorizontal);
    cmd.apply(&mut s, &mut c).unwrap();
    let out = c.get(L, F).unwrap();
    assert_eq!(out.position, (0, 0));
    let d = data(&c);
    assert_eq!(d.len(), 64);
    assert_eq!(&d[0..4], &[9, 9, 9, 255], "pixel moved to the left edge");
    cmd.revert(&mut s, &mut c);
    assert_eq!(c.get(L, F).unwrap().position, (3, 0));
}

#[test]
fn missing_cel_and_empty_region_error() {
    let (mut s, mut c) = doc(2, 2, &[0; 16]);
    assert!(matches!(
        TransformCel::new(LayerId::new(4), F, Orientation::Rotate180).apply(&mut s, &mut c),
        Err(CommandError::MissingCel { .. })
    ));
    assert_eq!(
        TransformCel::new(L, F, Orientation::Rotate180)
            .within(Rect::new(10, 10, 2, 2))
            .apply(&mut s, &mut c),
        Err(CommandError::EmptyRegion)
    );
}
