#![allow(unused_imports, dead_code)]
use pincel_core::{AddFrame, AddLayer, AddSlice, AddTile, AddTilemapLayer, AddTileset, Anchor, AnyCommand, Bus, ClearRegion, Command, CommandError, DirtyRegion, DrawEllipse, DrawLine, DrawRectangle, DuplicateLayer, FillRegion, Interpolation, MoveDirection, MoveLayer, MoveSelectionContent, Orientation, PlaceTile, ReframeCanvas, RemoveLayer, RemoveSlice, ReplaceCelPixels, SetFrameDuration, SetLayerBlendMode, SetLayerName, SetLayerOpacity, SetLayerVisible, SetPixel, SetSliceKey, SetTilePixel, ShapeMode, ShapeStyle, TextAlign, TransformCanvas, TransformCel, BlendMode, Cel, CelData, CelKey, CelMap, ColorMode, Frame, FrameIndex, Layer, LayerId, LayerKind, Metadata, Palette, PaletteEntry, PathRef, PixelBuffer, Rgba, Slice, SliceId, SliceKey, Sprite, SpriteBuilder, Tag, TagDirection, TileImage, TileRef, Tileset, TilesetId, Point, Rect, DocumentError};





const L: LayerId = LayerId(0);
const F: FrameIndex = FrameIndex(0);

fn doc() -> (Sprite, CelMap) {
    let sprite = Sprite::builder(2, 2)
        .add_layer(Layer::image(L, "a"))
        .add_frame(Frame::new(100))
        .build()
        .unwrap();
    let mut cels = CelMap::new();
    let mut buf = PixelBuffer::empty(2, 2, ColorMode::Rgba);
    buf.data = (1u8..=4).flat_map(|v| [v, v, v, 255]).collect();
    cels.insert(Cel::image(L, F, buf));
    (sprite, cels)
}

fn greys(cels: &CelMap) -> Vec<u8> {
    match &cels.get(L, F).unwrap().data {
        CelData::Image(b) => b.data.iter().step_by(4).copied().collect(),
        _ => unreachable!(),
    }
}

#[test]
fn resize_center_pads_evenly_and_undo_restores() {
    let (mut s, mut c) = doc();
    let mut bus = Bus::new();
    bus.execute(
        ReframeCanvas::resize(2, 2, 4, 4, Anchor::Center).into(),
        &mut s,
        &mut c,
    )
    .unwrap();
    assert_eq!((s.width, s.height), (4, 4));
    let g = greys(&c);
    assert_eq!(g.len(), 16);
    assert_eq!(&g[5..7], &[1, 2]);
    assert_eq!(&g[9..11], &[3, 4]);
    assert_eq!(g[0], 0);
    assert!(bus.undo(&mut s, &mut c));
    assert_eq!((s.width, s.height), (2, 2));
    assert_eq!(greys(&c), vec![1, 2, 3, 4]);
}

#[test]
fn resize_anchors_pin_the_content() {
    let (mut s, mut c) = doc();
    ReframeCanvas::resize(2, 2, 3, 3, Anchor::BottomRight)
        .apply(&mut s, &mut c)
        .unwrap();
    let g = greys(&c);
    assert_eq!(g, vec![0, 0, 0, 0, 1, 2, 0, 3, 4]);
    let (mut s, mut c) = doc();
    ReframeCanvas::resize(2, 2, 1, 1, Anchor::TopLeft)
        .apply(&mut s, &mut c)
        .unwrap();
    assert_eq!(greys(&c), vec![1]);
}

#[test]
fn crop_rect_keeps_only_that_region_and_clears_selection() {
    let (mut s, mut c) = doc();
    s.set_selection(Rect::new(1, 0, 1, 2));
    ReframeCanvas::new(Rect::new(1, 0, 1, 2))
        .apply(&mut s, &mut c)
        .unwrap();
    assert_eq!((s.width, s.height), (1, 2));
    assert_eq!(greys(&c), vec![2, 4]);
    assert!(!s.has_selection());
}

#[test]
fn empty_rect_is_rejected() {
    let (mut s, mut c) = doc();
    assert_eq!(
        ReframeCanvas::new(Rect::new(0, 0, 0, 3)).apply(&mut s, &mut c),
        Err(CommandError::EmptyRegion)
    );
}
