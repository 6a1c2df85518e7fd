#![allow(unused_imports, dead_code)]
use pincel_core::{AddFrame, AddLayer, AddSlice, AddTile, AddTilemapLayer, AddTileset, Anchor, AnyCommand, Bus, ClearRegion, Command, CommandError, DirtyRegion, DrawEllipse, DrawLine, DrawRectangle, DuplicateLayer, FillRegion, Interpolation, MoveDirection, MoveLayer, MoveSelectionContent, Orientation, PlaceTile, ReframeCanvas, RemoveLayer, RemoveSlice, ReplaceCelPixels, SetFrameDuration, SetLayerBlendMode, SetLayerName, SetLayerOpacity, SetLayerVisible, SetPixel, SetSliceKey, SetTilePixel, ShapeMode, ShapeStyle, TextAlign, TransformCanvas, TransformCel, BlendMode, Cel, CelData, CelKey, CelMap, ColorMode, Frame, FrameIndex, Layer, LayerId, LayerKind, Metadata, Palette, PaletteEntry, PathRef, PixelBuffer, Rgba, Slice, SliceId, SliceKey, Sprite, SpriteBuilder, Tag, TagDirection, TileImage, TileRef, Tileset, TilesetId, Point, Rect, DocumentError};





const L: LayerId = LayerId(0);
const F: FrameIndex = FrameIndex(0);

fn doc() -> (Sprite, CelMap) {
    let slice = Slice {
        id: SliceId::new(0),
        name: "s".into(),
        color: pincel_core::document::Rgba::black(),
        keys: vec![SliceKey {
            frame: F,
            bounds: Rect::new(0, 0, 1, 1),
            center: None,
            pivot: Some((0, 0)),
        }],
    };
    let sprite = Sprite::builder(3, 2)
        .add_layer(Layer::image(L, "a"))
        .add_frame(Frame::new(100))
        .add_slice(slice)
        .build()
        .unwrap();
    let mut cels = CelMap::new();
    let mut buf = PixelBuffer::empty(3, 2, ColorMode::Rgba);
    // Row 0: 1 2 3, row 1: 4 5 6 (grey levels, opaque).
    buf.data = (1u8..=6).flat_map(|v| [v, v, v, 255]).collect();
    cels.insert(Cel::image(L, F, buf));
    (sprite, cels)
}

fn greys(cels: &CelMap) -> Vec<u8> {
    match &cels.get(L, F).unwrap().data {
        CelData::Image(b) => b.data.iter().step_by(4).copied().collect(),
        _ => unreachable!(),
    }
}

#[test]
fn rotate_cw_swaps_canvas_dims_and_maps_pixels_and_slices() {
    let (mut s, mut c) = doc();
    s.set_selection(Rect::new(0, 0, 1, 1));
    let mut bus = Bus::new();
    bus.execute(
        TransformCanvas::new(Orientation::Rotate90Cw).into(),
        &mut s,
        &mut c,
    )
    .unwrap();
    assert_eq!((s.width, s.height), (2, 3));
    // CW: new row 0 = old column 0 bottom-up → 4 1; row 1 → 5 2; row 2 → 6 3.
    assert_eq!(greys(&c), vec![4, 1, 5, 2, 6, 3]);
    assert_eq!(s.slices[0].keys[0].bounds, Rect::new(1, 0, 1, 1));
    assert_eq!(s.slices[0].keys[0].pivot, Some((1, 0)));
    assert!(!s.has_selection());
    let buf = c.get(L, F).unwrap();
    assert_eq!(buf.position, (0, 0));
    assert!(bus.undo(&mut s, &mut c));
    assert_eq!((s.width, s.height), (3, 2));
    assert_eq!(greys(&c), vec![1, 2, 3, 4, 5, 6]);
    assert!(s.has_selection());
}

#[test]
fn flip_vertical_keeps_dims() {
    let (mut s, mut c) = doc();
    TransformCanvas::new(Orientation::FlipVertical)
        .apply(&mut s, &mut c)
        .unwrap();
    assert_eq!((s.width, s.height), (3, 2));
    assert_eq!(greys(&c), vec![4, 5, 6, 1, 2, 3]);
}

#[test]
fn tilemap_layer_is_rejected() {
    let (mut s, mut c) = doc();
    s.layers.push(Layer::tilemap(
        LayerId::new(1),
        "t",
        pincel_core::document::TilesetId::new(0),
    ));
    assert_eq!(
        TransformCanvas::new(Orientation::Rotate180).apply(&mut s, &mut c),
        Err(CommandError::UnsupportedLayerKind(1))
    );
}
