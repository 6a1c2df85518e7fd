use pincel_core::command::scale_image::{install_scaled, restore_scaled, scale_image_checks};
use pincel_core::{
    Cel, CelData, CelMap, ColorMode, CommandError, Frame, FrameIndex, Layer, LayerId, PixelBuffer,
    Rect, Rgba, Slice, SliceId, SliceKey, Sprite, TilesetId,
};

const L: LayerId = LayerId(0);
const F: FrameIndex = FrameIndex(0);

fn doc() -> (Sprite, CelMap) {
    let sprite = Sprite::builder(2, 1)
        .add_layer(Layer::image(L, "a"))
        .add_frame(Frame::new(100))
        .build()
        .unwrap();
    let mut cels = CelMap::new();
    let mut buf = PixelBuffer::empty(2, 1, ColorMode::Rgba);
    buf.data = vec![255, 0, 0, 255, 0, 0, 255, 255];
    cels.insert(Cel::image(L, F, buf));
    (sprite, cels)
}

fn data(cels: &CelMap) -> Vec<u8> {
    match &cels.get(L, F).unwrap().data {
        CelData::Image(b) => b.data.clone(),
        _ => unreachable!(),
    }
}

#[test]
fn zero_size_and_tilemaps_are_rejected() {
    let (mut s, c) = doc();
    assert_eq!(scale_image_checks(&s, &c, 0, 4), Err(CommandError::EmptyRegion));
    s.layers.push(Layer::tilemap(LayerId::new(1), "t", TilesetId::new(0)));
    assert_eq!(scale_image_checks(&s, &c, 4, 4), Err(CommandError::UnsupportedLayerKind(1)));
}

#[test]
fn scale_checks_pass_on_rgba_images_and_refuse_other_cels() {
    let (s, mut c) = doc();
    assert_eq!(scale_image_checks(&s, &c, 4, 2), Ok(()));
    c.insert(Cel::image(L, FrameIndex::new(1), PixelBuffer::empty(1, 1, ColorMode::Grayscale)));
    assert_eq!(
        scale_image_checks(&s, &c, 4, 2),
        Err(CommandError::NotAnImageCel { layer: L, frame: FrameIndex::new(1) })
    );
}

#[test]
fn install_then_restore_gives_back_size_cels_slices_and_selection() {
    let (mut s, mut c) = doc();
    s.slices.push(Slice {
        id: SliceId::new(1),
        name: "hit".into(),
        color: Rgba::white(),
        keys: vec![SliceKey { frame: F, bounds: Rect::new(0, 0, 1, 1), center: None, pivot: None }],
    });
    s.selection = Some(Rect::new(0, 0, 1, 1));
    let before = data(&c);
    let slices_before = s.slices.clone();

    let mut scaled = CelMap::new();
    scaled.insert(Cel::image(L, F, PixelBuffer::empty(4, 2, ColorMode::Rgba)));
    let prior = install_scaled(&mut s, &mut c, 4, 2, scaled, Vec::new());
    assert_eq!((s.width, s.height), (4, 2));
    assert_eq!(data(&c).len(), 32);
    assert!(s.slices.is_empty());
    assert_eq!(s.selection, None);

    restore_scaled(&mut s, &mut c, prior);
    assert_eq!((s.width, s.height), (2, 1));
    assert_eq!(data(&c), before);
    assert_eq!(s.slices, slices_before);
    assert_eq!(s.selection, Some(Rect::new(0, 0, 1, 1)));
}
