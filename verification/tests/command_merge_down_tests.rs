use pincel_core::command::merge_down::{merge_down_checks, merge_down_restore, MergePrior};
use pincel_core::{
    Cel, CelMap, ColorMode, CommandError, Frame, FrameIndex, Layer, LayerId, PixelBuffer, Sprite,
};

/// Two frames and the given layers, in z-order.
fn sprite_with(layers: Vec<Layer>) -> Sprite {
    let mut b = Sprite::builder(4, 4).add_frame(Frame::new(100)).add_frame(Frame::new(100));
    for l in layers {
        b = b.add_layer(l);
    }
    b.build().expect("sprite builds")
}

fn image_cel(layer: u32, frame: u32, mode: ColorMode) -> Cel {
    Cel::image(LayerId::new(layer), FrameIndex::new(frame), PixelBuffer::empty(4, 4, mode))
}

#[test]
fn merge_down_image_layer_over_image_sibling_can_merge() {
    let s = sprite_with(vec![Layer::image(LayerId::new(1), "lo"), Layer::image(LayerId::new(2), "up")]);
    let mut cels = CelMap::new();
    cels.insert(image_cel(2, 0, ColorMode::Rgba));
    cels.insert(image_cel(1, 1, ColorMode::Rgba));
    assert_eq!(merge_down_checks(&s, &cels, LayerId::new(2)), Ok((1, 0)));
}

#[test]
fn merge_down_unknown_layer_is_rejected() {
    let s = sprite_with(vec![Layer::image(LayerId::new(1), "lo")]);
    assert_eq!(
        merge_down_checks(&s, &CelMap::new(), LayerId::new(9)),
        Err(CommandError::UnknownLayer(9))
    );
}

#[test]
fn merge_down_group_layer_is_rejected() {
    let s = sprite_with(vec![Layer::image(LayerId::new(1), "lo"), Layer::group(LayerId::new(2), "g")]);
    assert_eq!(
        merge_down_checks(&s, &CelMap::new(), LayerId::new(2)),
        Err(CommandError::UnsupportedLayerKind(2))
    );
}

#[test]
fn merge_down_bottom_layer_has_no_merge_target() {
    let s = sprite_with(vec![Layer::image(LayerId::new(1), "lo"), Layer::image(LayerId::new(2), "up")]);
    assert_eq!(
        merge_down_checks(&s, &CelMap::new(), LayerId::new(1)),
        Err(CommandError::NoMergeTarget(1))
    );
}

#[test]
fn merge_down_layer_in_another_parent_is_no_merge_target() {
    let mut child = Layer::image(LayerId::new(3), "child");
    child.parent = Some(LayerId::new(1));
    let s = sprite_with(vec![Layer::group(LayerId::new(1), "g"), child, Layer::image(LayerId::new(2), "up")]);
    assert_eq!(
        merge_down_checks(&s, &CelMap::new(), LayerId::new(2)),
        Err(CommandError::NoMergeTarget(2))
    );
}

#[test]
fn merge_down_first_blocking_frame_gives_the_error() {
    let s = sprite_with(vec![Layer::image(LayerId::new(1), "lo"), Layer::image(LayerId::new(2), "up")]);
    let mut cels = CelMap::new();
    cels.insert(image_cel(2, 0, ColorMode::Grayscale));
    cels.insert(Cel::tilemap(LayerId::new(2), FrameIndex::new(1), 1, 1));
    assert_eq!(
        merge_down_checks(&s, &cels, LayerId::new(2)),
        Err(CommandError::UnsupportedColorMode)
    );
    let mut cels = CelMap::new();
    cels.insert(Cel::tilemap(LayerId::new(2), FrameIndex::new(1), 1, 1));
    assert_eq!(
        merge_down_checks(&s, &cels, LayerId::new(2)),
        Err(CommandError::NotAnImageCel { layer: LayerId::new(2), frame: FrameIndex::new(1) })
    );
}

const LOWER: LayerId = LayerId(0);
const UPPER: LayerId = LayerId(1);
const F0: FrameIndex = FrameIndex(0);

fn solid(w: u32, h: u32, px: [u8; 4]) -> PixelBuffer {
    let mut b = PixelBuffer::empty(w, h, ColorMode::Rgba);
    b.data = (0..w * h).flat_map(|_| px).collect();
    b
}

fn doc() -> (Sprite, CelMap) {
    let sprite = Sprite::builder(2, 2)
        .add_layer(Layer::image(LOWER, "lower"))
        .add_layer(Layer::image(UPPER, "upper"))
        .add_frame(Frame::new(100))
        .build()
        .unwrap();
    let mut cels = CelMap::new();
    cels.insert(Cel::image(LOWER, F0, solid(2, 2, [255, 0, 0, 255])));
    cels.insert(Cel::image(UPPER, F0, solid(1, 1, [0, 0, 255, 255])));
    (sprite, cels)
}

#[test]
fn bottom_layer_group_and_cross_parent_are_rejected() {
    let (mut s, c) = doc();
    assert_eq!(merge_down_checks(&s, &c, LOWER), Err(CommandError::NoMergeTarget(0)));
    s.layers.push(Layer::group(LayerId::new(2), "g"));
    assert_eq!(
        merge_down_checks(&s, &c, LayerId::new(2)),
        Err(CommandError::UnsupportedLayerKind(2))
    );
    let mut child = Layer::image(LayerId::new(3), "child");
    child.parent = Some(LayerId::new(2));
    s.layers.push(child);
    // `child` sits directly above the group entry, not an image sibling.
    assert_eq!(
        merge_down_checks(&s, &c, LayerId::new(3)),
        Err(CommandError::NoMergeTarget(3))
    );
    assert_eq!(merge_down_checks(&doc().0, &doc().1, UPPER), Ok((1, 0)));
}

#[test]
fn merge_down_restore_puts_back_the_upper_layer_and_both_layers_cels() {
    let (merged, mut cels) = doc();
    let mut s = merged;
    let upper = s.layers.remove(1);
    let upper_cel = cels.remove(UPPER, F0).expect("upper cel");
    let lower_cel = cels.remove(LOWER, F0).expect("lower cel");
    // What a merge would leave: the composite in the lower layer's cel, and
    // a cel it created on a frame where the lower layer had none.
    cels.insert(Cel::image(LOWER, F0, solid(2, 2, [0, 0, 255, 255])));
    cels.insert(Cel::image(LOWER, FrameIndex::new(1), solid(2, 2, [1, 2, 3, 4])));
    let prior = MergePrior {
        upper_index: 1,
        upper,
        upper_cels: vec![upper_cel],
        lower_cels: vec![(F0, Some(lower_cel)), (FrameIndex::new(1), None)],
    };
    merge_down_restore(&mut s, &mut cels, prior);
    let ids: Vec<u32> = s.layers.iter().map(|l| l.id.0).collect();
    assert_eq!(ids, vec![0, 1]);
    let (orig_doc, orig_cels) = doc();
    assert_eq!(s.layers, orig_doc.layers);
    assert_eq!(cels.len(), 2);
    assert_eq!(cels.get(LOWER, F0), orig_cels.get(LOWER, F0));
    assert_eq!(cels.get(UPPER, F0), orig_cels.get(UPPER, F0));
    assert!(cels.get(LOWER, FrameIndex::new(1)).is_none());
}
