use pincel_core::codec::aseprite_write::{stage_aseprite, StagedCelContent};
use pincel_core::codec::error::CodecError;
use pincel_core::{
    Cel, CelData, CelMap, ColorMode, Frame, FrameIndex, Layer, LayerId, Palette, PaletteEntry,
    PixelBuffer, Rgba, Sprite, Tag, TagDirection, TileRef, TilesetId,
};

fn rgba_sprite(layers: Vec<Layer>, frames: Vec<Frame>) -> Sprite {
    let mut b = Sprite::builder(4, 4);
    for layer in layers {
        b = b.add_layer(layer);
    }
    for frame in frames {
        b = b.add_frame(frame);
    }
    b.build().expect("rgba sprite builds")
}

#[test]
fn write_rejects_indexed_color_mode() {
    let sprite = Sprite::builder(2, 2)
        .color_mode(ColorMode::Indexed { transparent_index: 0 })
        .build()
        .unwrap();
    let cels = CelMap::new();
    let err = stage_aseprite(&sprite, &cels).unwrap_err();
    assert!(matches!(err, CodecError::UnsupportedColorMode));
}

#[test]
fn write_rejects_canvas_wider_than_u16() {
    let sprite = Sprite::builder(70_000, 1).build().unwrap();
    let cels = CelMap::new();
    let err = stage_aseprite(&sprite, &cels).unwrap_err();
    assert!(matches!(
        err,
        CodecError::OutOfRange {
            what: "canvas width",
            value: 70_000,
        }
    ));
}

#[test]
fn write_rejects_tilemap_layer() {
    let sprite = Sprite::builder(4, 4)
        .add_layer(Layer::tilemap(LayerId::new(0), "tiles", TilesetId::new(0)))
        .build()
        .unwrap();
    let cels = CelMap::new();
    let err = stage_aseprite(&sprite, &cels).unwrap_err();
    assert!(matches!(err, CodecError::UnsupportedLayerKind { kind: 2 }));
}

#[test]
fn write_rejects_tilemap_cel() {
    let sprite = rgba_sprite(vec![Layer::image(LayerId::new(0), "L0")], vec![Frame::new(100)]);
    let mut cels = CelMap::new();
    cels.insert(Cel {
        layer: LayerId::new(0),
        frame: FrameIndex::new(0),
        position: (0, 0),
        opacity: 255,
        data: CelData::Tilemap { grid_w: 1, grid_h: 1, tiles: vec![TileRef::empty()] },
    });
    let err = stage_aseprite(&sprite, &cels).unwrap_err();
    assert!(matches!(err, CodecError::UnsupportedCelKind { kind: 3 }));
}

#[test]
fn write_rejects_cel_position_out_of_i16() {
    let sprite = rgba_sprite(vec![Layer::image(LayerId::new(0), "L0")], vec![Frame::new(100)]);
    let mut cels = CelMap::new();
    cels.insert(Cel {
        layer: LayerId::new(0),
        frame: FrameIndex::new(0),
        position: (50_000, 0),
        opacity: 255,
        data: CelData::Image(PixelBuffer::empty(1, 1, ColorMode::Rgba)),
    });
    let err = stage_aseprite(&sprite, &cels).unwrap_err();
    assert!(matches!(
        err,
        CodecError::OutOfRange {
            what: "cel x",
            value: 50_000,
        }
    ));
}

#[test]
fn write_rejects_cel_for_unknown_layer() {
    let sprite = rgba_sprite(vec![Layer::image(LayerId::new(0), "L0")], vec![Frame::new(100)]);
    let mut cels = CelMap::new();
    cels.insert(Cel {
        layer: LayerId::new(99),
        frame: FrameIndex::new(0),
        position: (0, 0),
        opacity: 255,
        data: CelData::Image(PixelBuffer::empty(1, 1, ColorMode::Rgba)),
    });
    let err = stage_aseprite(&sprite, &cels).unwrap_err();
    assert!(matches!(err, CodecError::CelLayerNotFound { id: 99 }));
}

#[test]
fn write_rejects_linked_cel_past_frames() {
    let sprite = rgba_sprite(vec![Layer::image(LayerId::new(0), "L0")], vec![Frame::new(100)]);
    let mut cels = CelMap::new();
    cels.insert(Cel {
        layer: LayerId::new(0),
        frame: FrameIndex::new(0),
        position: (0, 0),
        opacity: 255,
        data: CelData::Linked(FrameIndex::new(7)),
    });
    let err = stage_aseprite(&sprite, &cels).unwrap_err();
    assert!(matches!(err, CodecError::LinkedFrameNotFound { index: 7 }));
}

#[test]
fn write_detects_layer_parent_cycle() {
    let mut a = Layer::group(LayerId::new(0), "a");
    let mut b = Layer::group(LayerId::new(1), "b");
    a.parent = Some(LayerId::new(1));
    b.parent = Some(LayerId::new(0));
    let sprite = Sprite::builder(2, 2).add_layer(a).add_layer(b).build().unwrap();
    let cels = CelMap::new();
    let err = stage_aseprite(&sprite, &cels).unwrap_err();
    assert!(matches!(err, CodecError::LayerCycle { .. }));
}

#[test]
fn write_detects_unknown_parent() {
    let mut layer = Layer::image(LayerId::new(0), "orphan");
    layer.parent = Some(LayerId::new(42));
    let sprite = Sprite::builder(2, 2).add_layer(layer).build().unwrap();
    let cels = CelMap::new();
    let err = stage_aseprite(&sprite, &cels).unwrap_err();
    assert!(matches!(err, CodecError::LayerParentNotFound { id: 42 }));
}

#[test]
fn write_rejects_layer_parent_that_is_not_a_group() {
    let bg = Layer::image(LayerId::new(0), "bg");
    let mut child = Layer::image(LayerId::new(1), "child");
    child.parent = Some(LayerId::new(0));
    let sprite = Sprite::builder(2, 2).add_layer(bg).add_layer(child).build().unwrap();
    let cels = CelMap::new();
    let err = stage_aseprite(&sprite, &cels).unwrap_err();
    assert!(matches!(err, CodecError::LayerParentNotGroup { child: 1, parent: 0 }));
}

#[test]
fn write_rejects_layer_whose_parent_appears_after_it() {
    let mut child = Layer::image(LayerId::new(0), "child");
    child.parent = Some(LayerId::new(1));
    let group = Layer::group(LayerId::new(1), "g");
    let sprite = Sprite::builder(2, 2).add_layer(child).add_layer(group).build().unwrap();
    let cels = CelMap::new();
    let err = stage_aseprite(&sprite, &cels).unwrap_err();
    assert!(matches!(
        err,
        CodecError::LayerOrderingInconsistent {
            child: 0,
            expected: Some(1),
            reconstructed: None,
        }
    ));
}

#[test]
fn write_rejects_layer_whose_parent_is_shadowed_by_sibling_group() {
    let g_a = Layer::group(LayerId::new(0), "g_a");
    let g_b = Layer::group(LayerId::new(1), "g_b");
    let mut child = Layer::image(LayerId::new(2), "child");
    child.parent = Some(LayerId::new(0));
    let sprite = Sprite::builder(2, 2)
        .add_layer(g_a)
        .add_layer(g_b)
        .add_layer(child)
        .build()
        .unwrap();
    let cels = CelMap::new();
    let err = stage_aseprite(&sprite, &cels).unwrap_err();
    assert!(matches!(
        err,
        CodecError::LayerOrderingInconsistent {
            child: 2,
            expected: Some(0),
            reconstructed: Some(1),
        }
    ));
}

#[test]
fn write_rejects_image_cel_with_indexed_buffer() {
    let sprite = rgba_sprite(vec![Layer::image(LayerId::new(0), "L0")], vec![Frame::new(100)]);
    let mut cels = CelMap::new();
    cels.insert(Cel {
        layer: LayerId::new(0),
        frame: FrameIndex::new(0),
        position: (0, 0),
        opacity: 255,
        data: CelData::Image(PixelBuffer::empty(1, 1, ColorMode::Indexed { transparent_index: 0 })),
    });
    let err = stage_aseprite(&sprite, &cels).unwrap_err();
    assert!(matches!(err, CodecError::CelImageNotRgba { layer: 0, frame: 0 }));
}

#[test]
fn write_rejects_image_cel_with_malformed_buffer() {
    let sprite = rgba_sprite(vec![Layer::image(LayerId::new(0), "L0")], vec![Frame::new(100)]);
    let mut cels = CelMap::new();
    cels.insert(Cel {
        layer: LayerId::new(0),
        frame: FrameIndex::new(0),
        position: (0, 0),
        opacity: 255,
        data: CelData::Image(PixelBuffer {
            width: 2,
            height: 2,
            color_mode: ColorMode::Rgba,
            data: vec![0; 8],
        }),
    });
    let err = stage_aseprite(&sprite, &cels).unwrap_err();
    assert!(matches!(err, CodecError::CelImageBufferMalformed { layer: 0, frame: 0 }));
}

#[test]
fn write_rejects_linked_cel_with_missing_target() {
    let sprite = rgba_sprite(
        vec![Layer::image(LayerId::new(0), "L0")],
        vec![Frame::new(100), Frame::new(100)],
    );
    let mut cels = CelMap::new();
    cels.insert(Cel {
        layer: LayerId::new(0),
        frame: FrameIndex::new(1),
        position: (0, 0),
        opacity: 255,
        data: CelData::Linked(FrameIndex::new(0)),
    });
    let err = stage_aseprite(&sprite, &cels).unwrap_err();
    assert!(matches!(
        err,
        CodecError::LinkedCelTargetMissing { layer: 0, from_frame: 1, target: 0 }
    ));
}

#[test]
fn write_rejects_chained_linked_cel() {
    let sprite = rgba_sprite(
        vec![Layer::image(LayerId::new(0), "L0")],
        vec![Frame::new(100), Frame::new(100), Frame::new(100)],
    );
    let mut cels = CelMap::new();
    cels.insert(Cel {
        layer: LayerId::new(0),
        frame: FrameIndex::new(2),
        position: (0, 0),
        opacity: 255,
        data: CelData::Image(PixelBuffer::empty(1, 1, ColorMode::Rgba)),
    });
    cels.insert(Cel {
        layer: LayerId::new(0),
        frame: FrameIndex::new(1),
        position: (0, 0),
        opacity: 255,
        data: CelData::Linked(FrameIndex::new(2)),
    });
    cels.insert(Cel {
        layer: LayerId::new(0),
        frame: FrameIndex::new(0),
        position: (0, 0),
        opacity: 255,
        data: CelData::Linked(FrameIndex::new(1)),
    });
    let err = stage_aseprite(&sprite, &cels).unwrap_err();
    assert!(matches!(
        err,
        CodecError::LinkedCelTargetNotImage { layer: 0, from_frame: 0, target: 1 }
    ));
}

#[test]
fn stage_aseprite_lays_out_layers_tags_and_cels_per_frame() {
    let group = Layer::group(LayerId::new(7), "g");
    let mut child = Layer::image(LayerId::new(3), "child");
    child.parent = Some(LayerId::new(7));
    let mut tag = Tag::new("walk", FrameIndex::new(0), FrameIndex::new(1));
    tag.direction = TagDirection::Pingpong;
    tag.repeats = 2;
    let sprite = Sprite::builder(3, 2)
        .add_layer(group)
        .add_layer(child)
        .add_frame(Frame::new(100))
        .add_frame(Frame::new(80))
        .add_tag(tag)
        .palette(Palette::from_entries(vec![PaletteEntry::with_name(Rgba::new(10, 20, 30, 40), "ink")]))
        .build()
        .unwrap();
    let mut cels = CelMap::new();
    cels.insert(Cel {
        layer: LayerId::new(3),
        frame: FrameIndex::new(1),
        position: (-2, 5),
        opacity: 200,
        data: CelData::Image(PixelBuffer {
            width: 1,
            height: 1,
            color_mode: ColorMode::Rgba,
            data: vec![1, 2, 3, 4],
        }),
    });
    cels.insert(Cel {
        layer: LayerId::new(3),
        frame: FrameIndex::new(0),
        position: (0, 0),
        opacity: 255,
        data: CelData::Linked(FrameIndex::new(1)),
    });
    let staged = stage_aseprite(&sprite, &cels).expect("stages");
    assert_eq!((staged.width, staged.height), (3, 2));
    assert_eq!(staged.layers.len(), 2);
    assert!(staged.layers[0].group);
    assert_eq!(staged.layers[0].child_level, 0);
    assert!(!staged.layers[1].group);
    assert_eq!(staged.layers[1].child_level, 1);
    assert_eq!(staged.layers[1].name, "child");
    let palette = staged.palette.expect("non-empty palette");
    assert_eq!(palette.len(), 1);
    assert_eq!(palette[0].name.as_deref(), Some("ink"));
    assert_eq!(staged.tags.len(), 1);
    assert_eq!((staged.tags[0].from_frame, staged.tags[0].to_frame), (0, 1));
    assert_eq!(staged.tags[0].direction, TagDirection::Pingpong);
    assert_eq!(staged.tags[0].repeat, 2);
    assert_eq!(staged.tags[0].color, (255, 255, 255));
    assert_eq!(staged.frames.len(), 2);
    assert_eq!(staged.frames[0].duration, 100);
    assert_eq!(staged.frames[1].duration, 80);
    assert_eq!(staged.frames[0].cels.len(), 1);
    assert_eq!(staged.frames[0].cels[0].layer_index, 1);
    assert!(matches!(
        staged.frames[0].cels[0].content,
        StagedCelContent::Linked { frame_position: 1 }
    ));
    let cel = &staged.frames[1].cels[0];
    assert_eq!((cel.x, cel.y, cel.opacity), (-2, 5, 200));
    match &cel.content {
        StagedCelContent::Image { width, height, data } => {
            assert_eq!((*width, *height), (1, 1));
            assert_eq!(data, &vec![1, 2, 3, 4]);
        }
        other => panic!("expected image content, got {other:?}"),
    }
}

#[test]
fn stage_aseprite_drops_empty_palette() {
    let sprite = rgba_sprite(vec![Layer::image(LayerId::new(0), "L0")], vec![Frame::new(100)]);
    let staged = stage_aseprite(&sprite, &CelMap::new()).expect("stages");
    assert!(staged.palette.is_none());
}

#[test]
fn stage_aseprite_rejects_tag_past_u16_frames() {
    let sprite = Sprite::builder(2, 2)
        .add_tag(Tag::new("long", FrameIndex::new(0), FrameIndex::new(70_000)))
        .build()
        .unwrap();
    let err = stage_aseprite(&sprite, &CelMap::new()).unwrap_err();
    assert!(matches!(
        err,
        CodecError::OutOfRange {
            what: "tag to-frame",
            value: 70_000,
        }
    ));
}
