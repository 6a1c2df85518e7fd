use pincel_core::codec::aseprite_read::{
    AseBlendMode, AseCel, AseCelContent, AseDepth, AseDirection, AseHeader, AseLayer, AseLayerKind, AseTag,
};
use pincel_core::codec::aseprite_write::StagedCelContent;
use pincel_core::{
    assemble_aseprite, stage_aseprite, BlendMode, Cel, CelData, CelMap, ColorMode, Frame,
    FrameIndex, Layer, LayerId, PixelBuffer, Rgba, Sprite, Tag, TagDirection,
};

/// The blend mode a file records for a document blend mode.
fn ase_blend(m: BlendMode) -> AseBlendMode {
    match m {
        BlendMode::Normal => AseBlendMode::Normal,
        BlendMode::Multiply => AseBlendMode::Multiply,
        BlendMode::Screen => AseBlendMode::Screen,
        BlendMode::Overlay => AseBlendMode::Overlay,
        BlendMode::Darken => AseBlendMode::Darken,
        BlendMode::Lighten => AseBlendMode::Lighten,
        BlendMode::ColorDodge => AseBlendMode::ColorDodge,
        BlendMode::ColorBurn => AseBlendMode::ColorBurn,
        BlendMode::HardLight => AseBlendMode::HardLight,
        BlendMode::SoftLight => AseBlendMode::SoftLight,
        BlendMode::Difference => AseBlendMode::Difference,
        BlendMode::Exclusion => AseBlendMode::Exclusion,
        BlendMode::Hue => AseBlendMode::Hue,
        BlendMode::Saturation => AseBlendMode::Saturation,
        BlendMode::Color => AseBlendMode::Color,
        BlendMode::Luminosity => AseBlendMode::Luminosity,
        BlendMode::Addition => AseBlendMode::Addition,
        BlendMode::Subtract => AseBlendMode::Subtract,
        BlendMode::Divide => AseBlendMode::Divide,
    }
}

/// Stage `sprite`, lay the staged values out as a file records them (raw
/// pixels, blend modes as the format's own), and read them back.
fn write_then_read(sprite: &Sprite, cels: &CelMap) -> (Sprite, CelMap) {
    let staged = stage_aseprite(sprite, cels).expect("stages");
    let layers: Vec<AseLayer> = staged
        .layers
        .iter()
        .map(|l| AseLayer {
            kind: if l.group { AseLayerKind::Group } else { AseLayerKind::Normal },
            child_level: l.child_level,
            tileset_index: None,
            name: l.name.clone(),
            visible: l.visible,
            editable: l.editable,
            opacity: l.opacity,
        })
        .collect();
    let blends: Vec<AseBlendMode> = staged.layers.iter().map(|l| ase_blend(l.blend_mode)).collect();
    let slots: Vec<Vec<Option<AseCel>>> = staged
        .frames
        .iter()
        .map(|f| {
            let mut row: Vec<Option<AseCel>> = (0..layers.len()).map(|_| None).collect();
            for c in &f.cels {
                row[c.layer_index as usize] = Some(AseCel {
                    layer_index: c.layer_index,
                    x: c.x,
                    y: c.y,
                    opacity: c.opacity,
                    content: match &c.content {
                        StagedCelContent::Image { width, height, data } => AseCelContent::Image {
                            width: *width,
                            height: *height,
                            data: data.clone(),
                            compressed: false,
                        },
                        StagedCelContent::Linked { frame_position } => {
                            AseCelContent::Linked(*frame_position)
                        }
                    },
                });
            }
            row
        })
        .collect();
    let tags: Vec<AseTag> = staged
        .tags
        .iter()
        .map(|t| AseTag {
            from: t.from_frame,
            to: t.to_frame,
            direction: match t.direction {
                TagDirection::Forward => AseDirection::Forward,
                TagDirection::Reverse => AseDirection::Reverse,
                TagDirection::Pingpong => AseDirection::PingPong,
                TagDirection::PingpongReverse => AseDirection::PingPongReverse,
            },
            repeat: t.repeat,
            name: t.name.clone(),
        })
        .collect();
    let header = AseHeader {
        width: staged.width,
        height: staged.height,
        depth: AseDepth::Rgba,
        palette: None,
        durations: staged.frames.iter().map(|f| f.duration).collect(),
    };
    let out = assemble_aseprite(&header, &layers, &blends, &slots, &vec![], &tags, &Ok(vec![]))
        .expect("reads");
    (out.sprite, out.cels)
}

#[test]
fn staged_layers_read_back_with_their_parents() {
    let mut g = Layer::group(LayerId::new(0), "group");
    g.blend_mode = BlendMode::Screen;
    let mut inner = Layer::group(LayerId::new(1), "inner");
    inner.parent = Some(LayerId::new(0));
    let mut leaf = Layer::image(LayerId::new(2), "leaf");
    leaf.parent = Some(LayerId::new(1));
    leaf.opacity = 90;
    leaf.visible = false;
    let top = Layer::image(LayerId::new(3), "top");
    let sprite = Sprite::builder(4, 4)
        .add_layer(g)
        .add_layer(inner)
        .add_layer(leaf)
        .add_layer(top)
        .add_frame(Frame::new(120))
        .build()
        .unwrap();
    let (back, _) = write_then_read(&sprite, &CelMap::new());
    assert_eq!(back.layers, sprite.layers);
    assert_eq!(back.frames, sprite.frames);
}

#[test]
fn staged_tags_read_back_white() {
    let mut tag = Tag::new("walk", FrameIndex::new(0), FrameIndex::new(1));
    tag.direction = TagDirection::PingpongReverse;
    tag.repeats = 4;
    tag.color = Rgba::new(1, 2, 3, 255);
    let sprite = Sprite::builder(2, 2)
        .add_frame(Frame::new(100))
        .add_frame(Frame::new(100))
        .add_tag(tag)
        .build()
        .unwrap();
    let (back, _) = write_then_read(&sprite, &CelMap::new());
    let t = &back.tags[0];
    assert_eq!(t.name, "walk");
    assert_eq!((t.from, t.to), (FrameIndex::new(0), FrameIndex::new(1)));
    assert_eq!(t.direction, TagDirection::PingpongReverse);
    assert_eq!(t.repeats, 4);
    assert_eq!(t.color, Rgba::white());
}

#[test]
fn write_then_read_round_trips_image_and_linked_cels() {
    let sprite = Sprite::builder(4, 4)
        .add_layer(Layer::image(LayerId::new(0), "Background"))
        .add_frame(Frame::new(120))
        .add_frame(Frame::new(80))
        .build()
        .unwrap();
    let pixels: Vec<u8> = (0..4 * 4 * 4).map(|i| (i * 7) as u8).collect();
    let mut cels = CelMap::new();
    cels.insert(Cel {
        layer: LayerId::new(0),
        frame: FrameIndex::new(0),
        position: (-1, 2),
        opacity: 200,
        data: CelData::Image(PixelBuffer { width: 4, height: 4, color_mode: ColorMode::Rgba, data: pixels.clone() }),
    });
    cels.insert(Cel {
        layer: LayerId::new(0),
        frame: FrameIndex::new(1),
        position: (0, 0),
        opacity: 255,
        data: CelData::Linked(FrameIndex::new(0)),
    });
    let (back, back_cels) = write_then_read(&sprite, &cels);
    assert_eq!(back.width, 4);
    assert_eq!(back.frames[0].duration_ms, 120);
    assert_eq!(back_cels, cels);
}
