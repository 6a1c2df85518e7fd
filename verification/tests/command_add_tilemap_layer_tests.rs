#![allow(unused_imports, dead_code)]
use pincel_core::{AddFrame, AddLayer, AddSlice, AddTile, AddTilemapLayer, AddTileset, Anchor, AnyCommand, Bus, ClearRegion, Command, CommandError, DirtyRegion, DrawEllipse, DrawLine, DrawRectangle, DuplicateLayer, FillRegion, Interpolation, MoveDirection, MoveLayer, MoveSelectionContent, Orientation, PlaceTile, ReframeCanvas, RemoveLayer, RemoveSlice, ReplaceCelPixels, SetFrameDuration, SetLayerBlendMode, SetLayerName, SetLayerOpacity, SetLayerVisible, SetPixel, SetSliceKey, SetTilePixel, ShapeMode, ShapeStyle, TextAlign, TransformCanvas, TransformCel, BlendMode, Cel, CelData, CelKey, CelMap, ColorMode, Frame, FrameIndex, Layer, LayerId, LayerKind, Metadata, Palette, PaletteEntry, PathRef, PixelBuffer, Rgba, Slice, SliceId, SliceKey, Sprite, SpriteBuilder, Tag, TagDirection, TileImage, TileRef, Tileset, TilesetId, Point, Rect, DocumentError};




fn fixture() -> (Sprite, CelMap, Layer, Vec<Cel>) {
    let mut sprite = Sprite::builder(4, 4)
        .add_frame(pincel_core::document::Frame::new(100))
        .build()
        .expect("sprite builds");
    let ts = Tileset::new(TilesetId::new(0), "t", (2, 2));
    sprite.tilesets.push(ts);
    let layer = Layer::tilemap(LayerId::new(7), "tiles", TilesetId::new(0));
    let cel = Cel {
        layer: LayerId::new(7),
        frame: FrameIndex::new(0),
        position: (0, 0),
        opacity: 255,
        data: CelData::Tilemap {
            grid_w: 2,
            grid_h: 2,
            tiles: vec![TileRef::empty(); 4],
        },
    };
    (sprite, CelMap::new(), layer, vec![cel])
}

#[test]
fn apply_inserts_layer_and_cels_together() {
    let (mut sprite, mut cels, layer, seeded) = fixture();
    let mut cmd = AddTilemapLayer::new(layer, seeded);
    cmd.apply(&mut sprite, &mut cels).expect("apply");
    assert_eq!(sprite.layers.len(), 1);
    assert_eq!(sprite.layers[0].id, LayerId::new(7));
    assert!(cels.get(LayerId::new(7), FrameIndex::new(0)).is_some());
}

#[test]
fn revert_removes_layer_and_seeded_cels() {
    let (mut sprite, mut cels, layer, seeded) = fixture();
    let mut cmd = AddTilemapLayer::new(layer, seeded);
    cmd.apply(&mut sprite, &mut cels).expect("apply");
    cmd.revert(&mut sprite, &mut cels);
    assert!(sprite.layers.is_empty());
    assert!(
        cels.get(LayerId::new(7), FrameIndex::new(0)).is_none(),
        "revert must drop seeded cels alongside the layer"
    );
}

#[test]
fn revert_restores_displaced_cel() {
    let (mut sprite, mut cels, layer, seeded) = fixture();
    // Stash a pre-existing cel at the same (layer, frame) slot so
    // we can verify the revert path restores it.
    let preexisting = Cel {
        layer: LayerId::new(7),
        frame: FrameIndex::new(0),
        position: (0, 0),
        opacity: 200,
        data: CelData::Image(PixelBuffer::empty(4, 4, ColorMode::Rgba)),
    };
    cels.insert(preexisting.clone());
    // Pad the tileset with one stored tile so identity comparisons
    // exercise the actual round-trip rather than the trivial empty
    // case.
    sprite.tilesets[0].tiles.push(TileImage {
        pixels: PixelBuffer::empty(2, 2, ColorMode::Rgba),
    });
    let mut cmd = AddTilemapLayer::new(layer, seeded);
    cmd.apply(&mut sprite, &mut cels).expect("apply");
    cmd.revert(&mut sprite, &mut cels);
    let restored = cels
        .get(LayerId::new(7), FrameIndex::new(0))
        .expect("displaced cel restored");
    assert_eq!(restored.opacity, 200);
    assert!(matches!(restored.data, CelData::Image(_)));
}

#[test]
fn duplicate_layer_id_is_rejected_without_touching_cels() {
    let (mut sprite, mut cels, layer, seeded) = fixture();
    sprite
        .layers
        .push(Layer::tilemap(LayerId::new(7), "existing", TilesetId::new(0)));
    let mut cmd = AddTilemapLayer::new(layer, seeded);
    assert_eq!(
        cmd.apply(&mut sprite, &mut cels),
        Err(CommandError::DuplicateLayerId(7))
    );
    assert!(
        cels.get(LayerId::new(7), FrameIndex::new(0)).is_none(),
        "no cels should be seeded when the layer insert fails"
    );
}
