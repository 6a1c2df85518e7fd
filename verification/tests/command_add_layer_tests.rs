#![allow(unused_imports, dead_code)]
use pincel_core::{AddFrame, AddLayer, AddSlice, AddTile, AddTilemapLayer, AddTileset, Anchor, AnyCommand, Bus, ClearRegion, Command, CommandError, DirtyRegion, DrawEllipse, DrawLine, DrawRectangle, DuplicateLayer, FillRegion, Interpolation, MoveDirection, MoveLayer, MoveSelectionContent, Orientation, PlaceTile, ReframeCanvas, RemoveLayer, RemoveSlice, ReplaceCelPixels, SetFrameDuration, SetLayerBlendMode, SetLayerName, SetLayerOpacity, SetLayerVisible, SetPixel, SetSliceKey, SetTilePixel, ShapeMode, ShapeStyle, TextAlign, TransformCanvas, TransformCel, BlendMode, Cel, CelData, CelKey, CelMap, ColorMode, Frame, FrameIndex, Layer, LayerId, LayerKind, Metadata, Palette, PaletteEntry, PathRef, PixelBuffer, Rgba, Slice, SliceId, SliceKey, Sprite, SpriteBuilder, Tag, TagDirection, TileImage, TileRef, Tileset, TilesetId, Point, Rect, DocumentError};




fn empty_doc() -> (Sprite, CelMap) {
    (
        Sprite::builder(8, 8).build().expect("sprite builds"),
        CelMap::new(),
    )
}

#[test]
fn apply_appends_layer_when_no_index_given() {
    let (mut sprite, mut cels) = empty_doc();
    let mut cmd = AddLayer::on_top(Layer::image(LayerId::new(1), "bg"));
    cmd.apply(&mut sprite, &mut cels).expect("apply");
    assert_eq!(sprite.layers.len(), 1);
    assert_eq!(sprite.layers[0].id, LayerId::new(1));
}

#[test]
fn apply_inserts_layer_at_specified_index() {
    let (mut sprite, mut cels) = empty_doc();
    AddLayer::on_top(Layer::image(LayerId::new(0), "bg"))
        .apply(&mut sprite, &mut cels)
        .expect("apply 0");
    AddLayer::on_top(Layer::image(LayerId::new(1), "fg"))
        .apply(&mut sprite, &mut cels)
        .expect("apply 1");

    let mut cmd = AddLayer::at(Layer::image(LayerId::new(2), "mid"), 1);
    cmd.apply(&mut sprite, &mut cels).expect("apply mid");
    assert_eq!(
        sprite.layers.iter().map(|l| l.id).collect::<Vec<_>>(),
        vec![LayerId::new(0), LayerId::new(2), LayerId::new(1)],
    );
}

#[test]
fn revert_removes_inserted_layer() {
    let (mut sprite, mut cels) = empty_doc();
    let mut cmd = AddLayer::on_top(Layer::image(LayerId::new(7), "ink"));
    cmd.apply(&mut sprite, &mut cels).expect("apply");
    assert_eq!(sprite.layers.len(), 1);
    cmd.revert(&mut sprite, &mut cels);
    assert!(sprite.layers.is_empty());
}

#[test]
fn add_layer_duplicate_id_is_rejected() {
    let (mut sprite, mut cels) = empty_doc();
    AddLayer::on_top(Layer::image(LayerId::new(1), "a"))
        .apply(&mut sprite, &mut cels)
        .expect("apply 1");
    let mut dup = AddLayer::on_top(Layer::image(LayerId::new(1), "b"));
    assert_eq!(
        dup.apply(&mut sprite, &mut cels),
        Err(CommandError::DuplicateLayerId(1))
    );
    assert_eq!(sprite.layers.len(), 1);
}
