#![allow(unused_imports, dead_code)]
use pincel_core::{AddFrame, AddLayer, AddSlice, AddTile, AddTilemapLayer, AddTileset, Anchor, AnyCommand, Bus, ClearRegion, Command, CommandError, DirtyRegion, DrawEllipse, DrawLine, DrawRectangle, DuplicateLayer, FillRegion, Interpolation, MoveDirection, MoveLayer, MoveSelectionContent, Orientation, PlaceTile, ReframeCanvas, RemoveLayer, RemoveSlice, ReplaceCelPixels, SetFrameDuration, SetLayerBlendMode, SetLayerName, SetLayerOpacity, SetLayerVisible, SetPixel, SetSliceKey, SetTilePixel, ShapeMode, ShapeStyle, TextAlign, TransformCanvas, TransformCel, BlendMode, Cel, CelData, CelKey, CelMap, ColorMode, Frame, FrameIndex, Layer, LayerId, LayerKind, Metadata, Palette, PaletteEntry, PathRef, PixelBuffer, Rgba, Slice, SliceId, SliceKey, Sprite, SpriteBuilder, Tag, TagDirection, TileImage, TileRef, Tileset, TilesetId, Point, Rect, DocumentError};




fn doc_one_layer() -> (Sprite, CelMap) {
    let sprite = Sprite::builder(8, 8)
        .add_layer(Layer::image(LayerId::new(0), "bg"))
        .build()
        .expect("sprite builds");
    (sprite, CelMap::new())
}

#[test]
fn apply_renames_and_revert_restores() {
    let (mut s, mut c) = doc_one_layer();
    let mut cmd = SetLayerName::new(LayerId::new(0), "ground");
    cmd.apply(&mut s, &mut c).expect("apply");
    assert_eq!(s.layer(LayerId::new(0)).unwrap().name, "ground");
    cmd.revert(&mut s, &mut c);
    assert_eq!(s.layer(LayerId::new(0)).unwrap().name, "bg");
}

#[test]
fn set_layer_name_unknown_layer_is_rejected() {
    let (mut s, mut c) = doc_one_layer();
    let mut cmd = SetLayerName::new(LayerId::new(9), "x");
    assert_eq!(
        cmd.apply(&mut s, &mut c),
        Err(CommandError::UnknownLayer(9))
    );
}

#[test]
fn set_layer_name_dirty_region_is_none() {
    assert!(matches!(
        SetLayerName::new(LayerId::new(0), "x").dirty_region(),
        DirtyRegion::NoChange
    ));
}
