#![allow(unused_imports, dead_code)]
use pincel_core::{AddFrame, AddLayer, AddSlice, AddTile, AddTilemapLayer, AddTileset, Anchor, AnyCommand, Bus, ClearRegion, Command, CommandError, DirtyRegion, DrawEllipse, DrawLine, DrawRectangle, DuplicateLayer, FillRegion, Interpolation, MoveDirection, MoveLayer, MoveSelectionContent, Orientation, PlaceTile, ReframeCanvas, RemoveLayer, RemoveSlice, ReplaceCelPixels, SetFrameDuration, SetLayerBlendMode, SetLayerName, SetLayerOpacity, SetLayerVisible, SetPixel, SetSliceKey, SetTilePixel, ShapeMode, ShapeStyle, TextAlign, TransformCanvas, TransformCel, BlendMode, Cel, CelData, CelKey, CelMap, ColorMode, Frame, FrameIndex, Layer, LayerId, LayerKind, Metadata, Palette, PaletteEntry, PathRef, PixelBuffer, Rgba, Slice, SliceId, SliceKey, Sprite, SpriteBuilder, Tag, TagDirection, TileImage, TileRef, Tileset, TilesetId, Point, Rect, DocumentError};




fn doc() -> (Sprite, CelMap) {
    let sprite = Sprite::builder(4, 4)
        .add_layer(Layer::image(LayerId::new(0), "bg"))
        .build()
        .expect("sprite builds");
    (sprite, CelMap::new())
}

#[test]
fn apply_sets_and_revert_restores_blend_mode() {
    let (mut s, mut c) = doc();
    let mut cmd = SetLayerBlendMode::new(LayerId::new(0), BlendMode::Multiply);
    cmd.apply(&mut s, &mut c).expect("apply");
    assert_eq!(s.layers[0].blend_mode, BlendMode::Multiply);
    cmd.revert(&mut s, &mut c);
    assert_eq!(s.layers[0].blend_mode, BlendMode::Normal);
}

#[test]
fn set_layer_blend_mode_unknown_layer_is_rejected() {
    let (mut s, mut c) = doc();
    let mut cmd = SetLayerBlendMode::new(LayerId::new(3), BlendMode::Screen);
    assert_eq!(
        cmd.apply(&mut s, &mut c),
        Err(CommandError::UnknownLayer(3))
    );
}
