#![allow(unused_imports, dead_code)]
use pincel_core::{AddFrame, AddLayer, AddSlice, AddTile, AddTilemapLayer, AddTileset, Anchor, AnyCommand, Bus, ClearRegion, Command, CommandError, DirtyRegion, DrawEllipse, DrawLine, DrawRectangle, DuplicateLayer, FillRegion, Interpolation, MoveDirection, MoveLayer, MoveSelectionContent, Orientation, PlaceTile, ReframeCanvas, RemoveLayer, RemoveSlice, ReplaceCelPixels, SetFrameDuration, SetLayerBlendMode, SetLayerName, SetLayerOpacity, SetLayerVisible, SetPixel, SetSliceKey, SetTilePixel, ShapeMode, ShapeStyle, TextAlign, TransformCanvas, TransformCel, BlendMode, Cel, CelData, CelKey, CelMap, ColorMode, Frame, FrameIndex, Layer, LayerId, LayerKind, Metadata, Palette, PaletteEntry, PathRef, PixelBuffer, Rgba, Slice, SliceId, SliceKey, Sprite, SpriteBuilder, Tag, TagDirection, TileImage, TileRef, Tileset, TilesetId, Point, Rect, DocumentError};




/// Build a sprite from `(id, parent)` pairs in z-order (all image
/// layers; only `parent` matters for subtree grouping) with two frames.
fn sprite_with(layers: &[(u32, Option<u32>)]) -> (Sprite, CelMap) {
    let mut b = Sprite::builder(4, 4).add_frame(Frame::new(100));
    for &(id, parent) in layers {
        let mut l = Layer::image(LayerId::new(id), &format!("l{id}"));
        l.parent = parent.map(LayerId::new);
        b = b.add_layer(l);
    }
    (b.build().expect("sprite builds"), CelMap::new())
}

fn order(sprite: &Sprite) -> Vec<u32> {
    sprite.layers.iter().map(|l| l.id.0).collect()
}

fn img_cel(layer: u32, frame: u32) -> Cel {
    Cel::image(
        LayerId::new(layer),
        FrameIndex::new(frame),
        PixelBuffer::empty(4, 4, ColorMode::Rgba),
    )
}

#[test]
fn remove_leaf_layer_and_restore_it() {
    let (mut s, mut c) = sprite_with(&[(0, None), (1, None), (2, None)]);
    let mut cmd = RemoveLayer::new(LayerId::new(1));
    cmd.apply(&mut s, &mut c).expect("apply");
    assert_eq!(order(&s), vec![0, 2]);
    cmd.revert(&mut s, &mut c);
    assert_eq!(order(&s), vec![0, 1, 2], "layer restored at original index");
}

#[test]
fn remove_layer_drops_its_cels_across_frames_and_revert_restores() {
    let (mut s, mut c) = sprite_with(&[(0, None), (1, None)]);
    c.insert(img_cel(1, 0));
    c.insert(img_cel(1, 1));
    c.insert(img_cel(0, 0));
    assert_eq!(c.len(), 3);
    let mut cmd = RemoveLayer::new(LayerId::new(1));
    cmd.apply(&mut s, &mut c).expect("apply");
    assert!(c.get(LayerId::new(1), FrameIndex::new(0)).is_none());
    assert!(c.get(LayerId::new(1), FrameIndex::new(1)).is_none());
    assert!(
        c.get(LayerId::new(0), FrameIndex::new(0)).is_some(),
        "other layers' cels untouched"
    );
    assert_eq!(c.len(), 1);
    cmd.revert(&mut s, &mut c);
    assert_eq!(c.len(), 3, "removed cels restored");
    assert!(c.get(LayerId::new(1), FrameIndex::new(1)).is_some());
}

#[test]
fn removing_a_group_takes_its_whole_subtree() {
    // z-order: img0, group1 { child2, child3 }, img4
    let (mut s, mut c) =
        sprite_with(&[(0, None), (1, None), (2, Some(1)), (3, Some(1)), (4, None)]);
    c.insert(img_cel(2, 0));
    c.insert(img_cel(3, 1));
    let mut cmd = RemoveLayer::new(LayerId::new(1));
    cmd.apply(&mut s, &mut c).expect("apply");
    assert_eq!(order(&s), vec![0, 4], "group + children removed as a block");
    assert!(c.is_empty(), "children cels removed with the group");
    cmd.revert(&mut s, &mut c);
    assert_eq!(order(&s), vec![0, 1, 2, 3, 4]);
    assert_eq!(c.len(), 2, "children cels restored");
}

#[test]
fn unknown_layer_is_rejected_without_touching_the_document() {
    let (mut s, mut c) = sprite_with(&[(0, None)]);
    let mut cmd = RemoveLayer::new(LayerId::new(9));
    assert_eq!(
        cmd.apply(&mut s, &mut c),
        Err(CommandError::UnknownLayer(9))
    );
    assert_eq!(order(&s), vec![0]);
}
