#![allow(unused_imports, dead_code)]
use pincel_core::{AddFrame, AddLayer, AddSlice, AddTile, AddTilemapLayer, AddTileset, Anchor, AnyCommand, Bus, ClearRegion, Command, CommandError, DirtyRegion, DrawEllipse, DrawLine, DrawRectangle, DuplicateLayer, FillRegion, Interpolation, MoveDirection, MoveLayer, MoveSelectionContent, Orientation, PlaceTile, ReframeCanvas, RemoveLayer, RemoveSlice, ReplaceCelPixels, SetFrameDuration, SetLayerBlendMode, SetLayerName, SetLayerOpacity, SetLayerVisible, SetPixel, SetSliceKey, SetTilePixel, ShapeMode, ShapeStyle, TextAlign, TransformCanvas, TransformCel, BlendMode, Cel, CelData, CelKey, CelMap, ColorMode, Frame, FrameIndex, Layer, LayerId, LayerKind, Metadata, Palette, PaletteEntry, PathRef, PixelBuffer, Rgba, Slice, SliceId, SliceKey, Sprite, SpriteBuilder, Tag, TagDirection, TileImage, TileRef, Tileset, TilesetId, Point, Rect, DocumentError};




/// Build a sprite whose layers are constructed from `(id, parent)`
/// pairs in z-order. All are image layers unless a later layer names
/// them as a parent (then they act as groups — kind doesn't matter
/// for ordering, only `parent` does).
fn sprite_with(layers: &[(u32, Option<u32>)]) -> (Sprite, CelMap) {
    let mut b = Sprite::builder(8, 8);
    for &(id, parent) in layers {
        let mut l = Layer::image(LayerId::new(id), &format!("l{id}"));
        l.parent = parent.map(LayerId::new);
        b = b.add_layer(l);
    }
    (b.build().expect("sprite builds"), CelMap::new())
}

fn order(sprite: &Sprite) -> Vec<u32> {
    sprite.layers.iter().map(|l| l.id.0).collect()
}

#[test]
fn move_up_swaps_with_next_sibling() {
    let (mut s, mut c) = sprite_with(&[(0, None), (1, None), (2, None)]);
    let mut cmd = MoveLayer::new(LayerId::new(1), MoveDirection::Up);
    cmd.apply(&mut s, &mut c).expect("apply");
    assert_eq!(order(&s), vec![0, 2, 1]);
    cmd.revert(&mut s, &mut c);
    assert_eq!(order(&s), vec![0, 1, 2]);
}

#[test]
fn move_down_swaps_with_previous_sibling() {
    let (mut s, mut c) = sprite_with(&[(0, None), (1, None), (2, None)]);
    let mut cmd = MoveLayer::new(LayerId::new(2), MoveDirection::Down);
    cmd.apply(&mut s, &mut c).expect("apply");
    assert_eq!(order(&s), vec![0, 2, 1]);
    cmd.revert(&mut s, &mut c);
    assert_eq!(order(&s), vec![0, 1, 2]);
}

#[test]
fn top_layer_cannot_move_up() {
    let (mut s, mut c) = sprite_with(&[(0, None), (1, None)]);
    let mut cmd = MoveLayer::new(LayerId::new(1), MoveDirection::Up);
    assert_eq!(cmd.apply(&mut s, &mut c), Err(CommandError::LayerAtEdge(1)));
    assert_eq!(order(&s), vec![0, 1], "document untouched on edge");
}

#[test]
fn bottom_layer_cannot_move_down() {
    let (mut s, mut c) = sprite_with(&[(0, None), (1, None)]);
    let mut cmd = MoveLayer::new(LayerId::new(0), MoveDirection::Down);
    assert_eq!(cmd.apply(&mut s, &mut c), Err(CommandError::LayerAtEdge(0)));
}

#[test]
fn move_layer_unknown_layer_is_rejected() {
    let (mut s, mut c) = sprite_with(&[(0, None)]);
    let mut cmd = MoveLayer::new(LayerId::new(9), MoveDirection::Up);
    assert_eq!(
        cmd.apply(&mut s, &mut c),
        Err(CommandError::UnknownLayer(9))
    );
}

#[test]
fn moving_a_group_carries_its_children() {
    // z-order: img0, group1 { child2, child3 }, img4
    let (mut s, mut c) =
        sprite_with(&[(0, None), (1, None), (2, Some(1)), (3, Some(1)), (4, None)]);
    // Move the group (id 1) up past sibling img4: the whole subtree
    // [1,2,3] jumps over [4].
    let mut cmd = MoveLayer::new(LayerId::new(1), MoveDirection::Up);
    cmd.apply(&mut s, &mut c).expect("apply");
    assert_eq!(order(&s), vec![0, 4, 1, 2, 3]);
    cmd.revert(&mut s, &mut c);
    assert_eq!(order(&s), vec![0, 1, 2, 3, 4]);
}

#[test]
fn a_leaf_jumps_over_a_sibling_group_as_a_block() {
    // z-order: group0 { child1 }, img2
    let (mut s, mut c) = sprite_with(&[(0, None), (1, Some(0)), (2, None)]);
    // img2 moves down past the whole group [0,1].
    let mut cmd = MoveLayer::new(LayerId::new(2), MoveDirection::Down);
    cmd.apply(&mut s, &mut c).expect("apply");
    assert_eq!(order(&s), vec![2, 0, 1]);
    cmd.revert(&mut s, &mut c);
    assert_eq!(order(&s), vec![0, 1, 2]);
}

#[test]
fn child_moves_within_its_group_only() {
    // group0 { child1, child2 }
    let (mut s, mut c) = sprite_with(&[(0, None), (1, Some(0)), (2, Some(0))]);
    // child1 up → swaps with sibling child2 inside the group.
    let mut cmd = MoveLayer::new(LayerId::new(1), MoveDirection::Up);
    cmd.apply(&mut s, &mut c).expect("apply");
    assert_eq!(order(&s), vec![0, 2, 1]);
}

#[test]
fn first_child_cannot_move_down_out_of_group() {
    // img0, group1 { child2 }
    let (mut s, mut c) = sprite_with(&[(0, None), (1, None), (2, Some(1))]);
    // child2 is the first (and only) child → no sibling below within
    // the group; it must not escape into img0's level.
    let mut cmd = MoveLayer::new(LayerId::new(2), MoveDirection::Down);
    assert_eq!(cmd.apply(&mut s, &mut c), Err(CommandError::LayerAtEdge(2)));
    assert_eq!(order(&s), vec![0, 1, 2]);
}

#[test]
fn last_child_cannot_move_up_out_of_group() {
    // group0 { child1 }, img2
    let (mut s, mut c) = sprite_with(&[(0, None), (1, Some(0)), (2, None)]);
    let mut cmd = MoveLayer::new(LayerId::new(1), MoveDirection::Up);
    assert_eq!(cmd.apply(&mut s, &mut c), Err(CommandError::LayerAtEdge(1)));
}
