#![allow(unused_imports, dead_code)]
use pincel_core::{AddFrame, AddLayer, AddSlice, AddTile, AddTilemapLayer, AddTileset, Anchor, AnyCommand, Bus, ClearRegion, Command, CommandError, DirtyRegion, DrawEllipse, DrawLine, DrawRectangle, DuplicateLayer, FillRegion, Interpolation, MoveDirection, MoveLayer, MoveSelectionContent, Orientation, PlaceTile, ReframeCanvas, RemoveLayer, RemoveSlice, ReplaceCelPixels, SetFrameDuration, SetLayerBlendMode, SetLayerName, SetLayerOpacity, SetLayerVisible, SetPixel, SetSliceKey, SetTilePixel, ShapeMode, ShapeStyle, TextAlign, TransformCanvas, TransformCel, BlendMode, Cel, CelData, CelKey, CelMap, ColorMode, Frame, FrameIndex, Layer, LayerId, LayerKind, Metadata, Palette, PaletteEntry, PathRef, PixelBuffer, Rgba, Slice, SliceId, SliceKey, Sprite, SpriteBuilder, Tag, TagDirection, TileImage, TileRef, Tileset, TilesetId, Point, Rect, DocumentError};




fn fixture(grid_w: u32, grid_h: u32) -> (Sprite, CelMap) {
    let sprite = Sprite::builder(grid_w * 8, grid_h * 8)
        .add_layer(Layer::tilemap(LayerId::new(1), "tm", TilesetId::new(0)))
        .add_frame(pincel_core::document::Frame::new(100))
        .build()
        .expect("sprite builds");
    let mut cels = CelMap::new();
    cels.insert(Cel::tilemap(
        LayerId::new(1),
        FrameIndex::new(0),
        grid_w,
        grid_h,
    ));
    (sprite, cels)
}

fn tile_at(cels: &CelMap, grid_w: u32, x: u32, y: u32) -> TileRef {
    let cel = cels
        .get(LayerId::new(1), FrameIndex::new(0))
        .expect("cel exists");
    match &cel.data {
        CelData::Tilemap { tiles, .. } => tiles[(y * grid_w + x) as usize],
        _ => panic!("expected tilemap cel"),
    }
}

#[test]
fn apply_writes_tile_and_records_previous() {
    let (mut sprite, mut cels) = fixture(3, 3);
    let mut cmd = PlaceTile::new(LayerId::new(1), FrameIndex::new(0), 1, 2, TileRef::new(7));
    cmd.apply(&mut sprite, &mut cels).expect("apply succeeds");
    assert_eq!(tile_at(&cels, 3, 1, 2), TileRef::new(7));
    assert_eq!(cmd.previous, Some(TileRef::empty()));
}

#[test]
fn revert_restores_previous_tile() {
    let (mut sprite, mut cels) = fixture(2, 2);
    // Pre-seed (0, 0) with a non-empty tile.
    if let Some(cel) = cels.get_mut(LayerId::new(1), FrameIndex::new(0)) {
        if let CelData::Tilemap { tiles, .. } = &mut cel.data {
            tiles[0] = TileRef::new(3);
        }
    }
    let mut cmd = PlaceTile::new(LayerId::new(1), FrameIndex::new(0), 0, 0, TileRef::new(9));
    cmd.apply(&mut sprite, &mut cels).expect("apply");
    assert_eq!(tile_at(&cels, 2, 0, 0), TileRef::new(9));
    cmd.revert(&mut sprite, &mut cels);
    assert_eq!(tile_at(&cels, 2, 0, 0), TileRef::new(3));
}

#[test]
fn place_tile_missing_cel_yields_error() {
    let (mut sprite, mut cels) = fixture(2, 2);
    let mut cmd = PlaceTile::new(LayerId::new(99), FrameIndex::new(0), 0, 0, TileRef::new(1));
    assert_eq!(
        cmd.apply(&mut sprite, &mut cels),
        Err(CommandError::MissingCel {
            layer: LayerId::new(99),
            frame: FrameIndex::new(0),
        })
    );
}

#[test]
fn image_cel_yields_not_a_tilemap_cel_error() {
    let sprite = Sprite::builder(8, 8)
        .add_layer(Layer::image(LayerId::new(1), "bg"))
        .add_frame(pincel_core::document::Frame::new(100))
        .build()
        .expect("sprite builds");
    let mut cels = CelMap::new();
    cels.insert(Cel::image(
        LayerId::new(1),
        FrameIndex::new(0),
        pincel_core::document::PixelBuffer::empty(8, 8, pincel_core::document::ColorMode::Rgba),
    ));
    let mut cmd = PlaceTile::new(LayerId::new(1), FrameIndex::new(0), 0, 0, TileRef::new(1));
    assert_eq!(
        cmd.apply(&mut sprite.clone(), &mut cels),
        Err(CommandError::NotATilemapCel {
            layer: LayerId::new(1),
            frame: FrameIndex::new(0),
        })
    );
}

#[test]
fn out_of_bounds_coord_yields_error() {
    let (mut sprite, mut cels) = fixture(2, 2);
    let mut cmd = PlaceTile::new(LayerId::new(1), FrameIndex::new(0), 5, 0, TileRef::new(1));
    assert_eq!(
        cmd.apply(&mut sprite, &mut cels),
        Err(CommandError::TileCoordOutOfBounds {
            x: 5,
            y: 0,
            grid_w: 2,
            grid_h: 2,
        })
    );
}

#[test]
fn does_not_merge_with_other_place_tile() {
    let mut a = PlaceTile::new(LayerId::new(1), FrameIndex::new(0), 0, 0, TileRef::new(1));
    let b = PlaceTile::new(LayerId::new(1), FrameIndex::new(0), 1, 0, TileRef::new(2));
    assert!(!a.merge(&b));
}

#[test]
fn malformed_tilemap_cel_is_refused_and_left_alone() {
    let (mut sprite, mut cels) = fixture(2, 2);
    if let Some(cel) = cels.get_mut(LayerId::new(1), FrameIndex::new(0)) {
        cel.data = CelData::Tilemap { grid_w: 2, grid_h: 2, tiles: vec![TileRef::empty()] };
    }
    let mut cmd = PlaceTile::new(LayerId::new(1), FrameIndex::new(0), 1, 1, TileRef::new(5));
    assert!(matches!(
        cmd.apply(&mut sprite, &mut cels),
        Err(CommandError::MalformedTilemapCel { grid_w: 2, grid_h: 2, tiles_len: 1, .. })
    ));
    let cel = cels.get(LayerId::new(1), FrameIndex::new(0)).unwrap();
    assert!(matches!(&cel.data, CelData::Tilemap { tiles, .. } if tiles.len() == 1));
    assert_eq!(cmd.previous, None);
}
