#![allow(unused_imports, dead_code)]
use pincel_core::{AddFrame, AddLayer, AddSlice, AddTile, AddTilemapLayer, AddTileset, Anchor, AnyCommand, Bus, ClearRegion, Command, CommandError, DirtyRegion, DrawEllipse, DrawLine, DrawRectangle, DuplicateLayer, FillRegion, Interpolation, MoveDirection, MoveLayer, MoveSelectionContent, Orientation, PlaceTile, ReframeCanvas, RemoveLayer, RemoveSlice, ReplaceCelPixels, SetFrameDuration, SetLayerBlendMode, SetLayerName, SetLayerOpacity, SetLayerVisible, SetPixel, SetSliceKey, SetTilePixel, ShapeMode, ShapeStyle, TextAlign, TransformCanvas, TransformCel, BlendMode, Cel, CelData, CelKey, CelMap, ColorMode, Frame, FrameIndex, Layer, LayerId, LayerKind, Metadata, Palette, PaletteEntry, PathRef, PixelBuffer, Rgba, Slice, SliceId, SliceKey, Sprite, SpriteBuilder, Tag, TagDirection, TileImage, TileRef, Tileset, TilesetId, Point, Rect, DocumentError};



#[test]
fn builder_constructs_minimal_sprite() {
    let s = Sprite::builder(64, 32)
        .build()
        .expect("minimal sprite should build");
    assert_eq!(s.width, 64);
    assert_eq!(s.height, 32);
    assert_eq!(s.color_mode, ColorMode::Rgba);
    assert!(s.layers.is_empty());
    assert!(s.frames.is_empty());
    assert!(s.palette.is_empty());
}

#[test]
fn builder_rejects_zero_dimensions() {
    assert_eq!(
        Sprite::builder(0, 16).build(),
        Err(DocumentError::InvalidDimensions {
            width: 0,
            height: 16
        })
    );
    assert_eq!(
        Sprite::builder(16, 0).build(),
        Err(DocumentError::InvalidDimensions {
            width: 16,
            height: 0
        })
    );
}

#[test]
fn builder_detects_duplicate_layer_ids() {
    let err = Sprite::builder(8, 8)
        .add_layer(Layer::image(LayerId::new(1), "bg"))
        .add_layer(Layer::image(LayerId::new(1), "fg"))
        .build()
        .expect_err("duplicate layer id should fail to build");
    assert_eq!(
        err,
        DocumentError::DuplicateId {
            kind: "layer",
            id: 1
        }
    );
}

#[test]
fn builder_detects_duplicate_tileset_ids() {
    let make_tileset = |id| Tileset {
        id: TilesetId::new(id),
        name: "t".into(),
        tile_size: (16, 16),
        tiles: Vec::new(),
        base_index: 1,
        external_file: None,
    };
    let err = Sprite::builder(8, 8)
        .add_tileset(make_tileset(3))
        .add_tileset(make_tileset(3))
        .build()
        .expect_err("duplicate tileset id should fail to build");
    assert_eq!(
        err,
        DocumentError::DuplicateId {
            kind: "tileset",
            id: 3
        }
    );
}

#[test]
fn builder_starts_without_a_selection() {
    let s = Sprite::builder(16, 16)
        .build()
        .expect("minimal sprite should build");
    assert_eq!(s.selection, None);
    assert!(!s.has_selection());
}

#[test]
fn set_selection_stores_the_rect() {
    let mut s = Sprite::builder(32, 32)
        .build()
        .expect("sprite should build");
    s.set_selection(Rect::new(4, 5, 10, 6));
    assert_eq!(s.selection, Some(Rect::new(4, 5, 10, 6)));
    assert!(s.has_selection());
}

#[test]
fn set_selection_replaces_an_existing_rect() {
    let mut s = Sprite::builder(32, 32)
        .build()
        .expect("sprite should build");
    s.set_selection(Rect::new(0, 0, 4, 4));
    s.set_selection(Rect::new(8, 8, 2, 3));
    assert_eq!(s.selection, Some(Rect::new(8, 8, 2, 3)));
}

#[test]
fn set_selection_with_empty_rect_clears() {
    let mut s = Sprite::builder(32, 32)
        .build()
        .expect("sprite should build");
    s.set_selection(Rect::new(2, 2, 5, 5));
    s.set_selection(Rect::new(2, 2, 0, 5));
    assert_eq!(s.selection, None);
    s.set_selection(Rect::new(2, 2, 5, 5));
    s.set_selection(Rect::new(2, 2, 5, 0));
    assert_eq!(s.selection, None);
    assert!(!s.has_selection());
}

#[test]
fn clear_selection_drops_the_rect() {
    let mut s = Sprite::builder(32, 32)
        .build()
        .expect("sprite should build");
    s.set_selection(Rect::new(1, 1, 2, 2));
    s.clear_selection();
    assert_eq!(s.selection, None);
}

#[test]
fn has_selection_treats_direct_empty_rect_assignment_as_no_selection() {
    // `selection` is `pub`, so a caller could bypass `set_selection`'s
    // empty-clears rule. `has_selection` is documented as defensive
    // against that, since downstream rendering and selection-aware
    // commands key off it.
    let mut s = Sprite::builder(16, 16)
        .build()
        .expect("sprite should build");
    s.selection = Some(Rect::new(2, 2, 0, 5));
    assert!(!s.has_selection());
    s.selection = Some(Rect::new(2, 2, 5, 0));
    assert!(!s.has_selection());
}

#[test]
fn selection_rect_may_extend_past_the_canvas() {
    // The model intentionally does not clip selections to the canvas;
    // whoever consumes the selection clips it on use.
    let mut s = Sprite::builder(8, 8).build().expect("sprite should build");
    s.set_selection(Rect::new(-4, -3, 100, 100));
    assert_eq!(s.selection, Some(Rect::new(-4, -3, 100, 100)));
}

#[test]
fn layer_lookup_returns_matching_layer() {
    let s = Sprite::builder(8, 8)
        .add_layer(Layer::image(LayerId::new(0), "bg"))
        .add_layer(Layer::image(LayerId::new(7), "fg"))
        .build()
        .expect("sprite should build");
    assert_eq!(
        s.layer(LayerId::new(0)).map(|l| l.name.as_str()),
        Some("bg")
    );
    assert_eq!(
        s.layer(LayerId::new(7)).map(|l| l.name.as_str()),
        Some("fg")
    );
    assert!(s.layer(LayerId::new(99)).is_none());
}

#[test]
fn layer_mut_lets_callers_rename() {
    let mut s = Sprite::builder(8, 8)
        .add_layer(Layer::image(LayerId::new(0), "bg"))
        .build()
        .expect("sprite should build");
    s.layer_mut(LayerId::new(0)).expect("present").name = "main".into();
    assert_eq!(s.layers[0].name, "main");
}

#[test]
fn tileset_lookup_returns_matching_tileset() {
    let s = Sprite::builder(16, 16)
        .add_tileset(Tileset::new(TilesetId::new(0), "ground", (8, 8)))
        .add_tileset(Tileset::new(TilesetId::new(5), "decor", (16, 16)))
        .build()
        .expect("sprite should build");
    assert_eq!(
        s.tileset(TilesetId::new(0)).map(|t| t.name.as_str()),
        Some("ground")
    );
    assert_eq!(
        s.tileset(TilesetId::new(5)).map(|t| t.tile_size),
        Some((16, 16))
    );
    assert!(s.tileset(TilesetId::new(99)).is_none());
}

#[test]
fn tileset_mut_lets_callers_push_tiles() {

    let mut s = Sprite::builder(8, 8)
        .add_tileset(Tileset::new(TilesetId::new(0), "t", (8, 8)))
        .build()
        .expect("sprite should build");
    let t = s.tileset_mut(TilesetId::new(0)).expect("present");
    t.tiles.push(TileImage {
        pixels: PixelBuffer::empty(8, 8, ColorMode::Rgba),
    });
    assert_eq!(s.tilesets[0].tile_count(), 1);
}

#[test]
fn builder_assembles_full_document() {
    let tileset = Tileset {
        id: TilesetId::new(1),
        name: "tiles".into(),
        tile_size: (16, 16),
        tiles: Vec::new(),
        base_index: 1,
        external_file: None,
    };
    let s = Sprite::builder(32, 32)
        .color_mode(ColorMode::Indexed {
            transparent_index: 0,
        })
        .add_layer(Layer::image(LayerId::new(0), "bg"))
        .add_layer(Layer::tilemap(LayerId::new(1), "tiles", TilesetId::new(1)))
        .add_frame(Frame::new(100))
        .add_frame(Frame::new(120))
        .palette(Palette::from_entries(vec![
            PaletteEntry::new(Rgba::transparent()),
            PaletteEntry::with_name(Rgba::white(), "ink"),
        ]))
        .add_tileset(tileset)
        .add_tag(Tag::new("idle", FrameIndex::new(0), FrameIndex::new(1)))
        .build()
        .expect("full sprite should build");
    assert_eq!(s.layers.len(), 2);
    assert_eq!(s.frames.len(), 2);
    assert_eq!(s.palette.len(), 2);
    assert_eq!(s.tilesets.len(), 1);
    assert_eq!(s.tags.len(), 1);
    assert_eq!(
        s.color_mode,
        ColorMode::Indexed {
            transparent_index: 0
        }
    );
}
