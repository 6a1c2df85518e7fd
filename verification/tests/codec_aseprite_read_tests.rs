use pincel_core::codec::ase_scan::has_refused_user_data;
use pincel_core::codec::aseprite_read::{
    map_blend_mode, map_color_mode, map_tag_direction, AseBlendMode, AseCel, AseCelContent, AseDepth,
    AseDirection, AseHeader, AseLayer, AseLayerKind, AseTag, AseTileset, AseTilemap,
};
use pincel_core::codec::error::CodecError;
use pincel_core::{
    assemble_aseprite, read_aseprite, try_read_aseprite, BlendMode, CelData, ColorMode,
    FrameIndex, LayerId, LayerKind, TagDirection, TilesetId,
};

/// A zlib stream holding `data` in one stored (uncompressed) block.
fn zlib_stored(data: &[u8]) -> Vec<u8> {
    let mut out = vec![0x78, 0x01, 0x01];
    let len = data.len() as u16;
    out.extend_from_slice(&len.to_le_bytes());
    out.extend_from_slice(&(!len).to_le_bytes());
    out.extend_from_slice(data);
    let (mut a, mut b) = (1u32, 0u32);
    for &byte in data {
        a = (a + byte as u32) % 65521;
        b = (b + a) % 65521;
    }
    out.extend_from_slice(&((b << 16) | a).to_be_bytes());
    out
}

fn header(width: u16, height: u16, frames: usize) -> AseHeader {
    AseHeader { width, height, depth: AseDepth::Rgba, palette: None, durations: vec![100; frames] }
}

fn layer(kind: AseLayerKind, child_level: u16, name: &str) -> AseLayer {
    AseLayer {
        kind,
        child_level,
        tileset_index: None,
        name: name.to_string(),
        visible: true,
        editable: true,
        opacity: 255,
    }
}

fn raw_image(x: i16, y: i16, width: u16, height: u16, data: Vec<u8>) -> AseCel {
    AseCel {
        layer_index: 0,
        x,
        y,
        opacity: 255,
        content: AseCelContent::Image { width, height, data, compressed: false },
    }
}

#[test]
fn empty_byte_slice_returns_parse_error() {
    let err = read_aseprite(&[]).unwrap_err();
    assert!(matches!(err, CodecError::Parse(_)), "expected parse error, got {err:?}");
}

#[test]
fn map_color_mode_only_accepts_rgba() {
    assert_eq!(map_color_mode(AseDepth::Rgba).unwrap(), ColorMode::Rgba);
    assert!(matches!(map_color_mode(AseDepth::Indexed), Err(CodecError::UnsupportedColorMode)));
    assert!(matches!(map_color_mode(AseDepth::Grayscale), Err(CodecError::UnsupportedColorMode)));
    assert!(matches!(map_color_mode(AseDepth::Unknown(99)), Err(CodecError::UnsupportedColorMode)));
}

#[test]
fn map_blend_mode_round_trips_known_values() {
    assert_eq!(map_blend_mode(AseBlendMode::Normal).unwrap(), BlendMode::Normal);
    assert_eq!(map_blend_mode(AseBlendMode::Divide).unwrap(), BlendMode::Divide);
    assert!(matches!(
        map_blend_mode(AseBlendMode::Unknown(0x1337)),
        Err(CodecError::UnsupportedBlendMode { mode: 0x1337 })
    ));
}

#[test]
fn map_tag_direction_maps_known_variants() {
    assert_eq!(map_tag_direction(AseDirection::Forward), TagDirection::Forward);
    assert_eq!(map_tag_direction(AseDirection::Reverse), TagDirection::Reverse);
    assert_eq!(map_tag_direction(AseDirection::PingPong), TagDirection::Pingpong);
    assert_eq!(map_tag_direction(AseDirection::PingPongReverse), TagDirection::PingpongReverse);
    assert_eq!(map_tag_direction(AseDirection::Unknown(9)), TagDirection::Forward);
}

#[test]
fn try_read_aseprite_reports_the_parse_error_of_garbage() {
    match try_read_aseprite(&[1, 2, 3]) {
        Some(Err(CodecError::Parse(_))) => {}
        other => panic!("expected a parse error, got {other:?}"),
    }
}

#[test]
fn assemble_rebuilds_group_parents_from_child_levels() {
    let layers = vec![
        layer(AseLayerKind::Group, 0, "g"),
        layer(AseLayerKind::Normal, 1, "inner"),
        layer(AseLayerKind::Normal, 0, "top"),
    ];
    let blends = vec![AseBlendMode::Normal, AseBlendMode::Multiply, AseBlendMode::Screen];
    let out = assemble_aseprite(
        &header(2, 2, 1),
        &layers,
        &blends,
        &vec![vec![None, None, None]],
        &vec![],
        &vec![],
        &Ok(vec![]),
    )
    .expect("reads");
    let ls = &out.sprite.layers;
    assert_eq!(ls.len(), 3);
    assert_eq!(ls[0].kind, LayerKind::Group);
    assert_eq!(ls[1].parent, Some(LayerId::new(0)));
    assert_eq!(ls[1].blend_mode, BlendMode::Multiply);
    assert_eq!(ls[2].parent, None);
    assert_eq!(ls[2].id, LayerId::new(2));
}

#[test]
fn assemble_reports_an_unknown_blend_mode_with_its_code() {
    let err = assemble_aseprite(
        &header(2, 2, 1),
        &vec![layer(AseLayerKind::Normal, 0, "a")],
        &vec![AseBlendMode::Unknown(77)],
        &vec![vec![None]],
        &vec![],
        &vec![],
        &Ok(vec![]),
    )
    .unwrap_err();
    assert!(matches!(err, CodecError::UnsupportedBlendMode { mode: 77 }));
}

#[test]
fn assemble_reports_a_tilemap_layer_without_tileset_index() {
    let err = assemble_aseprite(
        &header(2, 2, 1),
        &vec![layer(AseLayerKind::Tilemap, 0, "tiles")],
        &vec![AseBlendMode::Normal],
        &vec![vec![None]],
        &vec![],
        &vec![],
        &Ok(vec![]),
    )
    .unwrap_err();
    match err {
        CodecError::TilemapLayerMissingTilesetIndex { name } => assert_eq!(name, "tiles"),
        other => panic!("unexpected error: {other:?}"),
    }
}

#[test]
fn assemble_refuses_indexed_files() {
    let mut h = header(2, 2, 1);
    h.depth = AseDepth::Indexed;
    let err = assemble_aseprite(&h, &vec![], &vec![], &vec![vec![]], &vec![], &vec![], &Ok(vec![]))
        .unwrap_err();
    assert!(matches!(err, CodecError::UnsupportedColorMode));
}

#[test]
fn assemble_reads_raw_and_linked_cels() {
    let pixels: Vec<u8> = (0u8..20).collect();
    let mut linked = raw_image(0, 0, 1, 1, vec![]);
    linked.content = AseCelContent::Linked(0);
    let out = assemble_aseprite(
        &header(4, 4, 2),
        &vec![layer(AseLayerKind::Normal, 0, "L")],
        &vec![AseBlendMode::Normal],
        &vec![vec![Some(raw_image(-1, 2, 2, 2, pixels.clone()))], vec![Some(linked)]],
        &vec![],
        &vec![AseTag {
            from: 0,
            to: 1,
            direction: AseDirection::Reverse,
            repeat: 3,
            name: "walk".to_string(),
        }],
        &Ok(vec![]),
    )
    .expect("reads");
    assert_eq!(out.sprite.frames.len(), 2);
    assert_eq!(out.sprite.tags[0].direction, TagDirection::Reverse);
    assert_eq!(out.sprite.tags[0].repeats, 3);
    let first = out.cels.get(LayerId::new(0), FrameIndex::new(0)).expect("cel at frame 0");
    assert_eq!(first.position, (-1, 2));
    match &first.data {
        CelData::Image(b) => assert_eq!(b.data, pixels[..16].to_vec()),
        other => panic!("expected an image, got {other:?}"),
    }
    let second = out.cels.get(LayerId::new(0), FrameIndex::new(1)).expect("cel at frame 1");
    assert!(matches!(second.data, CelData::Linked(FrameIndex(0))));
}

#[test]
fn assemble_reports_a_short_raw_payload() {
    let err = assemble_aseprite(
        &header(4, 4, 1),
        &vec![layer(AseLayerKind::Normal, 0, "L")],
        &vec![AseBlendMode::Normal],
        &vec![vec![Some(raw_image(0, 0, 2, 2, vec![0; 3]))]],
        &vec![],
        &vec![],
        &Ok(vec![]),
    )
    .unwrap_err();
    match err {
        CodecError::Image(m) => assert_eq!(m, "raw cel pixel payload 3 bytes < expected 16 bytes"),
        other => panic!("unexpected error: {other:?}"),
    }
}

#[test]
fn assemble_reports_a_link_past_the_last_frame() {
    let mut linked = raw_image(0, 0, 1, 1, vec![]);
    linked.content = AseCelContent::Linked(5);
    let err = assemble_aseprite(
        &header(4, 4, 1),
        &vec![layer(AseLayerKind::Normal, 0, "L")],
        &vec![AseBlendMode::Normal],
        &vec![vec![Some(linked)]],
        &vec![],
        &vec![],
        &Ok(vec![]),
    )
    .unwrap_err();
    assert!(matches!(err, CodecError::LinkedFrameNotFound { index: 5 }));
}

#[test]
fn assemble_inflates_compressed_image_cels() {
    let pixels: Vec<u8> = (10u8..26).collect();
    let mut cel = raw_image(0, 0, 2, 2, zlib_stored(&pixels));
    if let AseCelContent::Image { compressed, .. } = &mut cel.content {
        *compressed = true;
    }
    let out = assemble_aseprite(
        &header(4, 4, 1),
        &vec![layer(AseLayerKind::Normal, 0, "L")],
        &vec![AseBlendMode::Normal],
        &vec![vec![Some(cel)]],
        &vec![],
        &vec![],
        &Ok(vec![]),
    )
    .expect("reads");
    let cel = out.cels.get(LayerId::new(0), FrameIndex::new(0)).expect("cel");
    match &cel.data {
        CelData::Image(b) => assert_eq!(b.data, pixels),
        other => panic!("expected an image, got {other:?}"),
    }
}

#[test]
fn assemble_decodes_tilemap_cels_with_their_masks() {
    let words: [u32; 2] = [0x8000_0005, 0x2000_0003];
    let mut raw = Vec::new();
    for w in words {
        raw.extend_from_slice(&w.to_le_bytes());
    }
    let mut cel = raw_image(0, 0, 1, 1, vec![]);
    cel.content = AseCelContent::Tilemap;
    let tm = AseTilemap {
        width: 2,
        height: 1,
        bits_per_tile: 32,
        tile_id_mask: 0x1fff_ffff,
        x_flip_mask: 0x2000_0000,
        y_flip_mask: 0x4000_0000,
        diagonal_flip_mask: 0x8000_0000,
        data: zlib_stored(&raw),
    };
    let mut l = layer(AseLayerKind::Tilemap, 0, "tiles");
    l.tileset_index = Some(0);
    let out = assemble_aseprite(
        &header(4, 4, 1),
        &vec![l],
        &vec![AseBlendMode::Normal],
        &vec![vec![Some(cel)]],
        &vec![vec![Some(tm)]],
        &vec![],
        &Ok(vec![vec![None, Some(AseTileset {
            id: 0,
            has_tiles: false,
            external_file: false,
            number_of_tiles: 0,
            width: 8,
            height: 8,
            base_index: 1,
            name: "ts".to_string(),
            tiles: None,
        })]]),
    )
    .expect("reads");
    assert_eq!(out.sprite.tilesets[0].id, TilesetId::new(0));
    assert!(out.sprite.tilesets[0].tiles.is_empty());
    let cel = out.cels.get(LayerId::new(0), FrameIndex::new(0)).expect("cel");
    match &cel.data {
        CelData::Tilemap { grid_w, grid_h, tiles } => {
            assert_eq!((*grid_w, *grid_h), (2, 1));
            assert_eq!(tiles[0].tile_id, 5);
            assert!(tiles[0].rotate_90 && !tiles[0].flip_x);
            assert_eq!(tiles[1].tile_id, 3);
            assert!(tiles[1].flip_x && !tiles[1].rotate_90);
        }
        other => panic!("expected a tilemap, got {other:?}"),
    }
}

#[test]
fn assemble_splits_inline_tileset_images() {
    let block: Vec<u8> = (0u8..8).collect();
    let out = assemble_aseprite(
        &header(4, 4, 1),
        &vec![],
        &vec![],
        &vec![vec![]],
        &vec![],
        &vec![],
        &Ok(vec![vec![None, Some(AseTileset {
            id: 3,
            has_tiles: true,
            external_file: false,
            number_of_tiles: 2,
            width: 1,
            height: 1,
            base_index: 1,
            name: "ts".to_string(),
            tiles: Some(zlib_stored(&block)),
        })]]),
    )
    .expect("reads");
    let ts = &out.sprite.tilesets[0];
    assert_eq!(ts.tiles.len(), 2);
    assert_eq!(ts.tiles[1].pixels.data, vec![4, 5, 6, 7]);
}

#[test]
fn assemble_refuses_external_file_tilesets() {
    let err = assemble_aseprite(
        &header(4, 4, 1),
        &vec![],
        &vec![],
        &vec![vec![]],
        &vec![],
        &vec![],
        &Ok(vec![vec![None, Some(AseTileset {
            id: 9,
            has_tiles: false,
            external_file: true,
            number_of_tiles: 0,
            width: 8,
            height: 8,
            base_index: 1,
            name: "ts".to_string(),
            tiles: None,
        })]]),
    )
    .unwrap_err();
    assert!(matches!(err, CodecError::TilesetUnsupported { id: 9, .. }));
}

#[test]
fn assemble_reports_bad_zlib_data() {
    let mut cel = raw_image(0, 0, 1, 1, vec![1, 2, 3]);
    if let AseCelContent::Image { compressed, .. } = &mut cel.content {
        *compressed = true;
    }
    let err = assemble_aseprite(
        &header(4, 4, 1),
        &vec![layer(AseLayerKind::Normal, 0, "L")],
        &vec![AseBlendMode::Normal],
        &vec![vec![Some(cel)]],
        &vec![],
        &vec![],
        &Ok(vec![]),
    )
    .unwrap_err();
    match err {
        CodecError::Image(m) => assert_eq!(m, "DecompressError"),
        other => panic!("unexpected error: {other:?}"),
    }
}

/// A 128-byte header and one frame holding one user-data chunk whose
/// properties block claims `props_size` bytes.
fn file_with_user_data(props_size: u32) -> Vec<u8> {
    let mut chunk: Vec<u8> = Vec::new();
    chunk.extend_from_slice(&18u32.to_le_bytes());
    chunk.extend_from_slice(&0x2020u16.to_le_bytes());
    chunk.extend_from_slice(&4u32.to_le_bytes());
    chunk.extend_from_slice(&props_size.to_le_bytes());
    chunk.extend_from_slice(&0u32.to_le_bytes());
    let mut bytes = vec![0u8; 128];
    bytes.extend_from_slice(&(4u32 + 12 + chunk.len() as u32).to_le_bytes());
    bytes.extend_from_slice(&0xF1FAu16.to_le_bytes());
    bytes.extend_from_slice(&1u16.to_le_bytes());
    bytes.extend_from_slice(&100u16.to_le_bytes());
    bytes.extend_from_slice(&[0, 0]);
    bytes.extend_from_slice(&0u32.to_le_bytes());
    bytes.extend_from_slice(&chunk);
    bytes
}

#[test]
fn user_data_properties_block_below_eight_is_found_by_the_scan() {
    assert!(has_refused_user_data(&file_with_user_data(4)));
    assert!(!has_refused_user_data(&file_with_user_data(8)));
    assert!(!has_refused_user_data(&[0u8; 100]));
}

#[test]
fn try_read_aseprite_declines_a_user_data_block_below_eight() {
    assert!(try_read_aseprite(&file_with_user_data(4)).is_none());
    assert!(try_read_aseprite(&file_with_user_data(8)).is_some());
}

/// A parseable header and one frame holding one user-data chunk whose
/// properties block is `block` (block head included).
fn parseable_file_with_block(block: &[u8]) -> Vec<u8> {
    let mut chunk: Vec<u8> = Vec::new();
    chunk.extend_from_slice(&(4u32 + 2 + 4 + block.len() as u32).to_le_bytes());
    chunk.extend_from_slice(&0x2020u16.to_le_bytes());
    chunk.extend_from_slice(&4u32.to_le_bytes());
    chunk.extend_from_slice(block);
    let mut header = vec![0u8; 128];
    header[4..6].copy_from_slice(&0xA5E0u16.to_le_bytes());
    header[6..8].copy_from_slice(&1u16.to_le_bytes());
    header[8..10].copy_from_slice(&4u16.to_le_bytes());
    header[10..12].copy_from_slice(&4u16.to_le_bytes());
    header[12..14].copy_from_slice(&32u16.to_le_bytes());
    let mut bytes = header;
    bytes.extend_from_slice(&(4u32 + 12 + chunk.len() as u32).to_le_bytes());
    bytes.extend_from_slice(&0xF1FAu16.to_le_bytes());
    bytes.extend_from_slice(&1u16.to_le_bytes());
    bytes.extend_from_slice(&100u16.to_le_bytes());
    bytes.extend_from_slice(&[0, 0]);
    bytes.extend_from_slice(&0u32.to_le_bytes());
    bytes.extend_from_slice(&chunk);
    let len = bytes.len() as u32;
    bytes[0..4].copy_from_slice(&len.to_le_bytes());
    bytes
}

/// A properties block of `size` bytes holding one map with one property: a
/// vector of vectors nested as deep as the block allows.
fn nested_vector_block(size: u32) -> Vec<u8> {
    let mut block: Vec<u8> = Vec::new();
    block.extend_from_slice(&size.to_le_bytes());
    block.extend_from_slice(&1u32.to_le_bytes());
    block.extend_from_slice(&0u32.to_le_bytes());
    block.extend_from_slice(&1u32.to_le_bytes());
    block.extend_from_slice(&0u16.to_le_bytes());
    block.extend_from_slice(&0x11u16.to_le_bytes());
    while block.len() + 12 <= size as usize {
        block.extend_from_slice(&1u32.to_le_bytes());
        block.extend_from_slice(&0x11u16.to_le_bytes());
    }
    block.extend_from_slice(&0u32.to_le_bytes());
    block.extend_from_slice(&0x11u16.to_le_bytes());
    block.resize(size as usize, 0);
    block
}

#[test]
fn properties_block_larger_than_the_depth_bound_is_refused() {
    assert!(!has_refused_user_data(&file_with_user_data(1544)));
    assert!(has_refused_user_data(&file_with_user_data(1545)));
    assert!(try_read_aseprite(&parseable_file_with_block(&nested_vector_block(1545))).is_none());
}

#[test]
fn nesting_as_deep_as_the_bound_allows_parses_without_trouble() {
    let bytes = parseable_file_with_block(&nested_vector_block(1544));
    assert!(!has_refused_user_data(&bytes));
    assert!(try_read_aseprite(&bytes).is_some());
}
