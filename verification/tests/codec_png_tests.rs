use pincel_core::codec::png::{
    assemble_atlas, atlas_grid, atlas_png, encode_rgba8, finish_atlas, plan_atlas, AtlasGrid, AtlasOutput,
};
use pincel_core::codec::png::{AtlasFrame, AtlasManifest, AtlasOptions};
use pincel_core::codec::png::{select_frames, tag_for_frame, ExportError};
use pincel_core::{Frame, FrameIndex, Layer, LayerId, Sprite, Tag};

#[test]
fn manifest_to_json_emits_camel_case_keys_and_null_tags() {
    let manifest = AtlasManifest {
        width: 4,
        height: 2,
        columns: 2,
        rows: 1,
        frame_width: 2,
        frame_height: 2,
        frames: vec![
            AtlasFrame {
                frame: FrameIndex::new(0),
                x: 0,
                y: 0,
                w: 2,
                h: 2,
                tag: Some("walk".to_string()),
            },
            AtlasFrame {
                frame: FrameIndex::new(1),
                x: 2,
                y: 0,
                w: 2,
                h: 2,
                tag: None,
            },
        ],
    };
    assert_eq!(
        manifest.to_json(),
        "{\"width\":4,\"height\":2,\"columns\":2,\"rows\":1,\
         \"frameWidth\":2,\"frameHeight\":2,\"frames\":[\
         {\"frame\":0,\"x\":0,\"y\":0,\"w\":2,\"h\":2,\"tag\":\"walk\"},\
         {\"frame\":1,\"x\":2,\"y\":0,\"w\":2,\"h\":2,\"tag\":null}]}"
    );
}

#[test]
fn atlas_options_with_tag_sets_the_filter() {
    let opts = AtlasOptions::new(3).with_tag("run");
    assert_eq!(opts.columns, 3);
    assert_eq!(opts.tag.as_deref(), Some("run"));
}

#[test]
fn manifest_to_json_escapes_tag_names_and_writes_multi_digit_numbers() {
    let manifest = AtlasManifest {
        width: 1024,
        height: 70,
        columns: 1,
        rows: 1,
        frame_width: 1024,
        frame_height: 70,
        frames: vec![AtlasFrame {
            frame: FrameIndex::new(12),
            x: 0,
            y: 0,
            w: 1024,
            h: 70,
            tag: Some("a\"b\\c\nd\u{1}\u{1f}\té".to_string()),
        }],
    };
    let json = manifest.to_json();
    assert!(json.starts_with("{\"width\":1024,\"height\":70,"), "{json}");
    assert!(json.contains("\"frame\":12,"), "{json}");
    assert!(
        json.contains("\"tag\":\"a\\\"b\\\\c\\nd\\u0001\\u001f\\té\""),
        "unescaped JSON: {json}"
    );
}

#[test]
fn manifest_to_json_with_no_frames_has_an_empty_array() {
    let manifest = AtlasManifest {
        width: 0,
        height: 0,
        columns: 1,
        rows: 0,
        frame_width: 3,
        frame_height: 2,
        frames: Vec::new(),
    };
    assert_eq!(
        manifest.to_json(),
        "{\"width\":0,\"height\":0,\"columns\":1,\"rows\":0,\"frameWidth\":3,\"frameHeight\":2,\"frames\":[]}"
    );
}

#[test]
fn select_frames_without_tag_lists_every_frame() {
    let sprite = Sprite::builder(2, 2)
        .add_frame(Frame::new(100))
        .add_frame(Frame::new(100))
        .add_frame(Frame::new(100))
        .build()
        .unwrap();
    let frames = select_frames(&sprite, None).unwrap();
    assert_eq!(frames, vec![FrameIndex::new(0), FrameIndex::new(1), FrameIndex::new(2)]);
}

fn tagged_sprite(frames: usize, tags: Vec<Tag>) -> Sprite {
    let mut b = Sprite::builder(2, 2);
    for _ in 0..frames {
        b = b.add_frame(Frame::new(100));
    }
    for t in tags {
        b = b.add_tag(t);
    }
    b.build().unwrap()
}

#[test]
fn select_frames_with_tag_lists_only_that_tags_frames() {
    let sprite = tagged_sprite(
        4,
        vec![
            Tag::new("idle", FrameIndex::new(0), FrameIndex::new(1)),
            Tag::new("walk", FrameIndex::new(2), FrameIndex::new(3)),
        ],
    );
    let frames = select_frames(&sprite, Some("walk")).unwrap();
    assert_eq!(frames, vec![FrameIndex::new(2), FrameIndex::new(3)]);
}

#[test]
fn select_frames_rejects_unknown_tag() {
    let sprite = tagged_sprite(2, vec![]);
    match select_frames(&sprite, Some("nope")) {
        Err(ExportError::TagNotFound { name }) => assert_eq!(name, "nope"),
        other => panic!("unexpected result: {other:?}"),
    }
}

#[test]
fn select_frames_rejects_tag_range_past_last_frame() {
    let sprite = tagged_sprite(2, vec![Tag::new("walk", FrameIndex::new(1), FrameIndex::new(5))]);
    match select_frames(&sprite, Some("walk")) {
        Err(ExportError::TagRangeInvalid { name, from, to, frames }) => {
            assert_eq!(name, "walk");
            assert_eq!((from, to, frames), (1, 5, 2));
        }
        other => panic!("unexpected result: {other:?}"),
    }
}

#[test]
fn select_frames_of_a_frameless_sprite_is_empty() {
    let sprite = tagged_sprite(0, vec![]);
    assert!(select_frames(&sprite, None).unwrap().is_empty());
}

#[test]
fn tag_for_frame_picks_the_first_covering_tag() {
    let sprite = tagged_sprite(
        4,
        vec![
            Tag::new("all", FrameIndex::new(0), FrameIndex::new(3)),
            Tag::new("walk", FrameIndex::new(2), FrameIndex::new(3)),
        ],
    );
    assert_eq!(tag_for_frame(&sprite, FrameIndex::new(2)), Some("all"));
    let untagged = tagged_sprite(2, vec![Tag::new("walk", FrameIndex::new(1), FrameIndex::new(1))]);
    assert_eq!(tag_for_frame(&untagged, FrameIndex::new(0)), None);
}

#[test]
fn atlas_grid_clamps_columns_and_places_cells_row_by_row() {
    let g = atlas_grid(5, 3, 16, 8).unwrap();
    assert_eq!(
        g,
        AtlasGrid { columns: 3, rows: 2, frame_width: 16, frame_height: 8, width: 48, height: 16 }
    );
    assert_eq!(g.cell_origin(0), (0, 0));
    assert_eq!(g.cell_origin(2), (32, 0));
    assert_eq!(g.cell_origin(4), (16, 8));
    let wide = atlas_grid(3, 10, 4, 4).unwrap();
    assert_eq!((wide.columns, wide.rows, wide.width, wide.height), (3, 1, 12, 4));
}

#[test]
fn atlas_grid_refuses_zero_columns_no_frames_and_oversize() {
    assert!(matches!(atlas_grid(4, 0, 8, 8), Err(ExportError::InvalidColumns)));
    assert!(matches!(atlas_grid(0, 2, 8, 8), Err(ExportError::NoFrames)));
    assert!(matches!(
        atlas_grid(2, 2, u32::MAX, 1),
        Err(ExportError::AtlasTooLarge { width, height: 1 }) if width == 2 * (u32::MAX as u64)
    ));
}

/// Decode a PNG file into its width, height and RGBA8 pixels.
fn decode_png(bytes: &[u8]) -> (u32, u32, Vec<u8>) {
    let decoder = png::Decoder::new(std::io::Cursor::new(bytes));
    let mut reader = decoder.read_info().expect("png header decodes");
    let mut buf = vec![0; reader.output_buffer_size().expect("size fits")];
    let info = reader.next_frame(&mut buf).expect("png frame decodes");
    buf.truncate(info.buffer_size());
    (info.width, info.height, buf)
}

/// A `w × h` frame whose every pixel is `[v, v, v, 255]`.
fn flat_frame(w: usize, h: usize, v: u8) -> Vec<u8> {
    (0..w * h).flat_map(|_| [v, v, v, 255]).collect()
}

#[test]
fn assemble_atlas_places_frames_row_by_row_and_leaves_trailing_cells_clear() {
    let grid = atlas_grid(3, 2, 2, 2).expect("grid fits");
    let frames = vec![flat_frame(2, 2, 10), flat_frame(2, 2, 20), flat_frame(2, 2, 30)];
    let atlas = assemble_atlas(&grid, &frames);
    assert_eq!((grid.width, grid.height), (4, 4));
    assert_eq!(atlas.len(), 4 * 4 * 4);
    let px = |x: usize, y: usize| atlas[(y * 4 + x) * 4..(y * 4 + x) * 4 + 4].to_vec();
    assert_eq!(px(0, 0), vec![10, 10, 10, 255]);
    assert_eq!(px(1, 1), vec![10, 10, 10, 255]);
    assert_eq!(px(2, 0), vec![20, 20, 20, 255]);
    assert_eq!(px(3, 1), vec![20, 20, 20, 255]);
    assert_eq!(px(0, 2), vec![30, 30, 30, 255]);
    assert_eq!(px(1, 3), vec![30, 30, 30, 255]);
    assert_eq!(px(2, 2), vec![0, 0, 0, 0]);
    assert_eq!(px(3, 3), vec![0, 0, 0, 0]);
}

#[test]
fn assemble_atlas_keeps_each_pixel_in_its_place_within_the_cell() {
    let grid = atlas_grid(2, 2, 2, 1).expect("grid fits");
    let frames = vec![vec![1, 2, 3, 4, 5, 6, 7, 8], vec![9, 10, 11, 12, 13, 14, 15, 16]];
    assert_eq!(assemble_atlas(&grid, &frames), (1..=16).collect::<Vec<u8>>());
}

#[test]
fn atlas_png_decodes_to_the_assembled_pixels() {
    let grid = atlas_grid(3, 2, 2, 2).expect("grid fits");
    let frames = vec![flat_frame(2, 2, 10), flat_frame(2, 2, 20), flat_frame(2, 2, 30)];
    let bytes = atlas_png(&grid, &frames).expect("encodes");
    assert_eq!(&bytes[..8], &[0x89, b'P', b'N', b'G', 0x0D, 0x0A, 0x1A, 0x0A]);
    let (w, h, pixels) = decode_png(&bytes);
    assert_eq!((w, h), (4, 4));
    assert_eq!(pixels, assemble_atlas(&grid, &frames));
}

#[test]
fn encode_rgba8_round_trips_a_single_pixel() {
    let bytes = encode_rgba8(&[10, 20, 30, 255], 1, 1).expect("encodes");
    assert_eq!(decode_png(&bytes), (1, 1, vec![10, 20, 30, 255]));
}

#[test]
fn encode_rgba8_reports_the_encoders_complaints() {
    assert!(matches!(encode_rgba8(&[], 0, 1), Err(ExportError::Encode(_))));
    assert!(matches!(encode_rgba8(&[1, 2, 3], 1, 1), Err(ExportError::Encode(_))));
}

/// A `w × h` sprite with one image layer and `frames` frames; the layer's
/// cel on frame `i` is a solid `[10 + 10 i, 20, 30, 255]`, so a frame
/// composes to exactly that cel's pixels.
fn striped(w: u32, h: u32, frames: u32, tags: Vec<Tag>) -> (Sprite, Vec<Vec<u8>>) {
    let mut b = Sprite::builder(w, h).add_layer(Layer::image(LayerId::new(0), "art"));
    for _ in 0..frames {
        b = b.add_frame(Frame::new(100));
    }
    for t in tags {
        b = b.add_tag(t);
    }
    let shades = (0..frames)
        .map(|i| {
            let shade = u8::try_from(10 + i * 10).unwrap_or(u8::MAX);
            (0..w * h).flat_map(|_| [shade, 20, 30, 255]).collect()
        })
        .collect();
    (b.build().expect("sprite builds"), shades)
}

/// Plan the atlas, then finish it with the composed pixels of the planned
/// frames.
fn export(sprite: &Sprite, shades: &[Vec<u8>], opts: &AtlasOptions) -> Result<AtlasOutput, ExportError> {
    let (frames, grid) = plan_atlas(sprite, opts)?;
    let composed: Vec<Vec<u8>> = frames.iter().map(|f| shades[f.0 as usize].clone()).collect();
    finish_atlas(sprite, opts, &frames, &grid, &composed)
}

fn cell_of(atlas: &[u8], atlas_w: u32, cell_w: u32, cell_h: u32, col: u32, row: u32) -> Vec<u8> {
    let mut out = Vec::new();
    for y in 0..cell_h {
        let start = (((row * cell_h + y) * atlas_w + col * cell_w) * 4) as usize;
        out.extend_from_slice(&atlas[start..start + (cell_w * 4) as usize]);
    }
    out
}

#[test]
fn planned_atlas_packs_four_frames_into_two_by_two_grid() {
    let (sprite, shades) = striped(3, 2, 4, Vec::new());
    let out = export(&sprite, &shades, &AtlasOptions::new(2)).expect("export succeeds");
    assert_eq!(&out.png[..8], &[0x89, b'P', b'N', b'G', 0x0D, 0x0A, 0x1A, 0x0A]);
    assert_eq!((out.manifest.columns, out.manifest.rows), (2, 2));
    assert_eq!((out.manifest.width, out.manifest.height), (6, 4));
    assert_eq!((out.manifest.frame_width, out.manifest.frame_height), (3, 2));
    let expected_rects = [(0, 0), (3, 0), (0, 2), (3, 2)];
    assert_eq!(out.manifest.frames.len(), 4);
    let (w, h, pixels) = decode_png(&out.png);
    assert_eq!((w, h), (6, 4));
    for (i, entry) in out.manifest.frames.iter().enumerate() {
        let (x, y) = expected_rects[i];
        assert_eq!(entry.frame, FrameIndex::new(i as u32));
        assert_eq!((entry.x, entry.y, entry.w, entry.h), (x, y, 3, 2));
        assert_eq!(entry.tag, None);
        assert_eq!(cell_of(&pixels, w, 3, 2, x / 3, y / 2), shades[i]);
    }
}

#[test]
fn planned_atlas_leaves_unused_trailing_cells_transparent() {
    let (sprite, shades) = striped(2, 2, 3, Vec::new());
    let out = export(&sprite, &shades, &AtlasOptions::new(2)).expect("export succeeds");
    assert_eq!((out.manifest.columns, out.manifest.rows), (2, 2));
    assert_eq!(out.manifest.frames.len(), 3);
    let (w, _h, pixels) = decode_png(&out.png);
    assert!(cell_of(&pixels, w, 2, 2, 1, 1).iter().all(|&b| b == 0));
    for (frame, (col, row)) in [(0, 0), (1, 0), (0, 1)].into_iter().enumerate() {
        assert_eq!(cell_of(&pixels, w, 2, 2, col, row), shades[frame]);
    }
}

#[test]
fn planned_atlas_with_tag_exports_only_that_tags_frames_under_its_name() {
    let tags = vec![
        Tag::new("all", FrameIndex::new(0), FrameIndex::new(3)),
        Tag::new("walk", FrameIndex::new(1), FrameIndex::new(2)),
    ];
    let (sprite, shades) = striped(2, 2, 4, tags);
    let out = export(&sprite, &shades, &AtlasOptions::new(4).with_tag("walk")).expect("export succeeds");
    assert_eq!((out.manifest.columns, out.manifest.rows), (2, 1));
    let indices: Vec<_> = out.manifest.frames.iter().map(|f| f.frame).collect();
    assert_eq!(indices, vec![FrameIndex::new(1), FrameIndex::new(2)]);
    let names: Vec<_> = out.manifest.frames.iter().map(|f| f.tag.clone()).collect();
    assert_eq!(names, vec![Some("walk".to_string()), Some("walk".to_string())]);
}

#[test]
fn planned_atlas_untagged_frames_report_no_tag() {
    let tags = vec![Tag::new("walk", FrameIndex::new(0), FrameIndex::new(0))];
    let (sprite, shades) = striped(1, 1, 2, tags);
    let out = export(&sprite, &shades, &AtlasOptions::new(2)).expect("export succeeds");
    let names: Vec<_> = out.manifest.frames.iter().map(|f| f.tag.clone()).collect();
    assert_eq!(names, vec![Some("walk".to_string()), None]);
}

#[test]
fn plan_atlas_refuses_in_the_documented_order() {
    let (sprite, _) = striped(1, 1, 1, Vec::new());
    assert!(matches!(plan_atlas(&sprite, &AtlasOptions::new(0).with_tag("nope")), Err(ExportError::InvalidColumns)));
    assert!(matches!(
        plan_atlas(&sprite, &AtlasOptions::new(1).with_tag("nope")),
        Err(ExportError::TagNotFound { name }) if name == "nope"
    ));
    let (sprite, _) = striped(1, 1, 2, vec![Tag::new("walk", FrameIndex::new(0), FrameIndex::new(5))]);
    assert!(matches!(
        plan_atlas(&sprite, &AtlasOptions::new(1).with_tag("walk")),
        Err(ExportError::TagRangeInvalid { name, from: 0, to: 5, frames: 2 }) if name == "walk"
    ));
    let (sprite, _) = striped(4, 4, 0, Vec::new());
    assert!(matches!(plan_atlas(&sprite, &AtlasOptions::new(2)), Err(ExportError::NoFrames)));
    let huge = Sprite::builder(u32::MAX, u32::MAX)
        .add_layer(Layer::image(LayerId::new(0), "art"))
        .add_frame(Frame::new(100))
        .build()
        .expect("sprite builds");
    assert!(matches!(plan_atlas(&huge, &AtlasOptions::new(1)), Err(ExportError::AtlasTooLarge { .. })));
}

#[test]
fn manifest_to_json_escapes_tag_names() {
    let tags = vec![Tag::new("a\"b\\c\nd\u{1}", FrameIndex::new(0), FrameIndex::new(0))];
    let (sprite, shades) = striped(1, 1, 1, tags);
    let out = export(&sprite, &shades, &AtlasOptions::new(1)).expect("export succeeds");
    assert!(
        out.manifest.to_json().contains("\"tag\":\"a\\\"b\\\\c\\nd\\u0001\""),
        "unescaped JSON: {}",
        out.manifest.to_json()
    );
}
