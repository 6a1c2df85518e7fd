//! The `.aseprite` parser of the `aseprite-loader` crate, behind trusted
//! items. Each item parses the bytes and hands over one part of what the
//! parser reports, as plain values; what a part holds is named by a spec
//! function of the bytes alone, since parsing is a pure function of its
//! input.
//!
//! The parser can fail to return on two kinds of user-data chunk: in a
//! build with overflow checks it subtracts 8 from a properties block's size
//! without checking it, and it reads the property values inside a block by
//! unbounded recursion, so deep nesting exhausts the stack. Every item
//! leaves out, by `requires`, the bytes that [`user_data_refused`]
//! reports: blocks whose size is below 8, and blocks large enough to nest
//! deeper than the scan's bound.
use vstd::prelude::*;

use aseprite_loader::binary::chunk::Chunk;
use aseprite_loader::binary::chunks::cel::CelContent;
use aseprite_loader::binary::chunks::layer::{LayerFlags, LayerType};
use aseprite_loader::binary::chunks::tags::AnimationDirection;
use aseprite_loader::binary::chunks::tileset::TilesetFlags;
use aseprite_loader::binary::blend_mode::BlendMode::{
    Addition, Color, ColorBurn, ColorDodge, Darken, Difference, Divide, Exclusion, HardLight, Hue,
    Lighten, Luminosity, Multiply, Normal, Overlay, Saturation, Screen, SoftLight, Subtract, Unknown,
};
use aseprite_loader::binary::color_depth::ColorDepth;
use aseprite_loader::binary::file::parse_file;
use aseprite_loader::binary::raw_file::parse_raw_file;
use aseprite_loader::loader::decompress;

use super::aseprite_read::{
    AseBlendMode, AseCel, AseCelContent, AseChunkKind, AseDepth, AseDirection, AseHeader, AseLayer,
    AseLayerKind, AseTag, AseTileset, AseTilemap, file_parse_panics,
};
use super::ase_scan::user_data_refused;
use crate::document::Rgba;

verus! {

/// The chunk kinds `parse_raw_file` reports for `bytes`, frame by frame,
/// or its error message.
pub uninterp spec fn parsed_chunk_kinds(bytes: Seq<u8>) -> Result<Vec<Vec<AseChunkKind>>, String>;

/// The header, palette and frame durations `parse_file` reports for
/// `bytes`, or its error message.
pub uninterp spec fn parsed_header(bytes: Seq<u8>) -> Result<AseHeader, String>;

/// The layer chunks `parse_file` reports for `bytes`, or its error message.
pub uninterp spec fn parsed_layers(bytes: Seq<u8>) -> Result<Vec<AseLayer>, String>;

/// The blend mode of each layer as `parse_file` reports it for `bytes`,
/// or its error message.
pub uninterp spec fn parsed_blend_modes(bytes: Seq<u8>) -> Result<Vec<AseBlendMode>, String>;

/// The cel slots of each frame as `parse_file` reports them for `bytes`
/// (slot `i` holds the cel of layer `i`, if any), or its error message.
pub uninterp spec fn parsed_cels(bytes: Seq<u8>) -> Result<Vec<Vec<Option<AseCel>>>, String>;

/// The compressed-tilemap details of each cel slot as `parse_file`
/// reports them for `bytes`, or its error message.
pub uninterp spec fn parsed_tilemaps(bytes: Seq<u8>) -> Result<Vec<Vec<Option<AseTilemap>>>, String>;

/// The tags `parse_file` reports for `bytes`, or its error message.
pub uninterp spec fn parsed_tags(bytes: Seq<u8>) -> Result<Vec<AseTag>, String>;

/// The chunks `parse_raw_file` reports for `bytes`, frame by frame, each
/// a tileset chunk or not, or its error message.
pub uninterp spec fn parsed_tilesets(bytes: Seq<u8>) -> Result<Vec<Vec<Option<AseTileset>>>, String>;

/// What `aseprite_loader::loader::decompress` inflates `data` to when given
/// a `len`-byte target, or `None` when it reports an error.
pub uninterp spec fn zlib_inflated(data: Seq<u8>, len: nat) -> Option<Seq<u8>>;

/// Calls `aseprite_loader::binary::raw_file::parse_raw_file` and lists
/// the kind of each chunk (a cel with its layer index). Claimed: the
/// result is [`parsed_chunk_kinds`] of the bytes.
#[verifier::external_body]
pub(crate) fn read_chunk_kinds(bytes: &[u8]) -> (r: Result<Vec<Vec<AseChunkKind>>, String>)
    requires
        !user_data_refused(bytes@),
    ensures
        r == parsed_chunk_kinds(bytes@),
{
    let raw = parse_raw_file(bytes).map_err(|e| e.to_string())?;
    Ok(raw.frames.iter().map(|f| f.chunks.iter().map(|c| match c {
        Chunk::Layer(_) => AseChunkKind::Layer,
        Chunk::Cel(cel) => AseChunkKind::Cel(cel.layer_index),
        _ => AseChunkKind::Other,
    }).collect()).collect())
}

/// Calls `aseprite_loader::binary::file::parse_file` and hands over the
/// header's size and color depth, the palette and the frame durations.
/// Claimed: the result is [`parsed_header`] of the bytes. `parse_file`
/// panics on a cel whose layer index equals the layer count; `requires`
/// leaves such input out.
#[verifier::external_body]
pub(crate) fn read_header(bytes: &[u8]) -> (r: Result<AseHeader, String>)
    requires
        !user_data_refused(bytes@),
        !file_parse_panics(parsed_chunk_kinds(bytes@)),
    ensures
        r == parsed_header(bytes@),
{
    let file = parse_file(bytes).map_err(|e| e.to_string())?;
    let depth = match file.header.color_depth {
        ColorDepth::Rgba => AseDepth::Rgba,
        ColorDepth::Grayscale => AseDepth::Grayscale,
        ColorDepth::Indexed => AseDepth::Indexed,
        ColorDepth::Unknown(n) => AseDepth::Unknown(n),
    };
    let palette = file.palette.map(|p| p.colors.iter().map(|c| Rgba { r: c.red, g: c.green, b: c.blue, a: c.alpha }).collect());
    let durations = file.frames.iter().map(|f| f.duration).collect();
    Ok(AseHeader { width: file.header.width, height: file.header.height, depth, palette, durations })
}

/// Calls `aseprite_loader::binary::file::parse_file` and hands over each
/// layer chunk. Claimed: the result is [`parsed_layers`] of the bytes.
#[verifier::external_body]
pub(crate) fn read_layers(bytes: &[u8]) -> (r: Result<Vec<AseLayer>, String>)
    requires
        !user_data_refused(bytes@),
        !file_parse_panics(parsed_chunk_kinds(bytes@)),
    ensures
        r == parsed_layers(bytes@),
{
    let file = parse_file(bytes).map_err(|e| e.to_string())?;
    Ok(file.layers.iter().map(|l| AseLayer {
        kind: match l.layer_type {
            LayerType::Normal => AseLayerKind::Normal,
            LayerType::Group => AseLayerKind::Group,
            LayerType::Tilemap => AseLayerKind::Tilemap,
            LayerType::Unknown(n) => AseLayerKind::Unknown(n),
        },
        child_level: l.child_level, tileset_index: l.tileset_index, name: l.name.to_string(),
        visible: l.flags.contains(LayerFlags::VISIBLE),
        editable: l.flags.contains(LayerFlags::EDITABLE), opacity: l.opacity,
    }).collect())
}

/// Calls `aseprite_loader::binary::file::parse_file` and hands over each
/// layer's blend mode, variant for variant. Claimed: the result is
/// [`parsed_blend_modes`] of the bytes.
#[verifier::external_body]
pub(crate) fn read_blend_modes(bytes: &[u8]) -> (r: Result<Vec<AseBlendMode>, String>)
    requires
        !user_data_refused(bytes@),
        !file_parse_panics(parsed_chunk_kinds(bytes@)),
    ensures
        r == parsed_blend_modes(bytes@),
{
    let file = parse_file(bytes).map_err(|e| e.to_string())?;
    Ok(file.layers.iter().map(|l| match l.blend_mode {
        Normal => AseBlendMode::Normal, Multiply => AseBlendMode::Multiply,
        Screen => AseBlendMode::Screen, Overlay => AseBlendMode::Overlay,
        Darken => AseBlendMode::Darken, Lighten => AseBlendMode::Lighten,
        ColorDodge => AseBlendMode::ColorDodge, ColorBurn => AseBlendMode::ColorBurn,
        HardLight => AseBlendMode::HardLight, SoftLight => AseBlendMode::SoftLight,
        Difference => AseBlendMode::Difference, Exclusion => AseBlendMode::Exclusion,
        Hue => AseBlendMode::Hue, Saturation => AseBlendMode::Saturation,
        Color => AseBlendMode::Color, Luminosity => AseBlendMode::Luminosity,
        Addition => AseBlendMode::Addition, Subtract => AseBlendMode::Subtract,
        Divide => AseBlendMode::Divide, Unknown(w) => AseBlendMode::Unknown(w),
    }).collect())
}

/// Calls `aseprite_loader::binary::file::parse_file` and hands over each
/// frame's cel slots. Claimed: the result is [`parsed_cels`] of the bytes.
#[verifier::external_body]
pub(crate) fn read_cels(bytes: &[u8]) -> (r: Result<Vec<Vec<Option<AseCel>>>, String>)
    requires
        !user_data_refused(bytes@),
        !file_parse_panics(parsed_chunk_kinds(bytes@)),
    ensures
        r == parsed_cels(bytes@),
{
    let file = parse_file(bytes).map_err(|e| e.to_string())?;
    Ok(file.frames.iter().map(|f| f.cels.iter().map(|c| c.as_ref().map(|c| AseCel {
        layer_index: c.layer_index, x: c.x, y: c.y, opacity: c.opacity,
        content: match &c.content {
            CelContent::Image(i) => AseCelContent::Image { width: i.width, height: i.height, data: i.data.to_vec(), compressed: i.compressed },
            CelContent::LinkedCel { frame_position } => AseCelContent::Linked(*frame_position),
            CelContent::CompressedTilemap { .. } => AseCelContent::Tilemap,
            CelContent::Unknown { cel_type, .. } => AseCelContent::Unknown(*cel_type),
        },
    })).collect()).collect())
}

/// Calls `aseprite_loader::binary::file::parse_file` and hands over the
/// details of each compressed-tilemap cel slot. Claimed: the result is
/// [`parsed_tilemaps`] of the bytes.
#[verifier::external_body]
pub(crate) fn read_tilemaps(bytes: &[u8]) -> (r: Result<Vec<Vec<Option<AseTilemap>>>, String>)
    requires
        !user_data_refused(bytes@),
        !file_parse_panics(parsed_chunk_kinds(bytes@)),
    ensures
        r == parsed_tilemaps(bytes@),
{
    let file = parse_file(bytes).map_err(|e| e.to_string())?;
    Ok(file.frames.iter().map(|f| f.cels.iter().map(|c| match c.as_ref().map(|c| &c.content) {
        Some(CelContent::CompressedTilemap { width, height, bits_per_tile, bitmask_tile_id, bitmask_x_flip, bitmask_y_flip, bitmask_diagonal_flip, data }) => Some(AseTilemap {
            width: *width, height: *height, bits_per_tile: *bits_per_tile, tile_id_mask: *bitmask_tile_id, x_flip_mask: *bitmask_x_flip,
            y_flip_mask: *bitmask_y_flip, diagonal_flip_mask: *bitmask_diagonal_flip, data: data.to_vec() }),
        _ => None,
    }).collect()).collect())
}

/// Calls `aseprite_loader::binary::file::parse_file` and hands over each
/// tag. Claimed: the result is [`parsed_tags`] of the bytes.
#[verifier::external_body]
pub(crate) fn read_tags(bytes: &[u8]) -> (r: Result<Vec<AseTag>, String>)
    requires
        !user_data_refused(bytes@),
        !file_parse_panics(parsed_chunk_kinds(bytes@)),
    ensures
        r == parsed_tags(bytes@),
{
    let file = parse_file(bytes).map_err(|e| e.to_string())?;
    Ok(file.tags.iter().map(|t| AseTag {
        from: *t.frames.start(), to: *t.frames.end(), repeat: t.animation_repeat, name: t.name.to_string(),
        direction: match t.animation_direction {
            AnimationDirection::Forward => AseDirection::Forward,
            AnimationDirection::Reverse => AseDirection::Reverse,
            AnimationDirection::PingPong => AseDirection::PingPong,
            AnimationDirection::PingPongReverse => AseDirection::PingPongReverse,
            AnimationDirection::Unknown(n) => AseDirection::Unknown(n),
        },
    }).collect())
}

/// Calls `aseprite_loader::binary::raw_file::parse_raw_file` and hands
/// over each chunk of each frame, a tileset chunk with its fields and any
/// other chunk as `None`. Claimed: the result is [`parsed_tilesets`] of
/// the bytes.
#[verifier::external_body]
pub(crate) fn read_tilesets(bytes: &[u8]) -> (r: Result<Vec<Vec<Option<AseTileset>>>, String>)
    requires
        !user_data_refused(bytes@),
    ensures
        r == parsed_tilesets(bytes@),
{
    let raw = parse_raw_file(bytes).map_err(|e| e.to_string())?;
    Ok(raw.frames.iter().map(|f| f.chunks.iter().map(|c| match c {
        Chunk::Tileset(t) => Some(AseTileset {
            id: t.id, has_tiles: t.flags.contains(TilesetFlags::TILES), external_file: t.flags.contains(TilesetFlags::EXTERNAL_FILE),
            number_of_tiles: t.number_of_tiles, width: t.width, height: t.height, base_index: t.base_index,
            name: t.name.to_string(), tiles: t.tiles.as_ref().map(|d| d.data.to_vec()) }),
        _ => None,
    }).collect()).collect())
}

/// Calls `aseprite_loader::loader::decompress` on `data` with a `len`-byte
/// target. Claimed: the outcome is [`zlib_inflated`] of the data and the
/// length, and a success fills exactly `len` bytes (the target's size).
#[verifier::external_body]
pub(crate) fn inflate(data: &[u8], len: usize) -> (r: Option<Vec<u8>>)
    ensures
        match r {
            Some(v) => zlib_inflated(data@, len as nat) == Some(v@) && v@.len() == len,
            None => zlib_inflated(data@, len as nat) is None,
        },
{
    let mut target = vec![0u8; len];
    match decompress(data, &mut target) {
        Ok(()) => Some(target),
        Err(_) => None,
    }
}

} // verus!
