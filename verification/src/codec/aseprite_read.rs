//! Reading an Aseprite v1.3 byte stream into a sprite and its cels.
//!
//! Scope: RGBA color mode only; image, group and tilemap layers (a tilemap
//! layer keeps its tileset index); tileset chunks with inline tile data
//! (an external-file tileset is refused, one with neither flag is kept
//! with no tiles); image, linked and compressed-tilemap cels. Slice chunks
//! are dropped.
use vstd::prelude::*;
use vstd::string::{StrSliceExecFns, StringExecFns};

use super::ase_loader::{
    inflate, parsed_blend_modes, parsed_cels, parsed_chunk_kinds, parsed_header, parsed_layers,
    parsed_tags, parsed_tilemaps, parsed_tilesets, read_blend_modes, read_cels, read_chunk_kinds,
    read_header, read_layers, read_tags, read_tilemaps, read_tilesets, zlib_inflated,
};
use super::aseprite_write::{
    depth_of, first_tilemap_layer, lemma_staged_depths_rebuild_parents, layers_error, order_stack,
    lemma_layer_index_of, stack_after, stack_parent, staged_cel_is, staged_layer_is,
    staged_tag_is, StagedCel, StagedCelContent, StagedLayer, StagedTag,
};
use crate::document::cel::buffer_wf;
use super::error::{CodecError, CodecErrorModel};
use super::png::{decimal, push_decimal};
use crate::document::cel::{CelDataModel, CelModel, PixelBufferModel};
use crate::document::cel_map::CelKey;
use crate::document::color::white_spec;
use crate::document::layer::LayerModel;
use crate::document::palette::PaletteEntryModel;
use crate::document::sprite::{build_outcome, SpriteModel};
use crate::document::tag::TagModel;
use crate::document::tileset::TilesetModel;
use crate::document::{
    BlendMode, Cel, CelData, CelMap, ColorMode, Frame, FrameIndex, Layer, LayerId, LayerKind,
    Metadata, Palette, PaletteEntry, PixelBuffer, Rgba, Sprite, Tag, TagDirection, TileImage,
    TileRef, Tileset, TilesetId,
};
use crate::error::DocumentError;

use super::ase_scan::{has_refused_user_data, user_data_refused};
verus! {

/// The color depth a file header declares.
#[derive(Debug, Clone, Copy)]
pub enum AseDepth {
    Rgba,
    Grayscale,
    Indexed,
    Unknown(u16),
}

/// The header fields the reader uses, the palette of an indexed file and
/// each frame's duration.
#[derive(Debug)]
pub struct AseHeader {
    pub width: u16,
    pub height: u16,
    pub depth: AseDepth,
    pub palette: Option<Vec<Rgba>>,
    pub durations: Vec<u16>,
}

/// The kind a layer chunk declares.
#[derive(Debug, Clone, Copy)]
pub enum AseLayerKind {
    Normal,
    Group,
    Tilemap,
    Unknown(u16),
}

/// The blend mode a layer chunk declares: one of the modes the format
/// defines, or the raw word of one it does not.
#[derive(Debug, Clone, Copy)]
pub enum AseBlendMode {
    Normal,
    Multiply,
    Screen,
    Overlay,
    Darken,
    Lighten,
    ColorDodge,
    ColorBurn,
    HardLight,
    SoftLight,
    Difference,
    Exclusion,
    Hue,
    Saturation,
    Color,
    Luminosity,
    Addition,
    Subtract,
    Divide,
    Unknown(u16),
}

/// A layer chunk, its blend mode aside.
#[derive(Debug)]
pub struct AseLayer {
    pub kind: AseLayerKind,
    pub child_level: u16,
    pub tileset_index: Option<u32>,
    pub name: String,
    pub visible: bool,
    pub editable: bool,
    pub opacity: u8,
}

/// What a cel chunk holds (the details of a compressed tilemap apart).
#[derive(Debug)]
pub enum AseCelContent {
    /// Pixels, zlib-compressed or raw.
    Image { width: u16, height: u16, data: Vec<u8>, compressed: bool },
    /// A link to the cel of the same layer at the given frame.
    Linked(u16),
    /// A compressed tilemap.
    Tilemap,
    /// A cel type the parser does not know, with its code.
    Unknown(u16),
}

/// A cel chunk.
#[derive(Debug)]
pub struct AseCel {
    pub layer_index: u16,
    pub x: i16,
    pub y: i16,
    pub opacity: u8,
    pub content: AseCelContent,
}

/// The details of a compressed-tilemap cel.
#[derive(Debug)]
pub struct AseTilemap {
    pub width: u16,
    pub height: u16,
    pub bits_per_tile: u16,
    pub tile_id_mask: u32,
    pub x_flip_mask: u32,
    pub y_flip_mask: u32,
    pub diagonal_flip_mask: u32,
    pub data: Vec<u8>,
}

/// The playback direction a tag declares.
#[derive(Debug, Clone, Copy)]
pub enum AseDirection {
    Forward,
    Reverse,
    PingPong,
    PingPongReverse,
    Unknown(u8),
}

/// A tag.
#[derive(Debug)]
pub struct AseTag {
    pub from: u16,
    pub to: u16,
    pub direction: AseDirection,
    pub repeat: u16,
    pub name: String,
}

/// A tileset chunk: its flags as two booleans and its compressed tile
/// image, when inline.
#[derive(Debug)]
pub struct AseTileset {
    pub id: u32,
    pub has_tiles: bool,
    pub external_file: bool,
    pub number_of_tiles: u32,
    pub width: u16,
    pub height: u16,
    pub base_index: i16,
    pub name: String,
    pub tiles: Option<Vec<u8>>,
}

/// The kind of a raw chunk, as far as the layer/cel bookkeeping of the
/// parser goes.
#[derive(Debug, Clone, Copy)]
pub enum AseChunkKind {
    Layer,
    /// A cel chunk with its layer index.
    Cel(u16),
    Other,
}

/// The chunk kinds of all frames, in file order.
pub open spec fn flat_kinds(k: Seq<Vec<AseChunkKind>>) -> Seq<AseChunkKind>
    decreases k.len(),
{
    if k.len() == 0 {
        Seq::empty()
    } else {
        flat_kinds(k.drop_last()) + k.last()@
    }
}

/// The number of layer chunks in `s`.
pub open spec fn layer_chunks(s: Seq<AseChunkKind>) -> nat
    decreases s.len(),
{
    if s.len() == 0 {
        0
    } else {
        layer_chunks(s.drop_last()) + if s.last() is Layer {
            1nat
        } else {
            0nat
        }
    }
}

/// The layer index of the first cel chunk from `i` on whose index is at
/// least `count`.
pub open spec fn first_wide_cel(s: Seq<AseChunkKind>, count: nat, i: int) -> Option<u16>
    decreases s.len() - i,
{
    if i < 0 || i >= s.len() {
        None
    } else {
        match s[i] {
            AseChunkKind::Cel(n) => if n >= count {
                Some(n)
            } else {
                first_wide_cel(s, count, i + 1)
            },
            _ => first_wide_cel(s, count, i + 1),
        }
    }
}

/// `parse_file` files each cel under its layer index in a table as long as
/// the layer list, refusing an index past the end: the first such cel
/// whose index equals the layer count is indexed out of bounds instead.
pub open spec fn file_parse_panics(k: Result<Vec<Vec<AseChunkKind>>, String>) -> bool {
    match k {
        Err(_) => false,
        Ok(v) => {
            let s = flat_kinds(v@);
            layer_chunks(s) <= 65535 && first_wide_cel(s, layer_chunks(s), 0) == Some(
                layer_chunks(s) as u16,
            )
        },
    }
}

/// Decide [`file_parse_panics`] for chunk kinds the raw parser reported.
fn cel_index_hits_layer_count(kinds: &Vec<Vec<AseChunkKind>>) -> (b: bool)
    ensures
        b == file_parse_panics(Ok::<Vec<Vec<AseChunkKind>>, String>(*kinds)),
{
    let mut flat: Vec<AseChunkKind> = Vec::new();
    let nf = kinds.len();
    let mut f: usize = 0;
    while f < nf
        invariant
            nf == kinds@.len(),
            f <= nf,
            flat@ == flat_kinds(kinds@.take(f as int)),
        decreases nf - f,
    {
        let frame = &kinds[f];
        let nc = frame.len();
        let mut c: usize = 0;
        let ghost before = flat@;
        proof {
            assert(frame@.take(0) =~= Seq::<AseChunkKind>::empty());
            assert(flat@ =~= before + frame@.take(0));
        }
        while c < nc
            invariant
                nc == frame@.len(),
                c <= nc,
                flat@ == before + frame@.take(c as int),
            decreases nc - c,
        {
            flat.push(frame[c]);
            proof {
                assert(frame@.take(c + 1) =~= frame@.take(c as int).push(frame@[c as int]));
                assert(flat@ =~= before + frame@.take(c + 1));
            }
            c = c + 1;
        }
        proof {
            assert(frame@.take(nc as int) =~= frame@);
            assert(kinds@.take(f + 1).drop_last() =~= kinds@.take(f as int));
            assert(kinds@.take(f + 1).last() == kinds@[f as int]);
        }
        f = f + 1;
    }
    proof {
        assert(kinds@.take(nf as int) =~= kinds@);
    }
    let n = flat.len();
    let mut count: usize = 0;
    let mut i: usize = 0;
    while i < n
        invariant
            n == flat@.len(),
            flat@ == flat_kinds(kinds@),
            i <= n,
            count == layer_chunks(flat@.take(i as int)),
            count <= i,
        decreases n - i,
    {
        proof {
            assert(flat@.take(i + 1).drop_last() =~= flat@.take(i as int));
            assert(flat@.take(i + 1).last() == flat@[i as int]);
        }
        if let AseChunkKind::Layer = flat[i] {
            count = count + 1;
        }
        i = i + 1;
    }
    proof {
        assert(flat@.take(n as int) =~= flat@);
    }
    if count > 65535 {
        return false;
    }
    let mut j: usize = 0;
    while j < n
        invariant
            n == flat@.len(),
            flat@ == flat_kinds(kinds@),
            j <= n,
            count <= 65535,
            count == layer_chunks(flat@),
            first_wide_cel(flat@, count as nat, 0) == first_wide_cel(flat@, count as nat, j as int),
        decreases n - j,
    {
        if let AseChunkKind::Cel(idx) = flat[j] {
            if idx as usize >= count {
                return idx as usize == count;
            }
        }
        j = j + 1;
    }
    false
}

/// The blend mode a layer chunk's blend mode maps to, or the error for a
/// mode the format does not define.
pub open spec fn blend_result(m: AseBlendMode) -> Result<BlendMode, CodecErrorModel> {
    match m {
        AseBlendMode::Normal => Ok(BlendMode::Normal),
        AseBlendMode::Multiply => Ok(BlendMode::Multiply),
        AseBlendMode::Screen => Ok(BlendMode::Screen),
        AseBlendMode::Overlay => Ok(BlendMode::Overlay),
        AseBlendMode::Darken => Ok(BlendMode::Darken),
        AseBlendMode::Lighten => Ok(BlendMode::Lighten),
        AseBlendMode::ColorDodge => Ok(BlendMode::ColorDodge),
        AseBlendMode::ColorBurn => Ok(BlendMode::ColorBurn),
        AseBlendMode::HardLight => Ok(BlendMode::HardLight),
        AseBlendMode::SoftLight => Ok(BlendMode::SoftLight),
        AseBlendMode::Difference => Ok(BlendMode::Difference),
        AseBlendMode::Exclusion => Ok(BlendMode::Exclusion),
        AseBlendMode::Hue => Ok(BlendMode::Hue),
        AseBlendMode::Saturation => Ok(BlendMode::Saturation),
        AseBlendMode::Color => Ok(BlendMode::Color),
        AseBlendMode::Luminosity => Ok(BlendMode::Luminosity),
        AseBlendMode::Addition => Ok(BlendMode::Addition),
        AseBlendMode::Subtract => Ok(BlendMode::Subtract),
        AseBlendMode::Divide => Ok(BlendMode::Divide),
        AseBlendMode::Unknown(code) => Err(CodecErrorModel::UnsupportedBlendMode { mode: code }),
    }
}

/// Map a layer chunk's blend mode to the document's blend mode.
pub fn map_blend_mode(mode: AseBlendMode) -> (r: Result<BlendMode, CodecError>)
    ensures
        match r {
            Ok(m) => blend_result(mode) == Ok::<BlendMode, CodecErrorModel>(m),
            Err(e) => blend_result(mode) == Err::<BlendMode, CodecErrorModel>(e@),
        },
{
    match mode {
        AseBlendMode::Normal => Ok(BlendMode::Normal),
        AseBlendMode::Multiply => Ok(BlendMode::Multiply),
        AseBlendMode::Screen => Ok(BlendMode::Screen),
        AseBlendMode::Overlay => Ok(BlendMode::Overlay),
        AseBlendMode::Darken => Ok(BlendMode::Darken),
        AseBlendMode::Lighten => Ok(BlendMode::Lighten),
        AseBlendMode::ColorDodge => Ok(BlendMode::ColorDodge),
        AseBlendMode::ColorBurn => Ok(BlendMode::ColorBurn),
        AseBlendMode::HardLight => Ok(BlendMode::HardLight),
        AseBlendMode::SoftLight => Ok(BlendMode::SoftLight),
        AseBlendMode::Difference => Ok(BlendMode::Difference),
        AseBlendMode::Exclusion => Ok(BlendMode::Exclusion),
        AseBlendMode::Hue => Ok(BlendMode::Hue),
        AseBlendMode::Saturation => Ok(BlendMode::Saturation),
        AseBlendMode::Color => Ok(BlendMode::Color),
        AseBlendMode::Luminosity => Ok(BlendMode::Luminosity),
        AseBlendMode::Addition => Ok(BlendMode::Addition),
        AseBlendMode::Subtract => Ok(BlendMode::Subtract),
        AseBlendMode::Divide => Ok(BlendMode::Divide),
        AseBlendMode::Unknown(code) => Err(CodecError::UnsupportedBlendMode { mode: code }),
    }
}

/// Only RGBA files are read.
pub fn map_color_mode(depth: AseDepth) -> (r: Result<ColorMode, CodecError>)
    ensures
        match r {
            Ok(m) => depth is Rgba && m == ColorMode::Rgba,
            Err(e) => !(depth is Rgba) && e@ == CodecErrorModel::UnsupportedColorMode,
        },
{
    match depth {
        AseDepth::Rgba => Ok(ColorMode::Rgba),
        _ => Err(CodecError::UnsupportedColorMode),
    }
}

/// The layer kind a layer chunk maps to, or why it cannot be read.
pub open spec fn mapped_kind(l: AseLayer) -> Result<LayerKind, CodecErrorModel> {
    match l.kind {
        AseLayerKind::Normal => Ok(LayerKind::Image),
        AseLayerKind::Group => Ok(LayerKind::Group),
        AseLayerKind::Tilemap => match l.tileset_index {
            Some(t) => Ok(LayerKind::Tilemap { tileset_id: TilesetId(t) }),
            None => Err(CodecErrorModel::TilemapLayerMissingTilesetIndex { name: l.name@ }),
        },
        AseLayerKind::Unknown(n) => Err(CodecErrorModel::UnsupportedLayerKind { kind: n }),
    }
}

/// Layer chunk `l` at position `i` with blend mode `m`, under `parent`:
/// its id is its position; a layer's kind is checked before its blend
/// mode.
pub open spec fn mapped_layer(i: int, l: AseLayer, m: AseBlendMode, parent: Option<LayerId>) -> Result<
    LayerModel,
    CodecErrorModel,
> {
    match mapped_kind(l) {
        Err(e) => Err(e),
        Ok(kind) => match blend_result(m) {
            Err(e) => Err(e),
            Ok(b) => Ok(
                LayerModel {
                    id: LayerId(i as u32),
                    name: l.name@,
                    kind,
                    visible: l.visible,
                    editable: l.editable,
                    blend_mode: b,
                    opacity: l.opacity,
                    parent,
                },
            ),
        },
    }
}

/// The blend mode of layer `i` (an undefined one where the list is short).
pub open spec fn blend_at(blends: Seq<AseBlendMode>, i: int) -> AseBlendMode {
    if 0 <= i < blends.len() {
        blends[i]
    } else {
        AseBlendMode::Unknown(0)
    }
}

/// The layers read from the layer chunks from `i` on, after `acc`; the
/// parent of each is the group a stack of open groups holds at the level
/// above it (`stack[d]` is the group most recently opened at depth `d`).
pub open spec fn layers_from(
    chunks: Seq<AseLayer>,
    blends: Seq<AseBlendMode>,
    i: int,
    stack: Seq<LayerId>,
    acc: Seq<LayerModel>,
) -> Result<Seq<LayerModel>, CodecErrorModel>
    decreases chunks.len() - i,
{
    if i < 0 || i >= chunks.len() {
        Ok(acc)
    } else {
        let d = chunks[i].child_level;
        let parent = super::aseprite_write::stack_parent(stack, d);
        match mapped_layer(i, chunks[i], blend_at(blends, i), parent) {
            Err(e) => Err(e),
            Ok(l) => layers_from(
                chunks,
                blends,
                i + 1,
                super::aseprite_write::stack_after(stack, l, d),
                acc.push(l),
            ),
        }
    }
}

/// Map one layer chunk at position `index`, with no parent yet.
fn map_layer(index: usize, layer: &AseLayer, blend: AseBlendMode) -> (r: Result<Layer, CodecError>)
    ensures
        match r {
            Ok(l) => mapped_layer(index as int, *layer, blend, None) == Ok::<
                LayerModel,
                CodecErrorModel,
            >(l@),
            Err(e) => mapped_layer(index as int, *layer, blend, None) == Err::<
                LayerModel,
                CodecErrorModel,
            >(e@),
        },
{
    let kind = match layer.kind {
        AseLayerKind::Normal => LayerKind::Image,
        AseLayerKind::Group => LayerKind::Group,
        AseLayerKind::Tilemap => match layer.tileset_index {
            Some(t) => LayerKind::Tilemap { tileset_id: TilesetId(t) },
            None => {
                return Err(
                    CodecError::TilemapLayerMissingTilesetIndex { name: layer.name.clone() },
                );
            },
        },
        AseLayerKind::Unknown(n) => {
            return Err(CodecError::UnsupportedLayerKind { kind: n });
        },
    };
    let blend_mode = map_blend_mode(blend)?;
    Ok(
        Layer {
            id: LayerId(index as u32),
            name: layer.name.clone(),
            kind,
            visible: layer.visible,
            editable: layer.editable,
            blend_mode,
            opacity: layer.opacity,
            parent: None,
        },
    )
}

/// Read the layer list: map each chunk in order and give it the parent the
/// group stack holds at the level above it.
fn read_layer_list(chunks: &Vec<AseLayer>, blends: &Vec<AseBlendMode>) -> (r: Result<
    Vec<Layer>,
    CodecError,
>)
    ensures
        match r {
            Ok(v) => layers_from(chunks@, blends@, 0, seq![], seq![]) == Ok::<
                Seq<LayerModel>,
                CodecErrorModel,
            >(v@.map_values(|l: Layer| l@)),
            Err(e) => layers_from(chunks@, blends@, 0, seq![], seq![]) == Err::<
                Seq<LayerModel>,
                CodecErrorModel,
            >(e@),
        },
{
    let n = chunks.len();
    let mut layers: Vec<Layer> = Vec::new();
    let mut stack: Vec<LayerId> = Vec::new();
    let mut i: usize = 0;
    proof {
        assert(stack@ =~= seq![]);
        assert(layers@.map_values(|l: Layer| l@) =~= seq![]);
    }
    while i < n
        invariant
            n == chunks@.len(),
            i <= n,
            layers@.len() == i,
            layers_from(chunks@, blends@, 0, seq![], seq![]) == layers_from(
                chunks@,
                blends@,
                i as int,
                stack@,
                layers@.map_values(|l: Layer| l@),
            ),
        decreases n - i,
    {
        let chunk = &chunks[i];
        let depth = chunk.child_level;
        let du = depth as usize;
        let parent: Option<LayerId> = if depth == 0 || du > stack.len() {
            None
        } else {
            Some(stack[du - 1])
        };
        let blend = if i < blends.len() {
            blends[i]
        } else {
            AseBlendMode::Unknown(0)
        };
        proof {
            assert(blend == blend_at(blends@, i as int));
        }
        let mut layer = match map_layer(i, chunk, blend) {
            Ok(l) => l,
            Err(e) => {
                assert(mapped_layer(i as int, *chunk, blend, parent) is Err);
                return Err(e);
            },
        };
        layer.parent = parent;
        proof {
            assert(parent == super::aseprite_write::stack_parent(stack@, depth));
            assert(mapped_layer(i as int, *chunk, blend, parent) == Ok::<LayerModel, CodecErrorModel>(layer@));
        }
        if du < stack.len() {
            stack.truncate(du);
        }
        let is_group = match layer.kind {
            LayerKind::Group => true,
            _ => false,
        };
        if is_group {
            stack.push(layer.id);
        }
        let ghost before = layers@.map_values(|l: Layer| l@);
        layers.push(layer);
        proof {
            assert(layers@.map_values(|l: Layer| l@) =~= before.push(layers@[i as int]@));
        }
        i = i + 1;
    }
    Ok(layers)
}

/// The document's playback direction for a tag's direction; a direction
/// the parser does not know plays forward.
pub open spec fn mapped_direction(d: AseDirection) -> TagDirection {
    match d {
        AseDirection::Forward => TagDirection::Forward,
        AseDirection::Reverse => TagDirection::Reverse,
        AseDirection::PingPong => TagDirection::Pingpong,
        AseDirection::PingPongReverse => TagDirection::PingpongReverse,
        AseDirection::Unknown(_) => TagDirection::Forward,
    }
}

/// The document's tag for a tag chunk: white, with the chunk's range,
/// direction and repeat count.
pub open spec fn mapped_tag(t: AseTag) -> TagModel {
    TagModel {
        name: t.name@,
        from: FrameIndex(t.from as u32),
        to: FrameIndex(t.to as u32),
        direction: mapped_direction(t.direction),
        color: white_spec(),
        repeats: t.repeat,
    }
}

pub fn map_tag_direction(d: AseDirection) -> (r: TagDirection)
    ensures
        r == mapped_direction(d),
{
    match d {
        AseDirection::Forward => TagDirection::Forward,
        AseDirection::Reverse => TagDirection::Reverse,
        AseDirection::PingPong => TagDirection::Pingpong,
        AseDirection::PingPongReverse => TagDirection::PingpongReverse,
        AseDirection::Unknown(_) => TagDirection::Forward,
    }
}

fn map_tag(t: &AseTag) -> (r: Tag)
    ensures
        r@ == mapped_tag(*t),
{
    Tag {
        name: t.name.clone(),
        from: FrameIndex(t.from as u32),
        to: FrameIndex(t.to as u32),
        direction: map_tag_direction(t.direction),
        color: Rgba::white(),
        repeats: t.repeat,
    }
}

/// The palette of the file: its colors, unnamed, or none.
pub open spec fn palette_of(p: Option<Vec<Rgba>>) -> Seq<PaletteEntryModel> {
    match p {
        None => Seq::empty(),
        Some(v) => v@.map_values(|c: Rgba| PaletteEntryModel { rgba: c, name: None }),
    }
}

fn build_palette(p: &Option<Vec<Rgba>>) -> (r: Palette)
    ensures
        r@ == palette_of(*p),
{
    let mut entries: Vec<PaletteEntry> = Vec::new();
    if let Some(colors) = p {
        let n = colors.len();
        let mut i: usize = 0;
        while i < n
            invariant
                n == colors@.len(),
                i <= n,
                entries@.len() == i,
                entries@.map_values(|e: PaletteEntry| e@) == colors@.take(i as int).map_values(
                    |c: Rgba| PaletteEntryModel { rgba: c, name: None },
                ),
            decreases n - i,
        {
            let ghost before = entries@.map_values(|e: PaletteEntry| e@);
            let e = PaletteEntry::new(colors[i]);
            entries.push(e);
            proof {
                let lhs = entries@.map_values(|e: PaletteEntry| e@);
                let rhs = colors@.take(i + 1).map_values(
                    |c: Rgba| PaletteEntryModel { rgba: c, name: None },
                );
                assert forall|k: int| 0 <= k < lhs.len() implies lhs[k] == rhs[k] by {
                    if k < i {
                        assert(lhs[k] == before[k]);
                    }
                }
                assert(lhs =~= rhs);
            }
            i = i + 1;
        }
        proof {
            assert(colors@.take(n as int) =~= colors@);
        }
    } else {
        proof {
            assert(entries@.map_values(|e: PaletteEntry| e@) =~= Seq::<PaletteEntryModel>::empty());
        }
    }
    Palette::from_entries(entries)
}

/// The bytes `buf[start..end)`.
fn copy_range(buf: &Vec<u8>, start: usize, end: usize) -> (v: Vec<u8>)
    requires
        start <= end <= buf@.len(),
    ensures
        v@ == buf@.subrange(start as int, end as int),
{
    let mut v: Vec<u8> = Vec::new();
    let mut i: usize = start;
    while i < end
        invariant
            start <= i <= end,
            end <= buf@.len(),
            v@ == buf@.subrange(start as int, i as int),
        decreases end - i,
    {
        v.push(buf[i]);
        proof {
            assert(v@ =~= buf@.subrange(start as int, i + 1));
        }
        i = i + 1;
    }
    v
}

/// `t` would make the tile split divide by a zero tile size: tile data is
/// present and inflates, but the tile is empty.
pub open spec fn tileset_panics(t: AseTileset) -> bool {
    &&& t.has_tiles
    &&& t.tiles is Some
    &&& t.width == 0 || t.height == 0
    &&& zlib_inflated(t.tiles->Some_0@, 0) is Some
}

/// The tile images of a decoded tile block: `n` tiles of `bpt` bytes,
/// stacked in order.
pub open spec fn tile_images(buf: Seq<u8>, w: u16, h: u16, bpt: int, n: int) -> Seq<
    PixelBufferModel,
> {
    Seq::new(
        n as nat,
        |k: int|
            PixelBufferModel {
                width: w as u32,
                height: h as u32,
                color_mode: ColorMode::Rgba,
                data: buf.subrange(k * bpt, k * bpt + bpt),
            },
    )
}

/// The tiles of tileset chunk `t`, or why they cannot be read.
pub open spec fn tileset_tiles(t: AseTileset) -> Result<Seq<PixelBufferModel>, CodecErrorModel> {
    let bpt = t.width as int * t.height as int * 4;
    let total = bpt * t.number_of_tiles as int;
    if t.has_tiles {
        match t.tiles {
            None => Err(
                CodecErrorModel::TilesetUnsupported {
                    id: t.id,
                    what: "TILES flag set but no inline tile data",
                },
            ),
            Some(data) => if bpt > usize::MAX {
                Err(
                    CodecErrorModel::TilesetDecode {
                        id: t.id,
                        message: "per-tile byte size overflowed usize"@,
                    },
                )
            } else if total > usize::MAX {
                Err(
                    CodecErrorModel::TilesetDecode {
                        id: t.id,
                        message: "tileset byte size overflowed usize"@,
                    },
                )
            } else {
                match zlib_inflated(data@, total as nat) {
                    None => Err(
                        CodecErrorModel::TilesetDecode { id: t.id, message: "DecompressError"@ },
                    ),
                    Some(buf) => Ok(
                        tile_images(buf, t.width, t.height, bpt, t.number_of_tiles as int),
                    ),
                }
            },
        }
    } else if t.external_file {
        Err(
            CodecErrorModel::TilesetUnsupported {
                id: t.id,
                what: "external-file tilesets are not yet supported",
            },
        )
    } else {
        Ok(Seq::empty())
    }
}

/// The document's tileset for tileset chunk `t`, or why it cannot be read.
pub open spec fn tileset_result(t: AseTileset) -> Result<TilesetModel, CodecErrorModel> {
    match tileset_tiles(t) {
        Err(e) => Err(e),
        Ok(tiles) => Ok(
            TilesetModel {
                id: TilesetId(t.id),
                name: t.name@,
                tile_size: (t.width as u32, t.height as u32),
                tiles,
                base_index: t.base_index as i32,
                external_file: None,
            },
        ),
    }
}

/// Split a decoded tile block into `n` tiles of `bpt` bytes.
fn split_tiles(buf: &Vec<u8>, w: u16, h: u16, bpt: usize, n: usize) -> (tiles: Vec<TileImage>)
    requires
        bpt == w as int * h as int * 4,
        buf@.len() == bpt * n,
    ensures
        tiles@.map_values(|t: TileImage| t.pixels@) == tile_images(buf@, w, h, bpt as int, n as int),
{
    let mut tiles: Vec<TileImage> = Vec::new();
    let mut k: usize = 0;
    let blen = buf.len();
    while k < n
        invariant
            blen == buf@.len(),
            bpt == w as int * h as int * 4,
            buf@.len() == bpt * n,
            k <= n,
            tiles@.len() == k,
            forall|j: int|
                0 <= j < k ==> (#[trigger] tiles@[j]).pixels@ == tile_images(
                    buf@,
                    w,
                    h,
                    bpt as int,
                    n as int,
                )[j],
        decreases n - k,
    {
        assert(k * bpt + bpt <= bpt * n) by (nonlinear_arith)
            requires
                k < n,
        ;
        let start = k * bpt;
        let data = copy_range(buf, start, start + bpt);
        tiles.push(
            TileImage {
                pixels: PixelBuffer {
                    width: w as u32,
                    height: h as u32,
                    color_mode: ColorMode::Rgba,
                    data,
                },
            },
        );
        k = k + 1;
    }
    proof {
        assert(tiles@.map_values(|t: TileImage| t.pixels@) =~= tile_images(
            buf@,
            w,
            h,
            bpt as int,
            n as int,
        ));
    }
    tiles
}

/// Hydrate one tileset chunk. Inline tile data is decompressed; the block
/// holds `tile_w × (tile_h × n)` RGBA pixels, tiles stacked vertically.
fn build_tileset(t: &AseTileset) -> (r: Result<Tileset, CodecError>)
    requires
        !tileset_panics(*t),
    ensures
        match r {
            Ok(ts) => tileset_result(*t) == Ok::<TilesetModel, CodecErrorModel>(ts@),
            Err(e) => tileset_result(*t) == Err::<TilesetModel, CodecErrorModel>(e@),
        },
{
    let id = t.id;
    let tiles: Vec<TileImage> = if t.has_tiles {
        let block = match &t.tiles {
            Some(b) => b,
            None => {
                return Err(
                    CodecError::TilesetUnsupported {
                        id,
                        what: "TILES flag set but no inline tile data",
                    },
                );
            },
        };
        assert((t.width as int) * (t.height as int) <= 65535 * 65535) by (nonlinear_arith)
            requires
                t.width <= 65535,
                t.height <= 65535,
        ;
        let wh = (t.width as usize) * (t.height as usize);
        let bytes_per_tile = match wh.checked_mul(4) {
            Some(b) => b,
            None => {
                return Err(
                    CodecError::TilesetDecode {
                        id,
                        message: String::from_str("per-tile byte size overflowed usize"),
                    },
                );
            },
        };
        let n_tiles = t.number_of_tiles as usize;
        let total = match bytes_per_tile.checked_mul(n_tiles) {
            Some(v) => v,
            None => {
                return Err(
                    CodecError::TilesetDecode {
                        id,
                        message: String::from_str("tileset byte size overflowed usize"),
                    },
                );
            },
        };
        let buf = match inflate(block.as_slice(), total) {
            Some(b) => b,
            None => {
                return Err(
                    CodecError::TilesetDecode { id, message: String::from_str("DecompressError") },
                );
            },
        };
        split_tiles(&buf, t.width, t.height, bytes_per_tile, n_tiles)
    } else if t.external_file {
        return Err(
            CodecError::TilesetUnsupported {
                id,
                what: "external-file tilesets are not yet supported",
            },
        );
    } else {
        Vec::new()
    };
    let ts = Tileset {
        id: TilesetId(id),
        name: t.name.clone(),
        tile_size: (t.width as u32, t.height as u32),
        tiles,
        base_index: t.base_index as i32,
        external_file: None,
    };
    proof {
        if !t.has_tiles {
            assert(ts@.tiles =~= Seq::<PixelBufferModel>::empty());
        }
    }
    Ok(ts)
}

/// The message for a raw cel payload shorter than its pixels need.
pub open spec fn short_payload_message(len: nat, target: nat) -> Seq<char> {
    "raw cel pixel payload "@ + decimal(len) + " bytes < expected "@ + decimal(target)
        + " bytes"@
}

/// The pixels of an image cel of `width × height` RGBA pixels given as
/// `data` (zlib-compressed when `compressed`), or why they cannot be read.
pub open spec fn image_result(width: u16, height: u16, data: Seq<u8>, compressed: bool) -> Result<
    PixelBufferModel,
    CodecErrorModel,
> {
    let target = width as int * height as int * 4;
    if target > usize::MAX {
        Err(CodecErrorModel::Image("cel pixel buffer does not fit in memory"@))
    } else if compressed {
        match zlib_inflated(data, target as nat) {
            None => Err(CodecErrorModel::Image("DecompressError"@)),
            Some(buf) => Ok(
                PixelBufferModel {
                    width: width as u32,
                    height: height as u32,
                    color_mode: ColorMode::Rgba,
                    data: buf,
                },
            ),
        }
    } else if data.len() < target {
        Err(CodecErrorModel::Image(short_payload_message(data.len(), target as nat)))
    } else {
        Ok(
            PixelBufferModel {
                width: width as u32,
                height: height as u32,
                color_mode: ColorMode::Rgba,
                data: data.take(target),
            },
        )
    }
}

/// The little-endian `u32` at byte offset `o` of `b`.
pub open spec fn le_u32(b: Seq<u8>, o: int) -> u32 {
    (b[o] as u32) | ((b[o + 1] as u32) << 8u32) | ((b[o + 2] as u32) << 16u32) | ((b[o + 3] as u32)
        << 24u32)
}

/// The tile reference a raw tile word stands for under the cel's masks.
pub open spec fn tile_ref_of(raw: u32, tm: AseTilemap) -> TileRef {
    TileRef {
        tile_id: raw & tm.tile_id_mask,
        flip_x: raw & tm.x_flip_mask != 0,
        flip_y: raw & tm.y_flip_mask != 0,
        rotate_90: raw & tm.diagonal_flip_mask != 0,
    }
}

/// The tile grid of a compressed-tilemap cel, or why it cannot be read:
/// only 32-bit tiles are accepted.
pub open spec fn tilemap_result(tm: AseTilemap) -> Result<CelDataModel, CodecErrorModel> {
    let count = tm.width as int * tm.height as int;
    if tm.bits_per_tile != 32 {
        Err(CodecErrorModel::TilemapBitsPerTileUnsupported { bits: tm.bits_per_tile })
    } else if count * 4 > usize::MAX {
        Err(CodecErrorModel::TilemapDecode("tilemap byte size overflowed usize"@))
    } else {
        match zlib_inflated(tm.data@, (count * 4) as nat) {
            None => Err(CodecErrorModel::TilemapDecode("DecompressError"@)),
            Some(buf) => Ok(
                CelDataModel::Tilemap {
                    grid_w: tm.width as u32,
                    grid_h: tm.height as u32,
                    tiles: Seq::new(count as nat, |k: int| tile_ref_of(le_u32(buf, 4 * k), tm)),
                },
            ),
        }
    }
}

/// The data of cel `c` (with the tilemap details `tm` of its slot), or why
/// it cannot be read. A link must name one of the `frame_count` frames. A
/// tilemap cel whose details are missing is reported as an unsupported
/// cel of the tilemap kind.
pub open spec fn cel_data_result(c: AseCel, tm: Option<AseTilemap>, frame_count: nat) -> Result<
    CelDataModel,
    CodecErrorModel,
> {
    match c.content {
        AseCelContent::Image { width, height, data, compressed } => match image_result(
            width,
            height,
            data@,
            compressed,
        ) {
            Ok(b) => Ok(CelDataModel::Image(b)),
            Err(e) => Err(e),
        },
        AseCelContent::Linked(fp) => if fp >= frame_count {
            Err(CodecErrorModel::LinkedFrameNotFound { index: fp as u32 })
        } else {
            Ok(CelDataModel::Linked(FrameIndex(fp as u32)))
        },
        AseCelContent::Tilemap => match tm {
            Some(t) => tilemap_result(t),
            None => Err(CodecErrorModel::UnsupportedCelKind { kind: 3 }),
        },
        AseCelContent::Unknown(k) => Err(CodecErrorModel::UnsupportedCelKind { kind: k }),
    }
}

/// The tilemap details of slot `s` (none where the list is short).
pub open spec fn tilemap_at(tms: Seq<Option<AseTilemap>>, s: int) -> Option<AseTilemap> {
    if 0 <= s < tms.len() {
        tms[s]
    } else {
        None
    }
}

/// The cel map after reading the slots of frame `f` from slot `s` on into
/// `acc`: each cel goes under its layer's id (the layer at its index) and
/// the frame.
pub open spec fn frame_cels_from(
    slots: Seq<Option<AseCel>>,
    tms: Seq<Option<AseTilemap>>,
    layers: Seq<LayerModel>,
    frame_count: nat,
    f: int,
    s: int,
    acc: Map<CelKey, CelModel>,
) -> Result<Map<CelKey, CelModel>, CodecErrorModel>
    decreases slots.len() - s,
{
    if s < 0 || s >= slots.len() {
        Ok(acc)
    } else {
        match slots[s] {
            None => frame_cels_from(slots, tms, layers, frame_count, f, s + 1, acc),
            Some(c) => if c.layer_index >= layers.len() {
                Err(CodecErrorModel::LayerIndexOutOfRange { index: c.layer_index as usize })
            } else {
                match cel_data_result(c, tilemap_at(tms, s), frame_count) {
                    Err(e) => Err(e),
                    Ok(d) => {
                        let layer = layers[c.layer_index as int].id;
                        let frame = FrameIndex(f as u32);
                        frame_cels_from(
                            slots,
                            tms,
                            layers,
                            frame_count,
                            f,
                            s + 1,
                            acc.insert(
                                (layer, frame),
                                CelModel {
                                    layer,
                                    frame,
                                    position: (c.x as i32, c.y as i32),
                                    opacity: c.opacity,
                                    data: d,
                                },
                            ),
                        )
                    },
                }
            },
        }
    }
}

/// The tilemap details of frame `f` (none where the list is short).
pub open spec fn frame_tilemaps(tms: Seq<Vec<Option<AseTilemap>>>, f: int) -> Seq<Option<AseTilemap>> {
    if 0 <= f < tms.len() {
        tms[f]@
    } else {
        Seq::empty()
    }
}

/// The cel map after reading the frames from `f` on into `acc`.
pub open spec fn cels_from(
    cels: Seq<Vec<Option<AseCel>>>,
    tms: Seq<Vec<Option<AseTilemap>>>,
    layers: Seq<LayerModel>,
    f: int,
    acc: Map<CelKey, CelModel>,
) -> Result<Map<CelKey, CelModel>, CodecErrorModel>
    decreases cels.len() - f,
{
    if f < 0 || f >= cels.len() {
        Ok(acc)
    } else {
        match frame_cels_from(
            cels[f]@,
            frame_tilemaps(tms, f),
            layers,
            cels.len(),
            f,
            0,
            acc,
        ) {
            Err(e) => Err(e),
            Ok(m) => cels_from(cels, tms, layers, f + 1, m),
        }
    }
}

/// Decode an image cel's pixels.
fn decode_image(width: u16, height: u16, data: &Vec<u8>, compressed: bool) -> (r: Result<
    PixelBuffer,
    CodecError,
>)
    ensures
        match r {
            Ok(b) => image_result(width, height, data@, compressed) == Ok::<
                PixelBufferModel,
                CodecErrorModel,
            >(b@),
            Err(e) => image_result(width, height, data@, compressed) == Err::<
                PixelBufferModel,
                CodecErrorModel,
            >(e@),
        },
{
    assert((width as int) * (height as int) <= 65535 * 65535) by (nonlinear_arith)
        requires
            width <= 65535,
            height <= 65535,
    ;
    let wh = (width as usize) * (height as usize);
    let target = match wh.checked_mul(4) {
        Some(t) => t,
        None => {
            return Err(CodecError::Image(String::from_str("cel pixel buffer does not fit in memory")));
        },
    };
    let pixels = if compressed {
        match inflate(data.as_slice(), target) {
            Some(b) => b,
            None => {
                return Err(CodecError::Image(String::from_str("DecompressError")));
            },
        }
    } else {
        if data.len() < target {
            let mut message = String::from_str("raw cel pixel payload ");
            push_decimal(&mut message, data.len() as u64);
            message.append(" bytes < expected ");
            push_decimal(&mut message, target as u64);
            message.append(" bytes");
            return Err(CodecError::Image(message));
        }
        copy_range(data, 0, target)
    };
    proof {
        assert(data@.subrange(0, target as int) =~= data@.take(target as int));
    }
    Ok(PixelBuffer { width: width as u32, height: height as u32, color_mode: ColorMode::Rgba, data: pixels })
}

/// What each tile of a 32-bit tilemap cel reads as: tile `k` is the
/// little-endian word at byte `4 k` of the inflated data, its id the bits
/// of the id mask, and each flag set exactly when the word has a bit of
/// that flag's own mask: the vertical flip follows the y-flip mask alone,
/// the horizontal flip the x-flip mask alone, the quarter turn the
/// diagonal mask. So a word with only y-flip bits reads as flipped
/// vertically and not horizontally, and one with only x-flip bits the
/// other way round.
pub proof fn lemma_tilemap_tiles_follow_masks(tm: AseTilemap, buf: Seq<u8>, k: int)
    requires
        tm.bits_per_tile == 32,
        tm.width as int * tm.height as int * 4 <= usize::MAX,
        zlib_inflated(tm.data@, (tm.width as int * tm.height as int * 4) as nat) == Some(buf),
        0 <= k < tm.width as int * tm.height as int,
    ensures
        le_u32(buf, 4 * k) == buf[4 * k] + buf[4 * k + 1] * 256 + buf[4 * k + 2] * 65536 + buf[4 * k
            + 3] * 16777216,
        tilemap_result(tm) matches Ok(CelDataModel::Tilemap { grid_w, grid_h, tiles }) && {
            let raw = le_u32(buf, 4 * k);
            &&& grid_w == tm.width && grid_h == tm.height
            &&& tiles.len() == tm.width as int * tm.height as int
            &&& tiles[k].tile_id == raw & tm.tile_id_mask
            &&& tiles[k].flip_x == ((raw & tm.x_flip_mask) != 0)
            &&& tiles[k].flip_y == ((raw & tm.y_flip_mask) != 0)
            &&& tiles[k].rotate_90 == ((raw & tm.diagonal_flip_mask) != 0)
            &&& (raw & tm.x_flip_mask) == 0 && (raw & tm.y_flip_mask) != 0 ==> tiles[k].flip_y
                && !tiles[k].flip_x
            &&& (raw & tm.y_flip_mask) == 0 && (raw & tm.x_flip_mask) != 0 ==> tiles[k].flip_x
                && !tiles[k].flip_y
        },
{
    lemma_le_bytes_value(buf[4 * k], buf[4 * k + 1], buf[4 * k + 2], buf[4 * k + 3]);
}

/// Four bytes read little-endian: the first is the lowest.
proof fn lemma_le_bytes_value(b0: u8, b1: u8, b2: u8, b3: u8)
    ensures
        (b0 as u32) | ((b1 as u32) << 8u32) | ((b2 as u32) << 16u32) | ((b3 as u32) << 24u32) == b0
            + b1 * 256 + b2 * 65536 + b3 * 16777216,
{
    assert((b0 as u32) | ((b1 as u32) << 8u32) | ((b2 as u32) << 16u32) | ((b3 as u32) << 24u32)
        == b0 + b1 * 256 + b2 * 65536 + b3 * 16777216) by (bit_vector);
}

/// Decode a compressed-tilemap cel into its tile grid. Each tile is a
/// little-endian 32-bit word whose fields the per-cel masks pick out.
fn decode_tilemap_cel(tm: &AseTilemap) -> (r: Result<CelData, CodecError>)
    ensures
        match r {
            Ok(d) => tilemap_result(*tm) == Ok::<CelDataModel, CodecErrorModel>(d@),
            Err(e) => tilemap_result(*tm) == Err::<CelDataModel, CodecErrorModel>(e@),
        },
{
    if tm.bits_per_tile != 32 {
        return Err(CodecError::TilemapBitsPerTileUnsupported { bits: tm.bits_per_tile });
    }
    assert((tm.width as int) * (tm.height as int) <= 65535 * 65535) by (nonlinear_arith)
        requires
            tm.width <= 65535,
            tm.height <= 65535,
    ;
    let tile_count = (tm.width as usize) * (tm.height as usize);
    let expected = match tile_count.checked_mul(4) {
        Some(e) => e,
        None => {
            return Err(
                CodecError::TilemapDecode(String::from_str("tilemap byte size overflowed usize")),
            );
        },
    };
    let buf = match inflate(tm.data.as_slice(), expected) {
        Some(b) => b,
        None => {
            return Err(CodecError::TilemapDecode(String::from_str("DecompressError")));
        },
    };
    let ghost count = tile_count as int;
    let mut tiles: Vec<TileRef> = Vec::new();
    let mut k: usize = 0;
    while k < tile_count
        invariant
            buf@.len() == expected,
            expected == tile_count * 4,
            k <= tile_count,
            tiles@.len() == k,
            forall|j: int| 0 <= j < k ==> #[trigger] tiles@[j] == tile_ref_of(le_u32(buf@, 4 * j), *tm),
        decreases tile_count - k,
    {
        let o = 4 * k;
        let raw = (buf[o] as u32) | ((buf[o + 1] as u32) << 8u32) | ((buf[o + 2] as u32) << 16u32)
            | ((buf[o + 3] as u32) << 24u32);
        tiles.push(
            TileRef {
                tile_id: raw & tm.tile_id_mask,
                flip_x: (raw & tm.x_flip_mask) != 0,
                flip_y: (raw & tm.y_flip_mask) != 0,
                rotate_90: (raw & tm.diagonal_flip_mask) != 0,
            },
        );
        k = k + 1;
    }
    proof {
        assert(tiles@ =~= Seq::new(count as nat, |j: int| tile_ref_of(le_u32(buf@, 4 * j), *tm)));
    }
    Ok(CelData::Tilemap { grid_w: tm.width as u32, grid_h: tm.height as u32, tiles })
}

/// Decode the data of one cel.
fn cel_data(cel: &AseCel, tm: Option<&AseTilemap>, frame_count: usize) -> (r: Result<
    CelData,
    CodecError,
>)
    ensures
        match r {
            Ok(d) => cel_data_result(*cel, match tm { Some(t) => Some(*t), None => None }, frame_count as nat)
                == Ok::<CelDataModel, CodecErrorModel>(d@),
            Err(e) => cel_data_result(*cel, match tm { Some(t) => Some(*t), None => None }, frame_count as nat)
                == Err::<CelDataModel, CodecErrorModel>(e@),
        },
{
    match &cel.content {
        AseCelContent::Image { width, height, data, compressed } => {
            let b = decode_image(*width, *height, data, *compressed)?;
            Ok(CelData::Image(b))
        },
        AseCelContent::Linked(fp) => {
            if (*fp as usize) >= frame_count {
                return Err(CodecError::LinkedFrameNotFound { index: *fp as u32 });
            }
            Ok(CelData::Linked(FrameIndex(*fp as u32)))
        },
        AseCelContent::Tilemap => match tm {
            Some(t) => decode_tilemap_cel(t),
            None => Err(CodecError::UnsupportedCelKind { kind: 3 }),
        },
        AseCelContent::Unknown(k) => Err(CodecError::UnsupportedCelKind { kind: *k }),
    }
}

/// Read the cels of every frame, slot by slot, into a cel map.
fn build_cels(
    cels: &Vec<Vec<Option<AseCel>>>,
    tms: &Vec<Vec<Option<AseTilemap>>>,
    layers: &Vec<Layer>,
) -> (r: Result<CelMap, CodecError>)
    ensures
        match r {
            Ok(m) => m.wf() && cels_from(
                cels@,
                tms@,
                layers@.map_values(|l: Layer| l@),
                0,
                Map::empty(),
            ) == Ok::<Map<CelKey, CelModel>, CodecErrorModel>(m@),
            Err(e) => cels_from(cels@, tms@, layers@.map_values(|l: Layer| l@), 0, Map::empty())
                == Err::<Map<CelKey, CelModel>, CodecErrorModel>(e@),
        },
{
    let ghost models = layers@.map_values(|l: Layer| l@);
    let mut map = CelMap::new();
    let frame_count = cels.len();
    let no_tilemaps: Vec<Option<AseTilemap>> = Vec::new();
    let mut f: usize = 0;
    while f < frame_count
        invariant
            frame_count == cels@.len(),
            models == layers@.map_values(|l: Layer| l@),
            no_tilemaps@.len() == 0,
            f <= frame_count,
            map.wf(),
            cels_from(cels@, tms@, models, 0, Map::empty()) == cels_from(
                cels@,
                tms@,
                models,
                f as int,
                map@,
            ),
        decreases frame_count - f,
    {
        let slots = &cels[f];
        let frame_tms = if f < tms.len() {
            &tms[f]
        } else {
            &no_tilemaps
        };
        proof {
            assert(frame_tms@ =~= frame_tilemaps(tms@, f as int));
        }
        let ghost start = map@;
        let n = slots.len();
        let mut s: usize = 0;
        while s < n
            invariant
                n == slots@.len(),
                frame_count == cels@.len(),
                models == layers@.map_values(|l: Layer| l@),
                f < frame_count,
                s <= n,
                map.wf(),
                slots@ == cels@[f as int]@,
                frame_tms@ == frame_tilemaps(tms@, f as int),
                cels_from(cels@, tms@, models, 0, Map::empty()) == cels_from(
                    cels@,
                    tms@,
                    models,
                    f as int,
                    start,
                ),
                frame_cels_from(slots@, frame_tms@, models, frame_count as nat, f as int, 0, start)
                    == frame_cels_from(
                    slots@,
                    frame_tms@,
                    models,
                    frame_count as nat,
                    f as int,
                    s as int,
                    map@,
                ),
            decreases n - s,
        {
            if let Some(cel) = &slots[s] {
                let li = cel.layer_index as usize;
                if li >= layers.len() {
                    return Err(CodecError::LayerIndexOutOfRange { index: li });
                }
                let tm = if s < frame_tms.len() {
                    frame_tms[s].as_ref()
                } else {
                    None
                };
                proof {
                    assert((match tm {
                        Some(t) => Some(*t),
                        None => None,
                    }) == tilemap_at(frame_tms@, s as int));
                }
                let data = match cel_data(cel, tm, frame_count) {
                    Ok(d) => d,
                    Err(e) => {
                        return Err(e);
                    },
                };
                let layer_id = layers[li].id;
                assert(models[li as int].id == layer_id);
                map.insert(
                    Cel {
                        layer: layer_id,
                        frame: FrameIndex(f as u32),
                        position: (cel.x as i32, cel.y as i32),
                        opacity: cel.opacity,
                        data,
                    },
                );
            }
            s = s + 1;
        }
        f = f + 1;
    }
    Ok(map)
}

/// The tileset chunks of one frame's chunk list, in order.
pub open spec fn present_in(row: Seq<Option<AseTileset>>) -> Seq<AseTileset>
    decreases row.len(),
{
    if row.len() == 0 {
        Seq::empty()
    } else {
        match row.last() {
            Some(t) => present_in(row.drop_last()).push(t),
            None => present_in(row.drop_last()),
        }
    }
}

/// The tileset chunks of all frames, in file order.
pub open spec fn present_tilesets(frames: Seq<Vec<Option<AseTileset>>>) -> Seq<AseTileset>
    decreases frames.len(),
{
    if frames.len() == 0 {
        Seq::empty()
    } else {
        present_tilesets(frames.drop_last()) + present_in(frames.last()@)
    }
}

/// The tileset chunks among the chunks of all frames, in file order.
fn tileset_chunks<'a>(frames: &'a Vec<Vec<Option<AseTileset>>>) -> (v: Vec<&'a AseTileset>)
    ensures
        v@.len() == present_tilesets(frames@).len(),
        forall|i: int| 0 <= i < v@.len() ==> *(#[trigger] v@[i]) == present_tilesets(frames@)[i],
{
    let mut v: Vec<&AseTileset> = Vec::new();
    let nf = frames.len();
    let mut f: usize = 0;
    while f < nf
        invariant
            nf == frames@.len(),
            f <= nf,
            v@.len() == present_tilesets(frames@.take(f as int)).len(),
            forall|i: int|
                0 <= i < v@.len() ==> *(#[trigger] v@[i]) == present_tilesets(frames@.take(f as int))[i],
        decreases nf - f,
    {
        let row = &frames[f];
        let nc = row.len();
        let ghost before = present_tilesets(frames@.take(f as int));
        let mut c: usize = 0;
        proof {
            assert(row@.take(0).len() == 0);
            assert(before + present_in(row@.take(0)) =~= before);
        }
        while c < nc
            invariant
                nc == row@.len(),
                c <= nc,
                v@.len() == (before + present_in(row@.take(c as int))).len(),
                forall|i: int|
                    0 <= i < v@.len() ==> *(#[trigger] v@[i]) == (before + present_in(
                        row@.take(c as int),
                    ))[i],
            decreases nc - c,
        {
            proof {
                assert(row@.take(c + 1).drop_last() =~= row@.take(c as int));
                assert(row@.take(c + 1).last() == row@[c as int]);
            }
            if let Some(t) = &row[c] {
                v.push(t);
                proof {
                    assert(before + present_in(row@.take(c + 1)) =~= (before + present_in(
                        row@.take(c as int),
                    )).push(*t));
                }
            }
            c = c + 1;
        }
        proof {
            assert(row@.take(nc as int) =~= row@);
            assert(frames@.take(f + 1).drop_last() =~= frames@.take(f as int));
            assert(frames@.take(f + 1).last() == frames@[f as int]);
        }
        f = f + 1;
    }
    proof {
        assert(frames@.take(nf as int) =~= frames@);
    }
    v
}

/// The tilesets read from the tileset chunks from `i` on, after `acc`.
pub open spec fn tilesets_from(ts: Seq<AseTileset>, i: int, acc: Seq<TilesetModel>) -> Result<
    Seq<TilesetModel>,
    CodecErrorModel,
>
    decreases ts.len() - i,
{
    if i < 0 || i >= ts.len() {
        Ok(acc)
    } else {
        match tileset_result(ts[i]) {
            Err(e) => Err(e),
            Ok(t) => tilesets_from(ts, i + 1, acc.push(t)),
        }
    }
}

/// The document error a build outcome stands for.
pub open spec fn document_error(o: (int, u32), width: u32, height: u32) -> DocumentError {
    if o.0 == 0 {
        DocumentError::InvalidDimensions { width, height }
    } else if o.0 == 1 {
        DocumentError::DuplicateId { kind: "layer", id: o.1 }
    } else if o.0 == 2 {
        DocumentError::DuplicateId { kind: "tileset", id: o.1 }
    } else {
        DocumentError::DuplicateId { kind: "slice", id: o.1 }
    }
}

/// The sprite a file describes: an RGBA canvas of the header's size with
/// the given layers, the header's frames and palette, the tags and the
/// tilesets, and no slices.
pub open spec fn read_sprite_model(
    h: AseHeader,
    layers: Seq<LayerModel>,
    tags: Seq<AseTag>,
    tilesets: Seq<TilesetModel>,
) -> SpriteModel {
    SpriteModel {
        width: h.width as u32,
        height: h.height as u32,
        color_mode: ColorMode::Rgba,
        layers,
        frames: h.durations@.map_values(|d: u16| Frame { duration_ms: d }),
        palette: palette_of(h.palette),
        tilesets,
        tags: tags.map_values(|t: AseTag| mapped_tag(t)),
        slices: Seq::empty(),
        metadata: Metadata { pixel_ratio: (0, 0) },
        selection: None,
    }
}

/// What reading the parts of a file gives: the color mode, the layers, the
/// tilesets (whose raw parse may fail), the sprite's validation, then the
/// cels.
pub open spec fn read_outcome(
    h: AseHeader,
    layers: Seq<AseLayer>,
    blends: Seq<AseBlendMode>,
    cels: Seq<Vec<Option<AseCel>>>,
    tms: Seq<Vec<Option<AseTilemap>>>,
    tags: Seq<AseTag>,
    tilesets: Result<Vec<Vec<Option<AseTileset>>>, String>,
) -> Result<(SpriteModel, Map<CelKey, CelModel>), CodecErrorModel> {
    if !(h.depth is Rgba) {
        Err(CodecErrorModel::UnsupportedColorMode)
    } else {
        match layers_from(layers, blends, 0, seq![], seq![]) {
            Err(e) => Err(e),
            Ok(ls) => match tilesets {
                Err(m) => Err(CodecErrorModel::Parse(m@)),
                Ok(tv) => match tilesets_from(present_tilesets(tv@), 0, seq![]) {
                    Err(e) => Err(e),
                    Ok(ts) => {
                        let model = read_sprite_model(h, ls, tags, ts);
                        match build_outcome(
                            model.width,
                            model.height,
                            ls.map_values(|l: LayerModel| l.id.0),
                            ts.map_values(|t: TilesetModel| t.id.0),
                            Seq::<u32>::empty(),
                        ) {
                            Some(o) => Err(
                                CodecErrorModel::Document(
                                    document_error(o, model.width, model.height),
                                ),
                            ),
                            None => match cels_from(cels, tms, ls, 0, Map::empty()) {
                                Err(e) => Err(e),
                                Ok(m) => Ok((model, m)),
                            },
                        }
                    },
                },
            },
        }
    }
}

/// Result of reading a `.aseprite` byte slice: the sprite and, kept apart
/// from it, its cels.
#[derive(Debug, PartialEq, Eq)]
pub struct AsepriteReadOutput {
    pub sprite: Sprite,
    pub cels: CelMap,
}

/// Turn what the parser reported for a file into a sprite and its cels.
pub fn assemble_aseprite(
    header: &AseHeader,
    layers: &Vec<AseLayer>,
    blends: &Vec<AseBlendMode>,
    cels: &Vec<Vec<Option<AseCel>>>,
    tilemaps: &Vec<Vec<Option<AseTilemap>>>,
    tags: &Vec<AseTag>,
    tilesets: &Result<Vec<Vec<Option<AseTileset>>>, String>,
) -> (r: Result<AsepriteReadOutput, CodecError>)
    requires
        match tilesets {
            Ok(v) => forall|i: int|
                0 <= i < present_tilesets(v@).len() ==> !tileset_panics(
                    #[trigger] present_tilesets(v@)[i],
                ),
            Err(_) => true,
        },
    ensures
        match r {
            Ok(o) => o.cels.wf() && read_outcome(
                *header,
                layers@,
                blends@,
                cels@,
                tilemaps@,
                tags@,
                *tilesets,
            ) == Ok::<(SpriteModel, Map<CelKey, CelModel>), CodecErrorModel>(
                (o.sprite@, o.cels@),
            ),
            Err(e) => read_outcome(*header, layers@, blends@, cels@, tilemaps@, tags@, *tilesets)
                == Err::<(SpriteModel, Map<CelKey, CelModel>), CodecErrorModel>(e@),
        },
{
    let color_mode = map_color_mode(header.depth)?;
    let layer_list = read_layer_list(layers, blends)?;
    let ghost ls = layer_list@.map_values(|l: Layer| l@);
    let mut b = Sprite::builder(header.width as u32, header.height as u32).color_mode(color_mode).palette(
        build_palette(&header.palette),
    );
    let ghost base = b@;
    proof {
        assert(ls.take(0) =~= Seq::<LayerModel>::empty());
        assert(b@ == (SpriteModel { layers: ls.take(0), ..base }));
    }
    let nl = layer_list.len();
    let mut i: usize = 0;
    while i < nl
        invariant
            nl == layer_list@.len(),
            ls == layer_list@.map_values(|l: Layer| l@),
            i <= nl,
            b@ == (SpriteModel { layers: ls.take(i as int), ..base }),
        decreases nl - i,
    {
        b = b.add_layer(layer_list[i].clone());
        proof {
            assert(ls.take(i + 1) =~= ls.take(i as int).push(ls[i as int]));
        }
        i = i + 1;
    }
    proof {
        assert(ls.take(nl as int) =~= ls);
    }
    let ghost frames = header.durations@.map_values(|d: u16| Frame { duration_ms: d });
    proof {
        assert(frames.take(0) =~= Seq::<Frame>::empty());
        assert(b@ == (SpriteModel { layers: ls, frames: frames.take(0), ..base }));
    }
    let nd = header.durations.len();
    let mut i: usize = 0;
    while i < nd
        invariant
            nd == header.durations@.len(),
            frames == header.durations@.map_values(|d: u16| Frame { duration_ms: d }),
            i <= nd,
            b@ == (SpriteModel { layers: ls, frames: frames.take(i as int), ..base }),
        decreases nd - i,
    {
        b = b.add_frame(Frame::new(header.durations[i]));
        proof {
            assert(frames.take(i + 1) =~= frames.take(i as int).push(frames[i as int]));
        }
        i = i + 1;
    }
    proof {
        assert(frames.take(nd as int) =~= frames);
    }
    let ghost tag_models = tags@.map_values(|t: AseTag| mapped_tag(t));
    proof {
        assert(tag_models.take(0) =~= Seq::<TagModel>::empty());
        assert(b@ == (SpriteModel { layers: ls, frames, tags: tag_models.take(0), ..base }));
    }
    let nt = tags.len();
    let mut i: usize = 0;
    while i < nt
        invariant
            nt == tags@.len(),
            tag_models == tags@.map_values(|t: AseTag| mapped_tag(t)),
            i <= nt,
            b@ == (SpriteModel {
                layers: ls,
                frames,
                tags: tag_models.take(i as int),
                ..base
            }),
        decreases nt - i,
    {
        b = b.add_tag(map_tag(&tags[i]));
        proof {
            assert(tag_models.take(i + 1) =~= tag_models.take(i as int).push(tag_models[i as int]));
        }
        i = i + 1;
    }
    proof {
        assert(tag_models.take(nt as int) =~= tag_models);
    }
    let frames_chunks = match tilesets {
        Ok(v) => v,
        Err(m) => {
            return Err(CodecError::Parse(m.clone()));
        },
    };
    let chunks = tileset_chunks(frames_chunks);
    let ghost all = present_tilesets(frames_chunks@);
    let ghost mut ts: Seq<TilesetModel> = seq![];
    proof {
        assert(b@ == (SpriteModel { layers: ls, frames, tags: tag_models, tilesets: ts, ..base }));
    }
    let nts = chunks.len();
    let mut i: usize = 0;
    while i < nts
        invariant
            nts == chunks@.len(),
            all == present_tilesets(frames_chunks@),
            all.len() == nts,
            forall|k: int| 0 <= k < nts ==> *(#[trigger] chunks@[k]) == all[k],
            forall|k: int| 0 <= k < all.len() ==> !tileset_panics(#[trigger] all[k]),
            i <= nts,
            header.depth is Rgba,
            layers_from(layers@, blends@, 0, seq![], seq![]) == Ok::<
                Seq<LayerModel>,
                CodecErrorModel,
            >(ls),
            *tilesets == Ok::<Vec<Vec<Option<AseTileset>>>, String>(*frames_chunks),
            tilesets_from(all, 0, seq![]) == tilesets_from(all, i as int, ts),
            b@ == (SpriteModel { layers: ls, frames, tags: tag_models, tilesets: ts, ..base }),
        decreases nts - i,
    {
        assert(all[i as int] == *chunks@[i as int]);
        let t = match build_tileset(chunks[i]) {
            Ok(t) => t,
            Err(e) => {
                return Err(e);
            },
        };
        proof {
            ts = ts.push(t@);
        }
        b = b.add_tileset(t);
        i = i + 1;
    }
    proof {
        assert(base.width == header.width as u32);
        assert(base.height == header.height as u32);
        assert(b@ == read_sprite_model(*header, ls, tags@, ts));
    }
    let sprite = match b.build() {
        Ok(s) => s,
        Err(e) => {
            return Err(CodecError::Document(e));
        },
    };
    let cel_map = build_cels(cels, tilemaps, &sprite.layers)?;
    Ok(AsepriteReadOutput { sprite, cels: cel_map })
}

/// What reading `bytes` gives: the parser's error for a byte stream it
/// rejects, else the outcome of [`assemble_aseprite`] on what it reports.
pub open spec fn read_result(bytes: Seq<u8>) -> Result<
    (SpriteModel, Map<CelKey, CelModel>),
    CodecErrorModel,
> {
    match parsed_header(bytes) {
        Err(m) => Err(CodecErrorModel::Parse(m@)),
        Ok(h) => match parsed_layers(bytes) {
            Err(m) => Err(CodecErrorModel::Parse(m@)),
            Ok(l) => match parsed_blend_modes(bytes) {
                Err(m) => Err(CodecErrorModel::Parse(m@)),
                Ok(b) => match parsed_cels(bytes) {
                    Err(m) => Err(CodecErrorModel::Parse(m@)),
                    Ok(c) => match parsed_tilemaps(bytes) {
                        Err(m) => Err(CodecErrorModel::Parse(m@)),
                        Ok(t) => match parsed_tags(bytes) {
                            Err(m) => Err(CodecErrorModel::Parse(m@)),
                            Ok(g) => read_outcome(h, l@, b@, c@, t@, g@, parsed_tilesets(bytes)),
                        },
                    },
                },
            },
        },
    }
}

/// No tileset chunk of `bytes` would split its tiles by a zero size.
pub open spec fn tilesets_split(bytes: Seq<u8>) -> bool {
    match parsed_tilesets(bytes) {
        Ok(v) => forall|i: int|
            0 <= i < present_tilesets(v@).len() ==> !tileset_panics(
                #[trigger] present_tilesets(v@)[i],
            ),
        Err(_) => true,
    }
}

/// Parse an Aseprite v1.3 byte stream into a sprite and its cels.
///
/// `bytes` is the full file content. The returned sprite owns all its
/// data.
pub fn read_aseprite(bytes: &[u8]) -> (r: Result<AsepriteReadOutput, CodecError>)
    requires
        !user_data_refused(bytes@),
        !file_parse_panics(parsed_chunk_kinds(bytes@)),
        tilesets_split(bytes@),
    ensures
        match r {
            Ok(o) => o.cels.wf() && read_result(bytes@) == Ok::<
                (SpriteModel, Map<CelKey, CelModel>),
                CodecErrorModel,
            >((o.sprite@, o.cels@)),
            Err(e) => read_result(bytes@) == Err::<
                (SpriteModel, Map<CelKey, CelModel>),
                CodecErrorModel,
            >(e@),
        },
{
    let header = match read_header(bytes) {
        Ok(h) => h,
        Err(m) => {
            return Err(CodecError::Parse(m));
        },
    };
    let layers = match read_layers(bytes) {
        Ok(v) => v,
        Err(m) => {
            return Err(CodecError::Parse(m));
        },
    };
    let blends = match read_blend_modes(bytes) {
        Ok(v) => v,
        Err(m) => {
            return Err(CodecError::Parse(m));
        },
    };
    let cels = match read_cels(bytes) {
        Ok(v) => v,
        Err(m) => {
            return Err(CodecError::Parse(m));
        },
    };
    let tilemaps = match read_tilemaps(bytes) {
        Ok(v) => v,
        Err(m) => {
            return Err(CodecError::Parse(m));
        },
    };
    let tags = match read_tags(bytes) {
        Ok(v) => v,
        Err(m) => {
            return Err(CodecError::Parse(m));
        },
    };
    let tilesets = read_tilesets(bytes);
    assemble_aseprite(&header, &layers, &blends, &cels, &tilemaps, &tags, &tilesets)
}

/// `true` when tileset chunk `t` would split its tiles by a zero size.
fn tileset_would_panic(t: &AseTileset) -> (b: bool)
    ensures
        b == tileset_panics(*t),
{
    if !t.has_tiles || (t.width != 0 && t.height != 0) {
        return false;
    }
    match &t.tiles {
        None => false,
        Some(data) => inflate(data.as_slice(), 0).is_some(),
    }
}

/// [`read_aseprite`] on every input: `None` for a byte stream on which
/// the parser would index a cel past its layer table, or whose tile block
/// would be split by a zero tile size; otherwise what `read_aseprite`
/// gives.
pub fn try_read_aseprite(bytes: &[u8]) -> (r: Option<Result<AsepriteReadOutput, CodecError>>)
    ensures
        match r {
            None => user_data_refused(bytes@) || file_parse_panics(parsed_chunk_kinds(bytes@))
                || !tilesets_split(bytes@),
            Some(Ok(o)) => o.cels.wf() && read_result(bytes@) == Ok::<
                (SpriteModel, Map<CelKey, CelModel>),
                CodecErrorModel,
            >((o.sprite@, o.cels@)),
            Some(Err(e)) => read_result(bytes@) == Err::<
                (SpriteModel, Map<CelKey, CelModel>),
                CodecErrorModel,
            >(e@),
        },
{
    if has_refused_user_data(bytes) {
        return None;
    }
    let kinds = read_chunk_kinds(bytes);
    if let Ok(k) = &kinds {
        if cel_index_hits_layer_count(k) {
            return None;
        }
    }
    let tilesets = read_tilesets(bytes);
    if let Ok(frames) = &tilesets {
        let v = tileset_chunks(frames);
        let ghost all = present_tilesets(frames@);
        let n = v.len();
        let mut i: usize = 0;
        while i < n
            invariant
                n == v@.len(),
                all == present_tilesets(frames@),
                all.len() == n,
                forall|k: int| 0 <= k < n ==> *(#[trigger] v@[k]) == all[k],
                i <= n,
                tilesets == parsed_tilesets(bytes@),
                tilesets == Ok::<Vec<Vec<Option<AseTileset>>>, String>(*frames),
                forall|k: int| 0 <= k < i ==> !tileset_panics(#[trigger] all[k]),
            decreases n - i,
        {
            if tileset_would_panic(v[i]) {
                assert(tileset_panics(all[i as int]));
                return None;
            }
            i = i + 1;
        }
    }
    Some(read_aseprite(bytes))
}

/// The blend mode a file records for a document blend mode, as the
/// parser reports it.
pub open spec fn ase_blend_of(m: BlendMode) -> AseBlendMode {
    match m {
        BlendMode::Normal => AseBlendMode::Normal,
        BlendMode::Multiply => AseBlendMode::Multiply,
        BlendMode::Screen => AseBlendMode::Screen,
        BlendMode::Overlay => AseBlendMode::Overlay,
        BlendMode::Darken => AseBlendMode::Darken,
        BlendMode::Lighten => AseBlendMode::Lighten,
        BlendMode::ColorDodge => AseBlendMode::ColorDodge,
        BlendMode::ColorBurn => AseBlendMode::ColorBurn,
        BlendMode::HardLight => AseBlendMode::HardLight,
        BlendMode::SoftLight => AseBlendMode::SoftLight,
        BlendMode::Difference => AseBlendMode::Difference,
        BlendMode::Exclusion => AseBlendMode::Exclusion,
        BlendMode::Hue => AseBlendMode::Hue,
        BlendMode::Saturation => AseBlendMode::Saturation,
        BlendMode::Color => AseBlendMode::Color,
        BlendMode::Luminosity => AseBlendMode::Luminosity,
        BlendMode::Addition => AseBlendMode::Addition,
        BlendMode::Subtract => AseBlendMode::Subtract,
        BlendMode::Divide => AseBlendMode::Divide,
    }
}

/// A document blend mode, as a file records it, reads back as itself.
pub proof fn lemma_blend_round_trip(m: BlendMode)
    ensures
        blend_result(ase_blend_of(m)) == Ok::<BlendMode, CodecErrorModel>(m),
{
}

/// The layer chunk a file holds for a staged layer.
pub open spec fn written_layer(s: StagedLayer) -> AseLayer {
    AseLayer {
        kind: if s.group {
            AseLayerKind::Group
        } else {
            AseLayerKind::Normal
        },
        child_level: s.child_level,
        tileset_index: None,
        name: s.name,
        visible: s.visible,
        editable: s.editable,
        opacity: s.opacity,
    }
}

/// A layer list that passes the tilemap check holds no tilemap layer.
proof fn lemma_no_tilemap_layer(layers: Seq<LayerModel>, i: int)
    requires
        0 <= i,
        !first_tilemap_layer(layers, i),
    ensures
        forall|j: int| i <= j < layers.len() ==> !((#[trigger] layers[j]).kind is Tilemap),
    decreases layers.len() - i,
{
    if i < layers.len() {
        lemma_no_tilemap_layer(layers, i + 1);
    }
}

/// From layer `i` on, with the reader's stack as staging left it, reading
/// the written chunks finishes the layer list.
proof fn lemma_read_back_from(
    layers: Seq<LayerModel>,
    staged: Seq<StagedLayer>,
    blends: Seq<AseBlendMode>,
    i: int,
)
    requires
        0 <= i <= layers.len(),
        layers_error(layers) is None,
        staged.len() == layers.len(),
        forall|k: int|
            0 <= k < layers.len() ==> staged_layer_is(
                #[trigger] staged[k],
                layers[k],
                depth_of(layers, k),
            ),
        forall|k: int| 0 <= k < layers.len() ==> (#[trigger] layers[k]).id == LayerId(k as u32),
        blends.len() == layers.len(),
        forall|k: int|
            0 <= k < layers.len() ==> #[trigger] blends[k] == ase_blend_of(staged[k].blend_mode),
    ensures
        layers_from(
            staged.map_values(|s: StagedLayer| written_layer(s)),
            blends,
            i,
            order_stack(layers, i),
            layers.take(i),
        ) == Ok::<Seq<LayerModel>, CodecErrorModel>(layers),
    decreases layers.len() - i,
{
    let chunks = staged.map_values(|s: StagedLayer| written_layer(s));
    if i == layers.len() {
        assert(layers.take(i) =~= layers);
    } else {
        lemma_staged_depths_rebuild_parents(layers);
        lemma_no_tilemap_layer(layers, 0);
        lemma_blend_round_trip(staged[i].blend_mode);
        let s = staged[i];
        let l = layers[i];
        assert(chunks[i] == written_layer(s));
        assert(staged_layer_is(s, l, depth_of(layers, i)));
        assert(!(l.kind is Tilemap));
        assert(mapped_kind(chunks[i]) == Ok::<LayerKind, CodecErrorModel>(l.kind));
        assert(blend_at(blends, i) == ase_blend_of(s.blend_mode));
        assert(mapped_layer(i, chunks[i], blend_at(blends, i), l.parent) == Ok::<
            LayerModel,
            CodecErrorModel,
        >(l));
        assert(stack_parent(order_stack(layers, i), depth_of(layers, i)) == l.parent);
        assert(order_stack(layers, i + 1) == stack_after(order_stack(layers, i), l, depth_of(layers, i)));
        assert(layers.take(i).push(l) =~= layers.take(i + 1));
        lemma_read_back_from(layers, staged, blends, i + 1);
    }
}

/// What a read gives back of a write, for the layer list: the staged
/// layers of a sprite whose layer ids are their positions, as a file
/// records them (each blend mode as its name), read back as that sprite's
/// layers, parents included.
pub proof fn lemma_staged_layers_read_back(
    layers: Seq<LayerModel>,
    staged: Seq<StagedLayer>,
    blends: Seq<AseBlendMode>,
)
    requires
        layers_error(layers) is None,
        staged.len() == layers.len(),
        forall|k: int|
            0 <= k < layers.len() ==> staged_layer_is(
                #[trigger] staged[k],
                layers[k],
                depth_of(layers, k),
            ),
        forall|k: int| 0 <= k < layers.len() ==> (#[trigger] layers[k]).id == LayerId(k as u32),
        blends.len() == layers.len(),
        forall|k: int|
            0 <= k < layers.len() ==> #[trigger] blends[k] == ase_blend_of(staged[k].blend_mode),
    ensures
        layers_from(
            staged.map_values(|s: StagedLayer| written_layer(s)),
            blends,
            0,
            seq![],
            seq![],
        ) == Ok::<Seq<LayerModel>, CodecErrorModel>(layers),
{
    assert(order_stack(layers, 0) == Seq::<LayerId>::empty());
    assert(layers.take(0) =~= Seq::<LayerModel>::empty());
    lemma_read_back_from(layers, staged, blends, 0);
}

/// The direction a file records for a playback direction.
pub open spec fn written_direction(d: TagDirection) -> AseDirection {
    match d {
        TagDirection::Forward => AseDirection::Forward,
        TagDirection::Reverse => AseDirection::Reverse,
        TagDirection::Pingpong => AseDirection::PingPong,
        TagDirection::PingpongReverse => AseDirection::PingPongReverse,
    }
}

/// The tag chunk a file holds for a staged tag.
pub open spec fn written_tag(s: StagedTag) -> AseTag {
    AseTag {
        from: s.from_frame,
        to: s.to_frame,
        direction: written_direction(s.direction),
        repeat: s.repeat,
        name: s.name,
    }
}

/// What a read gives back of a write, for a tag: its name, range,
/// direction and repeat count; the reader does not take the tag color and
/// makes it white.
pub proof fn lemma_staged_tag_read_back(t: TagModel, s: StagedTag)
    requires
        staged_tag_is(s, t),
    ensures
        mapped_tag(written_tag(s)) == (TagModel { color: white_spec(), ..t }),
{
}

/// The cel chunk a file holds for a staged cel, its pixels stored raw.
pub open spec fn written_cel(s: StagedCel) -> AseCel {
    AseCel {
        layer_index: s.layer_index,
        x: s.x,
        y: s.y,
        opacity: s.opacity,
        content: match s.content {
            StagedCelContent::Image { width, height, data } => AseCelContent::Image {
                width,
                height,
                data,
                compressed: false,
            },
            StagedCelContent::Linked { frame_position } => AseCelContent::Linked(frame_position),
        },
    }
}

/// What a read gives back of a write, for one cel: an RGBA image cel whose
/// buffer fits in memory, or a cel linked to one of the `frame_count`
/// frames, staged and recorded raw, reads back under its layer's id at
/// its position and opacity with the same data.
pub proof fn lemma_staged_cel_read_back(
    layers: Seq<LayerModel>,
    frame_count: nat,
    c: CelModel,
    s: StagedCel,
)
    requires
        staged_cel_is(s, layers, c),
        match c.data {
            CelDataModel::Image(b) => b.color_mode == ColorMode::Rgba && buffer_wf(b) && b.width
                * b.height * 4 <= usize::MAX,
            CelDataModel::Linked(f) => f.0 < frame_count,
            CelDataModel::Tilemap { .. } => false,
        },
    ensures
        layers[s.layer_index as int].id == c.layer,
        (s.x as i32, s.y as i32) == c.position,
        s.opacity == c.opacity,
        cel_data_result(written_cel(s), None, frame_count) == Ok::<CelDataModel, CodecErrorModel>(
            c.data,
        ),
{
    lemma_layer_index_of(layers, c.layer);
    match c.data {
        CelDataModel::Image(b) => {
            assert(b.data.take(b.data.len() as int) =~= b.data);
        },
        _ => {},
    }
}

} // verus!
