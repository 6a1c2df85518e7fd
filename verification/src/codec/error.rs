//! Errors of the `.aseprite` read and write adapters.
use vstd::prelude::*;

use crate::error::DocumentError;

verus! {

/// Errors produced by the Aseprite read / write adapters.
#[derive(Debug)]
pub enum CodecError {
    /// The underlying parser rejected the byte stream.
    Parse(String),
    /// The file uses a color depth Pincel does not yet ingest; only RGBA is
    /// handled.
    UnsupportedColorMode,
    /// The file contains a layer kind that is not round-tripped.
    UnsupportedLayerKind {
        /// Layer kind code as encoded in the file.
        kind: u16,
    },
    /// The file uses a blend mode Pincel does not recognize.
    UnsupportedBlendMode {
        /// Blend mode code as encoded in the file.
        mode: u16,
    },
    /// The file contains a cel kind that is not ingested.
    UnsupportedCelKind {
        /// Cel type code as encoded in the file.
        kind: u16,
    },
    /// The file references a layer index outside the layer table.
    LayerIndexOutOfRange {
        /// 0-based layer index taken from the cel chunk.
        index: usize,
    },
    /// Pixel decode failed.
    Image(String),
    /// Building the [`crate::Sprite`] model rejected the adapter output.
    Document(DocumentError),
    /// A field of the document does not fit into its on-disk slot.
    OutOfRange {
        /// Short description, e.g. `"canvas width"`.
        what: &'static str,
        /// The value that exceeded the slot.
        value: i64,
    },
    /// A linked cel points at a frame index past the sprite's frames.
    LinkedFrameNotFound {
        /// Frame index referenced by the linked cel.
        index: u32,
    },
    /// A layer's `parent` names an id no layer carries.
    LayerParentNotFound {
        /// Numeric value of the missing parent's id.
        id: u32,
    },
    /// The layer parent graph contains a cycle.
    LayerCycle {
        /// Numeric value of a layer id inside the cycle.
        id: u32,
    },
    /// A cel names a layer id no layer carries.
    CelLayerNotFound {
        /// Numeric value of the cel's layer id.
        id: u32,
    },
    /// A cel's frame index is past the sprite's frames.
    CelFrameNotFound {
        /// The cel's frame index.
        index: u32,
    },
    /// A layer's parent is not a group layer.
    LayerParentNotGroup {
        /// Layer whose `parent` names a non-group.
        child: u32,
        /// The parent that should have been a group.
        parent: u32,
    },
    /// The layer order cannot be flattened into `child_level`s without
    /// changing a parent link after a write→read round-trip.
    LayerOrderingInconsistent {
        /// Layer whose reconstructed parent differs from its parent.
        child: u32,
        /// The layer's actual parent, if any.
        expected: Option<u32>,
        /// The parent a reader would reconstruct, if any.
        reconstructed: Option<u32>,
    },
    /// An image cel's buffer is not RGBA.
    CelImageNotRgba {
        /// The cel's layer id.
        layer: u32,
        /// The cel's frame index.
        frame: u32,
    },
    /// An image cel's buffer length disagrees with its dimensions.
    CelImageBufferMalformed {
        /// The cel's layer id.
        layer: u32,
        /// The cel's frame index.
        frame: u32,
    },
    /// A linked cel points at a `(layer, frame)` slot that has no cel.
    LinkedCelTargetMissing {
        /// The cel's layer id.
        layer: u32,
        /// Frame index that owns the linked cel.
        from_frame: u32,
        /// Frame index the linked cel points at.
        target: u32,
    },
    /// A linked cel points at a slot whose cel is not an image cel.
    LinkedCelTargetNotImage {
        /// The cel's layer id.
        layer: u32,
        /// Frame index that owns the linked cel.
        from_frame: u32,
        /// Frame index the linked cel points at.
        target: u32,
    },
    /// A tilemap layer is missing its tileset index.
    TilemapLayerMissingTilesetIndex {
        /// Layer name as encoded in the file.
        name: String,
    },
    /// A tilemap cel uses a `bits_per_tile` other than 32.
    TilemapBitsPerTileUnsupported {
        /// Bits-per-tile value of the cel chunk.
        bits: u16,
    },
    /// A tilemap cel's payload did not decode.
    TilemapDecode(String),
    /// A tileset chunk uses a feature that is not ingested.
    TilesetUnsupported {
        /// Numeric tileset id from the chunk.
        id: u32,
        /// Short description of the rejected feature.
        what: &'static str,
    },
    /// A tileset chunk's tile-image payload did not decode.
    TilesetDecode {
        /// Numeric tileset id from the chunk.
        id: u32,
        /// Underlying decode error message.
        message: String,
    },
    /// A tilemap cel's tile count does not match its grid.
    CelTilemapTileCountMismatch {
        /// The cel's layer id.
        layer: u32,
        /// The cel's frame index.
        frame: u32,
        /// Expected `grid_w * grid_h`.
        expected: usize,
        /// Actual `tiles.len()`.
        actual: usize,
    },
    /// A tile image's dimensions do not match its tileset's tile size.
    TilesetTileDimensionMismatch {
        /// Numeric tileset id.
        tileset: u32,
        /// 0-based tile index.
        tile: u32,
        /// Declared tile width.
        expected_w: u32,
        /// Declared tile height.
        expected_h: u32,
        /// Actual tile width.
        actual_w: u32,
        /// Actual tile height.
        actual_h: u32,
    },
    /// A tile image is not RGBA.
    TilesetTileNotRgba {
        /// Numeric tileset id.
        tileset: u32,
        /// 0-based tile index.
        tile: u32,
    },
    /// A tileset references an external file.
    UnsupportedTilesetExternalFile {
        /// Numeric tileset id.
        tileset: u32,
    },
}

/// Model of a [`CodecError`]: its fields, messages and names as characters.
pub enum CodecErrorModel {
    Parse(Seq<char>),
    UnsupportedColorMode,
    UnsupportedLayerKind { kind: u16 },
    UnsupportedBlendMode { mode: u16 },
    UnsupportedCelKind { kind: u16 },
    LayerIndexOutOfRange { index: usize },
    Image(Seq<char>),
    Document(DocumentError),
    OutOfRange { what: &'static str, value: i64 },
    LinkedFrameNotFound { index: u32 },
    LayerParentNotFound { id: u32 },
    LayerCycle { id: u32 },
    CelLayerNotFound { id: u32 },
    CelFrameNotFound { index: u32 },
    LayerParentNotGroup { child: u32, parent: u32 },
    LayerOrderingInconsistent { child: u32, expected: Option<u32>, reconstructed: Option<u32> },
    CelImageNotRgba { layer: u32, frame: u32 },
    CelImageBufferMalformed { layer: u32, frame: u32 },
    LinkedCelTargetMissing { layer: u32, from_frame: u32, target: u32 },
    LinkedCelTargetNotImage { layer: u32, from_frame: u32, target: u32 },
    TilemapLayerMissingTilesetIndex { name: Seq<char> },
    TilemapBitsPerTileUnsupported { bits: u16 },
    TilemapDecode(Seq<char>),
    TilesetUnsupported { id: u32, what: &'static str },
    TilesetDecode { id: u32, message: Seq<char> },
    CelTilemapTileCountMismatch { layer: u32, frame: u32, expected: usize, actual: usize },
    TilesetTileDimensionMismatch {
        tileset: u32,
        tile: u32,
        expected_w: u32,
        expected_h: u32,
        actual_w: u32,
        actual_h: u32,
    },
    TilesetTileNotRgba { tileset: u32, tile: u32 },
    UnsupportedTilesetExternalFile { tileset: u32 },
}

impl View for CodecError {
    type V = CodecErrorModel;

    open spec fn view(&self) -> CodecErrorModel {
        match self {
            CodecError::Parse(m) => CodecErrorModel::Parse(m@),
            CodecError::UnsupportedColorMode => CodecErrorModel::UnsupportedColorMode,
            CodecError::UnsupportedLayerKind { kind } => CodecErrorModel::UnsupportedLayerKind {
                kind: *kind,
            },
            CodecError::UnsupportedBlendMode { mode } => CodecErrorModel::UnsupportedBlendMode {
                mode: *mode,
            },
            CodecError::UnsupportedCelKind { kind } => CodecErrorModel::UnsupportedCelKind {
                kind: *kind,
            },
            CodecError::LayerIndexOutOfRange { index } => CodecErrorModel::LayerIndexOutOfRange {
                index: *index,
            },
            CodecError::Image(m) => CodecErrorModel::Image(m@),
            CodecError::Document(e) => CodecErrorModel::Document(*e),
            CodecError::OutOfRange { what, value } => CodecErrorModel::OutOfRange {
                what: *what,
                value: *value,
            },
            CodecError::LinkedFrameNotFound { index } => CodecErrorModel::LinkedFrameNotFound {
                index: *index,
            },
            CodecError::LayerParentNotFound { id } => CodecErrorModel::LayerParentNotFound {
                id: *id,
            },
            CodecError::LayerCycle { id } => CodecErrorModel::LayerCycle { id: *id },
            CodecError::CelLayerNotFound { id } => CodecErrorModel::CelLayerNotFound { id: *id },
            CodecError::CelFrameNotFound { index } => CodecErrorModel::CelFrameNotFound {
                index: *index,
            },
            CodecError::LayerParentNotGroup { child, parent } =>
                CodecErrorModel::LayerParentNotGroup { child: *child, parent: *parent },
            CodecError::LayerOrderingInconsistent { child, expected, reconstructed } =>
                CodecErrorModel::LayerOrderingInconsistent {
                child: *child,
                expected: *expected,
                reconstructed: *reconstructed,
            },
            CodecError::CelImageNotRgba { layer, frame } => CodecErrorModel::CelImageNotRgba {
                layer: *layer,
                frame: *frame,
            },
            CodecError::CelImageBufferMalformed { layer, frame } =>
                CodecErrorModel::CelImageBufferMalformed { layer: *layer, frame: *frame },
            CodecError::LinkedCelTargetMissing { layer, from_frame, target } =>
                CodecErrorModel::LinkedCelTargetMissing {
                layer: *layer,
                from_frame: *from_frame,
                target: *target,
            },
            CodecError::LinkedCelTargetNotImage { layer, from_frame, target } =>
                CodecErrorModel::LinkedCelTargetNotImage {
                layer: *layer,
                from_frame: *from_frame,
                target: *target,
            },
            CodecError::TilemapLayerMissingTilesetIndex { name } =>
                CodecErrorModel::TilemapLayerMissingTilesetIndex { name: name@ },
            CodecError::TilemapBitsPerTileUnsupported { bits } =>
                CodecErrorModel::TilemapBitsPerTileUnsupported { bits: *bits },
            CodecError::TilemapDecode(m) => CodecErrorModel::TilemapDecode(m@),
            CodecError::TilesetUnsupported { id, what } => CodecErrorModel::TilesetUnsupported {
                id: *id,
                what: *what,
            },
            CodecError::TilesetDecode { id, message } => CodecErrorModel::TilesetDecode {
                id: *id,
                message: message@,
            },
            CodecError::CelTilemapTileCountMismatch { layer, frame, expected, actual } =>
                CodecErrorModel::CelTilemapTileCountMismatch {
                layer: *layer,
                frame: *frame,
                expected: *expected,
                actual: *actual,
            },
            CodecError::TilesetTileDimensionMismatch {
                tileset,
                tile,
                expected_w,
                expected_h,
                actual_w,
                actual_h,
            } => CodecErrorModel::TilesetTileDimensionMismatch {
                tileset: *tileset,
                tile: *tile,
                expected_w: *expected_w,
                expected_h: *expected_h,
                actual_w: *actual_w,
                actual_h: *actual_h,
            },
            CodecError::TilesetTileNotRgba { tileset, tile } => CodecErrorModel::TilesetTileNotRgba {
                tileset: *tileset,
                tile: *tile,
            },
            CodecError::UnsupportedTilesetExternalFile { tileset } =>
                CodecErrorModel::UnsupportedTilesetExternalFile { tileset: *tileset },
        }
    }
}

} // verus!
