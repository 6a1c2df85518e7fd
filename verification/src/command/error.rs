//! Error type returned by command execution.
use vstd::prelude::*;

use crate::document::{FrameIndex, LayerId};
use crate::geometry::Rect;

verus! {

/// Errors raised when a command cannot be applied.
#[allow(inconsistent_fields)]
#[derive(Debug, PartialEq, Eq)]
pub enum CommandError {
    /// No cel exists for the targeted `(layer, frame)`.
    MissingCel { layer: LayerId, frame: FrameIndex },
    /// The cel for `(layer, frame)` is not an image cel (e.g. tilemap or linked).
    NotAnImageCel { layer: LayerId, frame: FrameIndex },
    /// Pixel coordinates fall outside the cel's pixel buffer.
    PixelOutOfBounds { x: i32, y: i32, width: u32, height: u32, position: (i32, i32) },
    /// The cel buffer's color mode does not match the operation.
    UnsupportedColorMode,
    /// A layer with the same id already exists.
    DuplicateLayerId(u32),
    /// A tileset with the same id already exists.
    DuplicateTilesetId(u32),
    /// The cel for `(layer, frame)` is not a tilemap cel.
    NotATilemapCel { layer: LayerId, frame: FrameIndex },
    /// Grid coordinates fall outside the tilemap cel's grid.
    TileCoordOutOfBounds { x: u32, y: u32, grid_w: u32, grid_h: u32 },
    /// A tilemap cel's `tiles` length doesn't equal `grid_w * grid_h`.
    MalformedTilemapCel {
        layer: LayerId,
        frame: FrameIndex,
        grid_w: u32,
        grid_h: u32,
        tiles_len: usize,
    },
    /// A selection-scoped command was issued with no active selection.
    NoSelection,
    /// The targeted tileset does not exist on the sprite.
    UnknownTileset(u32),
    /// The targeted tile id is past the end of the tileset's stored tiles.
    UnknownTile { tileset: u32, tile_id: u32 },
    /// Pixel coordinates fall outside the targeted tile's pixel buffer.
    TilePixelOutOfBounds { tileset: u32, tile_id: u32, x: u32, y: u32, width: u32, height: u32 },
    /// A slice with the same id already exists.
    DuplicateSliceId(u32),
    /// The targeted slice does not exist on the sprite.
    UnknownSlice(u32),
    /// A slice was constructed with an empty `keys` vector.
    EmptySliceKeys(u32),
    /// A slice key carries a zero-area bounding rect.
    EmptySliceBounds { frame: FrameIndex, bounds: Rect },
    /// The targeted layer does not exist on the sprite.
    UnknownLayer(u32),
    /// The targeted frame does not exist on the sprite.
    UnknownFrame(u32),
    /// The layer has no sibling in the requested direction.
    LayerAtEdge(u32),
    /// The layer's kind does not support the operation.
    UnsupportedLayerKind(u32),
    /// The layer has no image layer directly below it to merge into.
    NoMergeTarget(u32),
    /// The requested region or size is empty.
    EmptyRegion,
    /// A replacement buffer does not match the cel buffer's byte length.
    BufferLengthMismatch { expected: usize, got: usize },
}

} // verus!
