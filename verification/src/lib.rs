//! Pincel core library: the pixel-art document model and the reversible
//! commands that edit it.
pub mod codec;
pub mod command;
pub mod document;
pub mod error;
pub mod geometry;
pub mod text;

pub use codec::{
    assemble_aseprite, read_aseprite, stage_aseprite, try_read_aseprite, AsepriteReadOutput,
    AtlasFrame, AtlasManifest, AtlasOptions, AtlasOutput, CodecError, ExportError, StagedFile,
};

pub use command::{AddFrame, AddLayer, AddSlice, AddTile, AddTilemapLayer, AddTileset, Anchor, AnyCommand, Bus, ClearRegion, Command, CommandError, DirtyRegion, DrawEllipse, DrawLine, DrawRectangle, DuplicateLayer, FillRegion, Interpolation, MoveDirection, MoveLayer, MoveSelectionContent, Orientation, PlaceTile, ReframeCanvas, RemoveLayer, RemoveSlice, ReplaceCelPixels, SetFrameDuration, SetLayerBlendMode, SetLayerName, SetLayerOpacity, SetLayerVisible, SetPixel, SetSliceKey, SetTilePixel, ShapeMode, ShapeStyle, TextAlign, TransformCanvas, TransformCel};
pub use document::{
    BlendMode, Cel, CelData, CelKey, CelMap, ColorMode, Frame, FrameIndex, Layer, LayerId,
    LayerKind, Metadata, Palette, PaletteEntry, PathRef, PixelBuffer, Rgba, Slice, SliceId,
    SliceKey, Sprite, SpriteBuilder, Tag, TagDirection, TileImage, TileRef, Tileset, TilesetId,
};
pub use error::DocumentError;
pub use geometry::{Point, Rect};
