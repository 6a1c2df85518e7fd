//! Document model: the in-memory representation of an Aseprite-equivalent
//! sprite.
pub mod cel;
pub mod cel_map;
pub mod color;
pub mod color_mode;
pub mod frame;
pub mod layer;
pub mod palette;
pub mod slice;
pub mod tag;
pub mod tileset;

pub use cel::{Cel, CelData, PixelBuffer, TileRef};
pub use cel_map::{CelKey, CelMap};
pub use color::Rgba;
pub use color_mode::ColorMode;
pub use frame::{Frame, FrameIndex};
pub use layer::{BlendMode, Layer, LayerId, LayerKind};
pub use palette::{Palette, PaletteEntry};
pub use slice::{Slice, SliceId, SliceKey};
pub use tag::{Tag, TagDirection};
pub use tileset::{PathRef, TileImage, Tileset, TilesetId};

pub mod sprite;

pub use sprite::{Metadata, Sprite, SpriteBuilder};
