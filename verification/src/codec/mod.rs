//! Codec adapters between Pincel's `Sprite` model and external file formats.
//!
//! [`aseprite_read`] turns an `.aseprite` byte stream into a sprite and its
//! cels on top of the `aseprite-loader` parser; [`aseprite_write`] checks a
//! sprite and stages it for the `.aseprite` writer. [`png`] holds the data
//! model of the PNG export path: the atlas options, the per-frame placement
//! manifest and its JSON form.
mod ase_loader;
pub mod ase_scan;
pub mod aseprite_read;
pub mod aseprite_write;
pub mod error;
pub mod png;

pub use aseprite_read::{assemble_aseprite, read_aseprite, try_read_aseprite, AsepriteReadOutput};
pub use aseprite_write::{stage_aseprite, StagedFile};
pub use error::CodecError;
pub use png::{atlas_grid, AtlasFrame, AtlasGrid, AtlasManifest, AtlasOptions, AtlasOutput, ExportError};
