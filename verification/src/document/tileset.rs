//! Tilesets and tile images.
use vstd::prelude::*;

use super::cel::{PixelBuffer, PixelBufferModel};

verus! {

/// Stable identifier for a tileset within a sprite.
#[derive(Debug, Clone, Copy, PartialEq, Eq, Hash, PartialOrd, Ord, Structural)]
pub struct TilesetId(pub u32);

impl TilesetId {
    pub fn new(value: u32) -> (id: Self)
        ensures
            id.0 == value,
    {
        TilesetId(value)
    }
}

/// Reference to an external tileset file (Aseprite supports shared tilesets).
#[derive(Debug, PartialEq, Eq)]
pub struct PathRef(pub String);

impl Clone for PathRef {
    fn clone(&self) -> (p: Self)
        ensures
            p.0@ == self.0@,
    {
        PathRef(self.0.clone())
    }
}

/// A single tile in a tileset.
#[derive(Debug, PartialEq, Eq)]
pub struct TileImage {
    pub pixels: PixelBuffer,
}

impl Clone for TileImage {
    fn clone(&self) -> (t: Self)
        ensures
            t.pixels@ == self.pixels@,
    {
        TileImage { pixels: self.pixels.clone() }
    }
}

/// A tileset. Tile id `0` is the empty / transparent tile by Aseprite
/// convention; Pincel preserves that convention.
#[derive(Debug, PartialEq, Eq)]
pub struct Tileset {
    pub id: TilesetId,
    pub name: String,
    pub tile_size: (u32, u32),
    pub tiles: Vec<TileImage>,
    /// Display base index (typically `1`; tile `0` = empty).
    pub base_index: i32,
    pub external_file: Option<PathRef>,
}

/// Model of a tileset.
pub struct TilesetModel {
    pub id: TilesetId,
    pub name: Seq<char>,
    pub tile_size: (u32, u32),
    pub tiles: Seq<PixelBufferModel>,
    pub base_index: i32,
    pub external_file: Option<Seq<char>>,
}

impl View for Tileset {
    type V = TilesetModel;

    open spec fn view(&self) -> TilesetModel {
        TilesetModel {
            id: self.id,
            name: self.name@,
            tile_size: self.tile_size,
            tiles: self.tiles@.map_values(|t: TileImage| t.pixels@),
            base_index: self.base_index,
            external_file: match self.external_file {
                Some(p) => Some(p.0@),
                None => None,
            },
        }
    }
}

impl Tileset {
    /// Create an empty tileset (no tile images) with Aseprite-default
    /// `base_index = 1` and no external-file reference.
    pub fn new(id: TilesetId, name: &str, tile_size: (u32, u32)) -> (t: Self)
        ensures
            t@ == (TilesetModel {
                id,
                name: name@,
                tile_size,
                tiles: Seq::empty(),
                base_index: 1,
                external_file: None,
            }),
    {
        let t = Tileset {
            id,
            name: name.to_owned(),
            tile_size: (tile_size.0, tile_size.1),
            tiles: Vec::new(),
            base_index: 1,
            external_file: None,
        };
        proof {
            assert(t@.tiles =~= Seq::<PixelBufferModel>::empty());
        }
        t
    }

    /// Number of tile images explicitly stored in [`Tileset::tiles`].
    pub fn tile_count(&self) -> (n: usize)
        ensures
            n == self@.tiles.len(),
    {
        self.tiles.len()
    }

    /// Look up a tile image by its numeric id. Returns `None` if `tile_id`
    /// is past the end of [`Tileset::tiles`].
    pub fn tile(&self, tile_id: u32) -> (t: Option<&TileImage>)
        ensures
            match t {
                Some(img) => tile_id < self.tiles@.len() && *img == self.tiles@[tile_id as int],
                None => tile_id >= self.tiles@.len(),
            },
    {
        if (tile_id as usize) < self.tiles.len() {
            Some(&self.tiles[tile_id as usize])
        } else {
            None
        }
    }
}

impl Clone for Tileset {
    fn clone(&self) -> (t: Self)
        ensures
            t@ == self@,
    {
        let mut tiles: Vec<TileImage> = Vec::new();
        let n = self.tiles.len();
        for i in 0..n
            invariant
                n == self.tiles@.len(),
                tiles@.len() == i,
                forall|k: int| 0 <= k < i ==> #[trigger] tiles@[k].pixels@ == self.tiles@[k].pixels@,
        {
            tiles.push(self.tiles[i].clone());
        }
        let external_file = match &self.external_file {
            Some(p) => Some(p.clone()),
            None => None,
        };
        let t = Tileset {
            id: self.id,
            name: self.name.clone(),
            tile_size: self.tile_size,
            tiles,
            base_index: self.base_index,
            external_file,
        };
        proof {
            assert(t@.tiles =~= self@.tiles);
        }
        t
    }
}

} // verus!
