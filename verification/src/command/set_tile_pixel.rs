//! `SetTilePixel` command — write one RGBA pixel into a tile image of a
//! tileset. Every tilemap cel that references the tile shows the change.
use vstd::prelude::*;

use super::error::CommandError;
use super::{tileset_wf, CelsModel, Command};
use crate::document::cel::{buffer_wf, pixel_at, with_pixel, PixelBufferModel};
use crate::document::sprite::{
    first_tileset_at, lemma_first_tileset_pos_exists, lemma_tileset_pos, lemma_tileset_pos_update, no_tileset, tileset_pos,
    SpriteModel,
};
use crate::document::tileset::TilesetModel;
use crate::document::{CelMap, ColorMode, PixelBuffer, Rgba, Sprite, TileImage, Tileset, TilesetId};

verus! {

/// Write `new_color` at tile-local `(x, y)` of tile `tile_id` in `tileset`.
#[derive(Debug, Clone, PartialEq, Eq)]
pub struct SetTilePixel {
    pub tileset: TilesetId,
    pub tile_id: u32,
    pub x: u32,
    pub y: u32,
    pub new_color: Rgba,
    /// `Some` after a successful `apply`; carries the prior pixel value
    /// used by `revert`.
    pub previous: Option<Rgba>,
}

/// The pixels of tile `tid` of the tileset with id `ts`.
pub open spec fn tile_buf(doc: SpriteModel, ts: TilesetId, tid: u32) -> PixelBufferModel {
    doc.tilesets[tileset_pos(doc.tilesets, ts)].tiles[tid as int]
}

/// Why writing tile-local `(x, y)` of tile `tid` in tileset `ts` is
/// refused, if it is.
pub open spec fn tile_pixel_error(doc: SpriteModel, ts: TilesetId, tid: u32, x: u32, y: u32) -> Option<
    CommandError,
> {
    if no_tileset(doc.tilesets, ts) {
        Some(CommandError::UnknownTileset(ts.0))
    } else if tid >= doc.tilesets[tileset_pos(doc.tilesets, ts)].tiles.len() {
        Some(CommandError::UnknownTile { tileset: ts.0, tile_id: tid })
    } else if tile_buf(doc, ts, tid).color_mode != ColorMode::Rgba {
        Some(CommandError::UnsupportedColorMode)
    } else if x >= tile_buf(doc, ts, tid).width || y >= tile_buf(doc, ts, tid).height {
        Some(
            CommandError::TilePixelOutOfBounds {
                tileset: ts.0,
                tile_id: tid,
                x,
                y,
                width: tile_buf(doc, ts, tid).width,
                height: tile_buf(doc, ts, tid).height,
            },
        )
    } else {
        None
    }
}

/// `doc` with tile `tid` of tileset `ts` replaced by `b`.
pub open spec fn with_tile_buf(doc: SpriteModel, ts: TilesetId, tid: u32, b: PixelBufferModel) -> SpriteModel {
    let i = tileset_pos(doc.tilesets, ts);
    let t = doc.tilesets[i];
    SpriteModel {
        tilesets: doc.tilesets.update(i, TilesetModel { tiles: t.tiles.update(tid as int, b), ..t }),
        ..doc
    }
}

/// `doc` with pixel `(x, y)` of tile `tid` of tileset `ts` set to `c`.
pub open spec fn with_tile_pixel(doc: SpriteModel, ts: TilesetId, tid: u32, x: u32, y: u32, c: Rgba) -> SpriteModel {
    let b = tile_buf(doc, ts, tid);
    with_tile_buf(
        doc,
        ts,
        tid,
        PixelBufferModel { data: with_pixel(b.data, b.width as int, x as int, y as int, c), ..b },
    )
}

/// Putting a tile's own pixels back changes nothing.
proof fn lemma_with_tile_buf_same(doc: SpriteModel, ts: TilesetId, tid: u32)
    requires
        !no_tileset(doc.tilesets, ts),
        tid < doc.tilesets[tileset_pos(doc.tilesets, ts)].tiles.len(),
    ensures
        with_tile_buf(doc, ts, tid, tile_buf(doc, ts, tid)) == doc,
{
    let i = lemma_first_tileset_pos_exists(doc.tilesets, ts);
    let t = doc.tilesets[i];
    assert(t.tiles.update(tid as int, t.tiles[tid as int]) =~= t.tiles);
    assert(doc.tilesets.update(i, TilesetModel { tiles: t.tiles, ..t }) =~= doc.tilesets);
}

/// The pixels of tile `tid` of the tileset with id `ts`, or why there is no
/// such tile.
fn tile_mut(doc: &mut Sprite, ts: TilesetId, tid: u32) -> (r: Result<&mut PixelBuffer, CommandError>)
    ensures
        match r {
            Ok(b) => !no_tileset(old(doc)@.tilesets, ts) && tid < old(doc)@.tilesets[tileset_pos(
                old(doc)@.tilesets,
                ts,
            )].tiles.len() && b@ == tile_buf(old(doc)@, ts, tid) && final(doc)@ == with_tile_buf(
                old(doc)@,
                ts,
                tid,
                final(b)@,
            ),
            Err(e) => final(doc)@ == old(doc)@ && (if no_tileset(old(doc)@.tilesets, ts) {
                e == CommandError::UnknownTileset(ts.0)
            } else {
                tid >= old(doc)@.tilesets[tileset_pos(old(doc)@.tilesets, ts)].tiles.len() && e
                    == CommandError::UnknownTile { tileset: ts.0, tile_id: tid }
            }),
        },
{
    let ghost d0 = doc@;
    let i = match doc.tileset_index(ts) {
        Some(i) => i,
        None => {
            return Err(CommandError::UnknownTileset(ts.0));
        },
    };
    proof {
        lemma_tileset_pos(d0.tilesets, ts, i as int);
    }
    if tid as usize >= doc.tilesets[i].tiles.len() {
        return Err(CommandError::UnknownTile { tileset: ts.0, tile_id: tid });
    }
    proof {
        let s0 = doc.tilesets@;
        let t0 = s0[i as int].tiles@;
        let k = tid as int;
        assert forall|v: Tileset| #![trigger s0.update(i as int, v)]
            s0.update(i as int, v).map_values(|t: Tileset| t@) == s0.map_values(|t: Tileset| t@).update(
                i as int,
                v@,
            ) by {
            assert(s0.update(i as int, v).map_values(|t: Tileset| t@) =~= s0.map_values(
                |t: Tileset| t@,
            ).update(i as int, v@));
        }
        assert forall|v: TileImage| #![trigger t0.update(k, v)]
            t0.update(k, v).map_values(|t: TileImage| t.pixels@) == t0.map_values(
                |t: TileImage| t.pixels@,
            ).update(k, v.pixels@) by {
            assert(t0.update(k, v).map_values(|t: TileImage| t.pixels@) =~= t0.map_values(
                |t: TileImage| t.pixels@,
            ).update(k, v.pixels@));
        }
    }
    Ok(&mut doc.tilesets[i].tiles[tid as usize].pixels)
}

/// Write `c` at `(x, y)` of tile `tid` in tileset `ts` and return the pixel
/// it replaces, or why that is refused.
fn swap_tile_pixel(doc: &mut Sprite, ts: TilesetId, tid: u32, x: u32, y: u32, c: Rgba) -> (r: Result<
    Rgba,
    CommandError,
>)
    requires
        super::tiles_wf(old(doc)@),
    ensures
        super::tiles_wf(final(doc)@),
        match r {
            Ok(prev) => tile_pixel_error(old(doc)@, ts, tid, x, y) is None && prev == pixel_at(
                tile_buf(old(doc)@, ts, tid).data,
                tile_buf(old(doc)@, ts, tid).width as int,
                x as int,
                y as int,
            ) && final(doc)@ == with_tile_pixel(old(doc)@, ts, tid, x, y, c),
            Err(e) => tile_pixel_error(old(doc)@, ts, tid, x, y) == Some(e) && final(doc)@ == old(
                doc,
            )@,
        },
{
    let ghost d0 = doc@;
    let ghost pos = tileset_pos(d0.tilesets, ts);
    let tile = tile_mut(doc, ts, tid)?;
    proof {
        lemma_first_tileset_pos_exists(d0.tilesets, ts);
        lemma_with_tile_buf_same(d0, ts, tid);
        assert(tileset_wf(d0.tilesets[pos]));
        assert(buffer_wf(d0.tilesets[pos].tiles[tid as int]));
    }
    if tile.color_mode != ColorMode::Rgba {
        return Err(CommandError::UnsupportedColorMode);
    }
    if x >= tile.width || y >= tile.height {
        return Err(
            CommandError::TilePixelOutOfBounds {
                tileset: ts.0,
                tile_id: tid,
                x,
                y,
                width: tile.width,
                height: tile.height,
            },
        );
    }
    let prev = tile.read_pixel(x, y);
    tile.write_pixel(x, y, c);
    proof {
        let nt = TilesetModel {
            tiles: d0.tilesets[pos].tiles.update(tid as int, doc@.tilesets[pos].tiles[tid as int]),
            ..d0.tilesets[pos]
        };
        lemma_tileset_pos_update(d0.tilesets, ts, pos, nt);
        assert forall|t: int| 0 <= t < doc@.tilesets.len() implies #[trigger] tileset_wf(
            doc@.tilesets[t],
        ) by {
            assert(tileset_wf(d0.tilesets[t]));
            if t == pos {
                assert forall|k: int| 0 <= k < nt.tiles.len() implies buffer_wf(
                    #[trigger] nt.tiles[k],
                ) by {
                    assert(buffer_wf(d0.tilesets[pos].tiles[k]));
                }
            }
        }
    }
    Ok(prev)
}

impl SetTilePixel {
    /// Build a new `SetTilePixel` targeting `(x, y)` (tile-local) on
    /// `tileset::tiles[tile_id]`.
    pub fn new(tileset: TilesetId, tile_id: u32, x: u32, y: u32, color: Rgba) -> (c: Self)
        ensures
            c == (SetTilePixel { tileset, tile_id, x, y, new_color: color, previous: None }),
    {
        SetTilePixel { tileset, tile_id, x, y, new_color: color, previous: None }
    }
}

impl Command for SetTilePixel {
    fn fits_doc(&self, doc: &Sprite) -> (b: bool) {
        true
    }

    open spec fn ready(&self) -> bool {
        true
    }

    fn is_ready(&self) -> (b: bool) {
        true
    }

    open spec fn applied_on(&self, doc: SpriteModel, cels: CelsModel) -> bool {
        self.previous is Some
    }

    open spec fn reverted(&self, doc: SpriteModel, cels: CelsModel) -> (SpriteModel, CelsModel) {
        match self.previous {
            Some(p) => if tile_pixel_error(doc, self.tileset, self.tile_id, self.x, self.y) is None {
                (with_tile_pixel(doc, self.tileset, self.tile_id, self.x, self.y, p), cels)
            } else {
                (doc, cels)
            },
            None => (doc, cels),
        }
    }

    open spec fn fails_with(&self, doc: SpriteModel, cels: CelsModel, e: CommandError) -> bool {
        tile_pixel_error(doc, self.tileset, self.tile_id, self.x, self.y) == Some(e)
    }

    open spec fn outcome(&self, doc: SpriteModel, cels: CelsModel) -> (SpriteModel, CelsModel) {
        (
            with_tile_pixel(doc, self.tileset, self.tile_id, self.x, self.y, self.new_color),
            cels,
        )
    }

    open spec fn reverts_to(&self, back: Self, doc: SpriteModel, cels: CelsModel) -> bool {
        back == (SetTilePixel { previous: back.previous, ..*self })
    }

    open spec fn succeeds_on(&self, doc: SpriteModel, cels: CelsModel) -> bool {
        tile_pixel_error(doc, self.tileset, self.tile_id, self.x, self.y) is None
    }

    fn apply(&mut self, doc: &mut Sprite, cels: &mut CelMap) -> (r: Result<(), CommandError>)
        ensures
            r is Err ==> *final(self) == *old(self),
            final(self).tileset == old(self).tileset,
            final(self).tile_id == old(self).tile_id,
            final(self).x == old(self).x,
            final(self).y == old(self).y,
            match r {
                Ok(_) => tile_pixel_error(
                    old(doc)@,
                    old(self).tileset,
                    old(self).tile_id,
                    old(self).x,
                    old(self).y,
                ) is None && final(doc)@ == with_tile_pixel(
                    old(doc)@,
                    old(self).tileset,
                    old(self).tile_id,
                    old(self).x,
                    old(self).y,
                    old(self).new_color,
                ),
                Err(e) => tile_pixel_error(
                    old(doc)@,
                    old(self).tileset,
                    old(self).tile_id,
                    old(self).x,
                    old(self).y,
                ) == Some(e),
            },
    {
        let ghost d0 = doc@;
        let prev = swap_tile_pixel(doc, self.tileset, self.tile_id, self.x, self.y, self.new_color)?;
        self.previous = Some(prev);
        proof {
            let ts = self.tileset;
            let pos = tileset_pos(d0.tilesets, ts);
            let b = tile_buf(d0, ts, self.tile_id);
            lemma_first_tileset_pos_exists(d0.tilesets, ts);
            assert(tileset_wf(d0.tilesets[pos]));
            crate::document::cel::lemma_pixel_in_bounds(
                b.width as int,
                b.height as int,
                self.x as int,
                self.y as int,
            );
            crate::document::cel::lemma_with_pixel_undo(
                b.data,
                b.width as int,
                self.x as int,
                self.y as int,
                self.new_color,
            );
            let nt = TilesetModel {
                tiles: d0.tilesets[pos].tiles.update(self.tile_id as int, doc@.tilesets[pos].tiles[self.tile_id as int]),
                ..d0.tilesets[pos]
            };
            lemma_tileset_pos_update(d0.tilesets, ts, pos, nt);
            assert(doc@.tilesets[pos].tiles.update(self.tile_id as int, b) =~= d0.tilesets[pos].tiles);
            assert(doc@.tilesets.update(pos, d0.tilesets[pos]) =~= d0.tilesets);
        }
        Ok(())
    }

    fn revert(&mut self, doc: &mut Sprite, _cels: &mut CelMap)
        ensures
            forall|d: SpriteModel, c: CelsModel| #[trigger] final(self).reverted(d, c) == (d, c),
    {
        let prior = match self.previous.take() {
            Some(p) => p,
            None => {
                return ;
            },
        };
        let _ = swap_tile_pixel(doc, self.tileset, self.tile_id, self.x, self.y, prior);
    }
}

} // verus!
