//! `PlaceTile` command — write one [`TileRef`] into a tilemap cel's grid.
use vstd::prelude::*;

use super::error::CommandError;
use super::{cel_wf, CelsModel, Command};
use crate::document::cel::{CelDataModel, CelModel};
use crate::document::sprite::SpriteModel;
use crate::document::{Cel, CelData, CelMap, FrameIndex, LayerId, Sprite, TileRef};

verus! {

/// Place `new_tile` at grid cell `(grid_x, grid_y)` of the tilemap cel at
/// `(layer, frame)`.
#[derive(Debug, Clone, PartialEq, Eq)]
pub struct PlaceTile {
    pub layer: LayerId,
    pub frame: FrameIndex,
    pub grid_x: u32,
    pub grid_y: u32,
    pub new_tile: TileRef,
    /// `Some` after a successful `apply`; the prior `TileRef` used by `revert`.
    pub previous: Option<TileRef>,
}

/// Why placing a tile at `(gx, gy)` on the cel at `(layer, frame)` is
/// refused, if it is.
pub open spec fn tile_error(cels: CelsModel, layer: LayerId, frame: FrameIndex, gx: u32, gy: u32) -> Option<
    CommandError,
> {
    if !cels.contains_key((layer, frame)) {
        Some(CommandError::MissingCel { layer, frame })
    } else {
        match cels[(layer, frame)].data {
            CelDataModel::Tilemap { grid_w, grid_h, tiles } => if tiles.len() != grid_w * grid_h {
                Some(
                    CommandError::MalformedTilemapCel {
                        layer,
                        frame,
                        grid_w,
                        grid_h,
                        tiles_len: tiles.len() as usize,
                    },
                )
            } else if gx >= grid_w || gy >= grid_h {
                Some(CommandError::TileCoordOutOfBounds { x: gx, y: gy, grid_w, grid_h })
            } else {
                None
            },
            _ => Some(CommandError::NotATilemapCel { layer, frame }),
        }
    }
}

/// `cels` with grid cell `(gx, gy)` of the tilemap cel at `key` set to `t`.
pub open spec fn with_tile(
    cels: CelsModel,
    key: (LayerId, FrameIndex),
    gx: u32,
    gy: u32,
    t: TileRef,
) -> CelsModel {
    let c = cels[key];
    match c.data {
        CelDataModel::Tilemap { grid_w, grid_h, tiles } => cels.insert(
            key,
            CelModel {
                data: CelDataModel::Tilemap {
                    grid_w,
                    grid_h,
                    tiles: tiles.update(gy * grid_w + gx, t),
                },
                ..c
            },
        ),
        _ => cels,
    }
}

/// The tile at grid cell `(gx, gy)` of the tilemap cel at `key`.
pub open spec fn tile_at(cels: CelsModel, key: (LayerId, FrameIndex), gx: u32, gy: u32) -> TileRef {
    match cels[key].data {
        CelDataModel::Tilemap { grid_w, grid_h, tiles } => tiles[gy * grid_w + gx],
        _ => arbitrary(),
    }
}

/// Row-major grid cells of a `gw × gh` grid address `0 .. gw * gh`.
pub proof fn lemma_grid_index(gx: int, gy: int, gw: int, gh: int)
    requires
        0 <= gx < gw,
        0 <= gy < gh,
    ensures
        0 <= gy * gw <= gy * gw + gx < gw * gh,
{
    assert(0 <= gy * gw) by (nonlinear_arith)
        requires
            0 <= gy,
            0 <= gw,
    ;
    assert(gy * gw + gx < gw * gh) by (nonlinear_arith)
        requires
            0 <= gx < gw,
            0 <= gy < gh,
    ;
}

/// The tile grid of a tilemap cel.
fn tiles_mut(cel: &mut Cel) -> (t: &mut Vec<TileRef>)
    requires
        old(cel).data is Tilemap,
    ensures
        match old(cel)@.data {
            CelDataModel::Tilemap { grid_w, grid_h, tiles } => t@ == tiles && final(cel)@ == (
            CelModel {
                data: CelDataModel::Tilemap { grid_w, grid_h, tiles: final(t)@ },
                ..old(cel)@
            }),
            _ => false,
        },
{
    match &mut cel.data {
        CelData::Tilemap { tiles, .. } => tiles,
        _ => unreached(),
    }
}

/// Write `t` at grid cell `(gx, gy)` of the tilemap cel at `(layer, frame)`
/// and return the tile it replaces, or why that is refused.
fn swap_tile(cels: &mut CelMap, layer: LayerId, frame: FrameIndex, gx: u32, gy: u32, t: TileRef) -> (r:
    Result<TileRef, CommandError>)
    requires
        old(cels).wf(),
        super::cels_wf(old(cels)@),
    ensures
        final(cels).wf(),
        super::cels_wf(final(cels)@),
        match r {
            Ok(prev) => tile_error(old(cels)@, layer, frame, gx, gy) is None && prev == tile_at(
                old(cels)@,
                (layer, frame),
                gx,
                gy,
            ) && final(cels)@ == with_tile(old(cels)@, (layer, frame), gx, gy, t),
            Err(e) => tile_error(old(cels)@, layer, frame, gx, gy) == Some(e) && final(cels)@
                == old(cels)@,
        },
{
    let ghost c0 = cels@;
    let ghost key = (layer, frame);
    let cel = match cels.get_mut(layer, frame) {
        Some(c) => c,
        None => {
            return Err(CommandError::MissingCel { layer, frame });
        },
    };
    proof {
        assert(cel_wf(c0[key]));
    }
    let (grid_w, grid_h, tiles_len) = match &cel.data {
        CelData::Tilemap { grid_w, grid_h, tiles } => (*grid_w, *grid_h, tiles.len()),
        _ => {
            return Err(CommandError::NotATilemapCel { layer, frame });
        },
    };
    assert((grid_w as u64) * (grid_h as u64) <= u64::MAX) by (nonlinear_arith)
        requires
            grid_w <= u32::MAX,
            grid_h <= u32::MAX,
    ;
    if tiles_len as u64 != (grid_w as u64) * (grid_h as u64) {
        return Err(CommandError::MalformedTilemapCel { layer, frame, grid_w, grid_h, tiles_len });
    }
    if gx >= grid_w || gy >= grid_h {
        return Err(CommandError::TileCoordOutOfBounds { x: gx, y: gy, grid_w, grid_h });
    }
    let tiles = tiles_mut(cel);
    let _n = tiles.len();
    proof {
        lemma_grid_index(gx as int, gy as int, grid_w as int, grid_h as int);
    }
    let index = (gy as usize) * (grid_w as usize) + gx as usize;
    let prev = tiles[index];
    tiles.set(index, t);
    proof {
        assert(cel_wf(cels@[key]));
        assert forall|k: (LayerId, FrameIndex)| #[trigger] cels@.contains_key(k) implies cel_wf(
            cels@[k],
        ) by {
            if k != key {
                assert(cel_wf(c0[k]));
            }
        }
    }
    Ok(prev)
}

impl PlaceTile {
    pub fn new(layer: LayerId, frame: FrameIndex, grid_x: u32, grid_y: u32, tile: TileRef) -> (c: Self)
        ensures
            c == (PlaceTile { layer, frame, grid_x, grid_y, new_tile: tile, previous: None }),
    {
        PlaceTile { layer, frame, grid_x, grid_y, new_tile: tile, previous: None }
    }
}

impl Command for PlaceTile {
    fn fits_doc(&self, doc: &Sprite) -> (b: bool) {
        true
    }

    open spec fn ready(&self) -> bool {
        true
    }

    fn is_ready(&self) -> (b: bool) {
        true
    }

    open spec fn applied_on(&self, doc: SpriteModel, cels: CelsModel) -> bool {
        self.previous is Some
    }

    open spec fn reverted(&self, doc: SpriteModel, cels: CelsModel) -> (SpriteModel, CelsModel) {
        match self.previous {
            Some(p) => if tile_error(cels, self.layer, self.frame, self.grid_x, self.grid_y) is None {
                (doc, with_tile(cels, (self.layer, self.frame), self.grid_x, self.grid_y, p))
            } else {
                (doc, cels)
            },
            None => (doc, cels),
        }
    }

    open spec fn fails_with(&self, doc: SpriteModel, cels: CelsModel, e: CommandError) -> bool {
        tile_error(cels, self.layer, self.frame, self.grid_x, self.grid_y) == Some(e)
    }

    open spec fn outcome(&self, doc: SpriteModel, cels: CelsModel) -> (SpriteModel, CelsModel) {
        (doc, with_tile(cels, (self.layer, self.frame), self.grid_x, self.grid_y, self.new_tile))
    }

    open spec fn reverts_to(&self, back: Self, doc: SpriteModel, cels: CelsModel) -> bool {
        back == (PlaceTile { previous: back.previous, ..*self })
    }

    open spec fn succeeds_on(&self, doc: SpriteModel, cels: CelsModel) -> bool {
        tile_error(cels, self.layer, self.frame, self.grid_x, self.grid_y) is None
    }

    fn apply(&mut self, doc: &mut Sprite, cels: &mut CelMap) -> (r: Result<(), CommandError>)
        ensures
            r is Err ==> *final(self) == *old(self),
            final(doc)@ == old(doc)@,
            final(self).layer == old(self).layer,
            final(self).frame == old(self).frame,
            final(self).grid_x == old(self).grid_x,
            final(self).grid_y == old(self).grid_y,
            match r {
                Ok(_) => tile_error(
                    old(cels)@,
                    old(self).layer,
                    old(self).frame,
                    old(self).grid_x,
                    old(self).grid_y,
                ) is None && final(cels)@ == with_tile(
                    old(cels)@,
                    (old(self).layer, old(self).frame),
                    old(self).grid_x,
                    old(self).grid_y,
                    old(self).new_tile,
                ) && final(self).previous == Some(
                    tile_at(old(cels)@, (old(self).layer, old(self).frame), old(self).grid_x, old(self).grid_y),
                ),
                Err(e) => tile_error(
                    old(cels)@,
                    old(self).layer,
                    old(self).frame,
                    old(self).grid_x,
                    old(self).grid_y,
                ) == Some(e),
            },
    {
        let ghost c0 = cels@;
        let prev = swap_tile(cels, self.layer, self.frame, self.grid_x, self.grid_y, self.new_tile)?;
        self.previous = Some(prev);
        proof {
            let key = (self.layer, self.frame);
            match c0[key].data {
                CelDataModel::Tilemap { grid_w, grid_h, tiles } => {
                    lemma_grid_index(self.grid_x as int, self.grid_y as int, grid_w as int, grid_h as int);
                    let i = self.grid_y * grid_w + self.grid_x;
                    assert(tiles.update(i, self.new_tile).update(i, prev) =~= tiles);
                },
                _ => {},
            }
            assert(with_tile(cels@, key, self.grid_x, self.grid_y, prev) =~= c0);
        }
        Ok(())
    }

    fn revert(&mut self, _doc: &mut Sprite, cels: &mut CelMap)
        ensures
            forall|d: SpriteModel, c: CelsModel| #[trigger] final(self).reverted(d, c) == (d, c),
    {
        let prior = match self.previous.take() {
            Some(p) => p,
            None => {
                return ;
            },
        };
        let _ = swap_tile(cels, self.layer, self.frame, self.grid_x, self.grid_y, prior);
    }
}

} // verus!
