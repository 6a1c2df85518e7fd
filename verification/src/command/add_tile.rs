//! `AddTile` command — append a blank tile image to a tileset.
//!
//! The new tile is a fully transparent RGBA buffer of the tileset's
//! `tile_size`. It lands at the end of the tile list, so its tile id is the
//! previous tile count; `revert` pops it again.
use vstd::prelude::*;

use super::error::CommandError;
use super::{doc_wf, tileset_wf, CelsModel, Command};
use crate::document::cel::PixelBufferModel;
use crate::document::sprite::{
    first_tileset_at, lemma_tileset_pos, lemma_tileset_pos_update, no_tileset, tileset_pos,
    with_tileset, SpriteModel,
};
use crate::document::tileset::TilesetModel;
use crate::document::{CelMap, ColorMode, PixelBuffer, Sprite, TileImage, TilesetId};

verus! {

/// Append a transparent tile to the tileset with the given id.
#[derive(Debug, Clone)]
pub struct AddTile {
    pub tileset: TilesetId,
    /// `true` after a successful `apply`; consumed on `revert`.
    pub applied: bool,
}

/// A fully transparent RGBA tile of the given size.
pub open spec fn blank_tile(size: (u32, u32)) -> PixelBufferModel {
    PixelBufferModel {
        width: size.0,
        height: size.1,
        color_mode: ColorMode::Rgba,
        data: Seq::new((size.0 * size.1 * 4) as nat, |i: int| 0u8),
    }
}

/// The tileset with `id` in `doc`, its tile list replaced by `tiles`.
pub open spec fn tileset_with_tiles(
    doc: SpriteModel,
    id: TilesetId,
    tiles: Seq<PixelBufferModel>,
) -> TilesetModel {
    TilesetModel { tiles, ..doc.tilesets[tileset_pos(doc.tilesets, id)] }
}

impl AddTile {
    /// Append a fresh transparent tile to the tileset with id `tileset`.
    pub fn new(tileset: TilesetId) -> (c: Self)
        ensures
            c.tileset == tileset,
            !c.applied,
    {
        AddTile { tileset, applied: false }
    }
}

impl Command for AddTile {
    fn fits_doc(&self, doc: &Sprite) -> (b: bool) {
        true
    }

    open spec fn ready(&self) -> bool {
        true
    }

    fn is_ready(&self) -> (b: bool) {
        true
    }

    open spec fn applied_on(&self, doc: SpriteModel, cels: CelsModel) -> bool {
        self.applied && !no_tileset(doc.tilesets, self.tileset)
    }

    open spec fn reverted(&self, doc: SpriteModel, cels: CelsModel) -> (SpriteModel, CelsModel) {
        if self.applied && !no_tileset(doc.tilesets, self.tileset) {
            let tiles = doc.tilesets[tileset_pos(doc.tilesets, self.tileset)].tiles;
            let kept = if tiles.len() > 0 {
                tiles.drop_last()
            } else {
                tiles
            };
            (with_tileset(doc, self.tileset, tileset_with_tiles(doc, self.tileset, kept)), cels)
        } else {
            (doc, cels)
        }
    }

    open spec fn fails_with(&self, doc: SpriteModel, cels: CelsModel, e: CommandError) -> bool {
        e == CommandError::UnknownTileset(self.tileset.0)
    }

    open spec fn outcome(&self, doc: SpriteModel, cels: CelsModel) -> (SpriteModel, CelsModel) {
        {
            let t = doc.tilesets[tileset_pos(doc.tilesets, self.tileset)];
            (
                with_tileset(
                    doc,
                    self.tileset,
                    tileset_with_tiles(doc, self.tileset, t.tiles.push(blank_tile(t.tile_size))),
                ),
                cels,
            )
        }
    }

    open spec fn reverts_to(&self, back: Self, doc: SpriteModel, cels: CelsModel) -> bool {
        back.tileset == self.tileset
    }

    open spec fn succeeds_on(&self, doc: SpriteModel, cels: CelsModel) -> bool {
        !no_tileset(doc.tilesets, self.tileset)
    }

    fn apply(&mut self, doc: &mut Sprite, _cels: &mut CelMap) -> (r: Result<(), CommandError>)
        ensures
            r is Err ==> *final(self) == *old(self),
            final(self).tileset == old(self).tileset,
            match r {
                Ok(_) => !no_tileset(old(doc)@.tilesets, old(self).tileset) && final(doc)@
                    == with_tileset(
                    old(doc)@,
                    old(self).tileset,
                    tileset_with_tiles(
                        old(doc)@,
                        old(self).tileset,
                        old(doc)@.tilesets[tileset_pos(
                            old(doc)@.tilesets,
                            old(self).tileset,
                        )].tiles.push(
                            blank_tile(
                                old(doc)@.tilesets[tileset_pos(
                                    old(doc)@.tilesets,
                                    old(self).tileset,
                                )].tile_size,
                            ),
                        ),
                    ),
                ),
                Err(e) => no_tileset(old(doc)@.tilesets, old(self).tileset) && e
                    == CommandError::UnknownTileset(old(self).tileset.0),
            },
    {
        let id = self.tileset;
        let ghost d0 = doc@;
        match doc.tileset_mut(id) {
            Some(tileset) => {
                proof {
                    let i = choose|i: int| #![trigger d0.tilesets[i]]
                        first_tileset_at(d0.tilesets, id, i) && tileset@ == d0.tilesets[i];
                    assert(tileset_wf(d0.tilesets[i]));
                }
                let (tile_w, tile_h) = tileset.tile_size;
                let ghost old_tiles = tileset.tiles@;
                tileset.tiles.push(
                    TileImage { pixels: PixelBuffer::empty(tile_w, tile_h, ColorMode::Rgba) },
                );
                proof {
                    assert(tileset.tiles@.map_values(|t: TileImage| t.pixels@) =~= old_tiles.map_values(
                        |t: TileImage| t.pixels@,
                    ).push(blank_tile((tile_w, tile_h))));
                }
            },
            None => {
                return Err(CommandError::UnknownTileset(id.0));
            },
        }
        self.applied = true;
        proof {
            let i = choose|i: int| #![trigger d0.tilesets[i]]
                first_tileset_at(d0.tilesets, id, i) && doc@ == (SpriteModel {
                    tilesets: d0.tilesets.update(
                        i,
                        TilesetModel {
                            tiles: d0.tilesets[i].tiles.push(blank_tile(d0.tilesets[i].tile_size)),
                            ..d0.tilesets[i]
                        },
                    ),
                    ..d0
                });
            lemma_tileset_pos(d0.tilesets, id, i);
            let nt = TilesetModel {
                tiles: d0.tilesets[i].tiles.push(blank_tile(d0.tilesets[i].tile_size)),
                ..d0.tilesets[i]
            };
            lemma_tileset_pos_update(d0.tilesets, id, i, nt);
            assert(tileset_wf(d0.tilesets[i]));
            assert(nt.tiles.drop_last() =~= d0.tilesets[i].tiles);
            assert(doc@.tilesets.update(i, d0.tilesets[i]) =~= d0.tilesets);
            assert forall|t: int| 0 <= t < doc@.tilesets.len() implies #[trigger] tileset_wf(
                doc@.tilesets[t],
            ) by {
                if t != i {
                    assert(tileset_wf(d0.tilesets[t]));
                } else {
                    assert forall|k: int| 0 <= k < nt.tiles.len() implies crate::document::cel::buffer_wf(
                        #[trigger] nt.tiles[k],
                    ) by {
                        if k < d0.tilesets[i].tiles.len() {
                            assert(crate::document::cel::buffer_wf(d0.tilesets[i].tiles[k]));
                        }
                    }
                }
            }
        }
        Ok(())
    }

    fn revert(&mut self, doc: &mut Sprite, _cels: &mut CelMap)
        ensures
            forall|d: SpriteModel, c: CelsModel| #[trigger] final(self).reverted(d, c) == (d, c),
    {
        if !self.applied {
            return ;
        }
        self.applied = false;
        let id = self.tileset;
        let ghost d0 = doc@;
        match doc.tileset_mut(id) {
            Some(tileset) => {
                let ghost old_tiles = tileset.tiles@;
                let _ = tileset.tiles.pop();
                proof {
                    let om = old_tiles.map_values(|t: TileImage| t.pixels@);
                    if old_tiles.len() > 0 {
                        assert(tileset.tiles@.map_values(|t: TileImage| t.pixels@) =~= om.drop_last());
                    } else {
                        assert(tileset.tiles@.map_values(|t: TileImage| t.pixels@) =~= om);
                    }
                }
            },
            None => {},
        }
        proof {
            if !no_tileset(d0.tilesets, id) {
                let i = choose|i: int| #![trigger d0.tilesets[i]]
                    first_tileset_at(d0.tilesets, id, i) && doc@.tilesets == d0.tilesets.update(
                        i,
                        doc@.tilesets[i],
                    ) && doc@ == (SpriteModel { tilesets: doc@.tilesets, ..d0 });
                lemma_tileset_pos(d0.tilesets, id, i);
                let ot = d0.tilesets[i];
                assert(tileset_wf(ot));
                assert forall|t: int| 0 <= t < doc@.tilesets.len() implies #[trigger] tileset_wf(
                    doc@.tilesets[t],
                ) by {
                    if t != i {
                        assert(tileset_wf(d0.tilesets[t]));
                    } else {
                        let nt = doc@.tilesets[i];
                        assert forall|k: int| 0 <= k < nt.tiles.len() implies crate::document::cel::buffer_wf(
                            #[trigger] nt.tiles[k],
                        ) by {
                            assert(crate::document::cel::buffer_wf(ot.tiles[k]));
                        }
                    }
                }
            }
        }
    }
}

} // verus!
