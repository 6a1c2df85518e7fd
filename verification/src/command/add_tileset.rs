//! `AddTileset` command — append a tileset to the sprite.
//!
//! Tilesets carry no z-order; the list order only matters for the file
//! writer, so new tilesets land at the end. Validation rejects duplicate
//! tileset ids.
use vstd::prelude::*;

use super::error::CommandError;
use super::{tileset_wf, CelsModel, Command};
use crate::document::cel::buffer_wf;
use crate::document::sprite::{no_tileset, SpriteModel};
use crate::document::{CelMap, Sprite, Tileset};

verus! {

/// Append a [`Tileset`] to the sprite. `revert` pops it back.
#[derive(Debug, Clone)]
pub struct AddTileset {
    /// `Some` until applied; consumed on `apply` and re-populated on `revert`.
    pub tileset: Option<Tileset>,
    /// `Some(index)` after a successful `apply`; consumed on `revert`.
    pub inserted_index: Option<usize>,
}

/// Whether every tile image of `t` is well formed and its tile size is
/// addressable as an RGBA buffer.
pub fn tileset_is_wf(t: &Tileset) -> (b: bool)
    ensures
        b == tileset_wf(t@),
{
    let w = t.tile_size.0 as u128;
    let h = t.tile_size.1 as u128;
    assert(w * h <= 0xffff_ffff_ffff_ffff_ffff_ffff_ffff_ffff) by (nonlinear_arith)
        requires
            w <= 0xffff_ffff,
            h <= 0xffff_ffff,
    ;
    assert(w * h * 4 <= 0xffff_ffff_ffff_ffff_ffff_ffff_ffff_ffff) by (nonlinear_arith)
        requires
            w <= 0xffff_ffff,
            h <= 0xffff_ffff,
    ;
    if w * h * 4 > usize::MAX as u128 {
        return false;
    }
    let n = t.tiles.len();
    let mut i: usize = 0;
    while i < n
        invariant
            n == t.tiles@.len(),
            i <= n,
            forall|k: int| 0 <= k < i ==> buffer_wf(#[trigger] t@.tiles[k]),
        decreases n - i,
    {
        if !t.tiles[i].pixels.is_well_formed() {
            assert(t@.tiles[i as int] == t.tiles@[i as int].pixels@);
            assert(!buffer_wf(t@.tiles[i as int]));
            return false;
        }
        i = i + 1;
    }
    true
}

impl AddTileset {
    /// Append `tileset` to the sprite's tileset list.
    pub fn new(tileset: Tileset) -> (c: Self)
        ensures
            c.tileset == Some(tileset),
            c.inserted_index is None,
    {
        AddTileset { tileset: Some(tileset), inserted_index: None }
    }
}

impl Command for AddTileset {
    fn fits_doc(&self, doc: &Sprite) -> (b: bool) {
        true
    }

    /// The payload is present and is itself a well-formed tileset.
    open spec fn ready(&self) -> bool {
        self.tileset is Some && tileset_wf(self.tileset.unwrap()@)
    }

    fn is_ready(&self) -> (b: bool) {
        match &self.tileset {
            Some(t) => tileset_is_wf(t),
            None => false,
        }
    }

    open spec fn applied_on(&self, doc: SpriteModel, cels: CelsModel) -> bool {
        self.inserted_index matches Some(i) && i < doc.tilesets.len()
    }

    open spec fn reverted(&self, doc: SpriteModel, cels: CelsModel) -> (SpriteModel, CelsModel) {
        match self.inserted_index {
            Some(i) => if i < doc.tilesets.len() {
                (SpriteModel { tilesets: doc.tilesets.remove(i as int), ..doc }, cels)
            } else {
                (doc, cels)
            },
            None => (doc, cels),
        }
    }

    open spec fn fails_with(&self, doc: SpriteModel, cels: CelsModel, e: CommandError) -> bool {
        e == CommandError::DuplicateTilesetId(self.tileset.unwrap().id.0)
    }

    open spec fn outcome(&self, doc: SpriteModel, cels: CelsModel) -> (SpriteModel, CelsModel) {
        (SpriteModel { tilesets: doc.tilesets.push(self.tileset.unwrap()@), ..doc }, cels)
    }

    open spec fn reverts_to(&self, back: Self, doc: SpriteModel, cels: CelsModel) -> bool {
        match self.inserted_index {
            Some(i) => if i < doc.tilesets.len() {
                back.tileset matches Some(t) && t@ == doc.tilesets[i as int]
            } else {
                back.tileset == self.tileset
            },
            None => back.tileset == self.tileset,
        }
    }

    open spec fn succeeds_on(&self, doc: SpriteModel, cels: CelsModel) -> bool {
        no_tileset(doc.tilesets, self.tileset.unwrap().id)
    }

    fn apply(&mut self, doc: &mut Sprite, _cels: &mut CelMap) -> (r: Result<(), CommandError>)
        ensures
            r is Err ==> *final(self) == *old(self),
            ({
                let t = old(self).tileset.unwrap();
                match r {
                    Ok(_) => no_tileset(old(doc)@.tilesets, t.id) && final(doc)@ == (SpriteModel {
                        tilesets: old(doc)@.tilesets.push(t@),
                        ..old(doc)@
                    }),
                    Err(e) => !no_tileset(old(doc)@.tilesets, t.id) && e
                        == CommandError::DuplicateTilesetId(t.id.0),
                }
            }),
    {
        let id = match &self.tileset {
            Some(t) => t.id,
            None => {
                return Err(CommandError::UnknownTileset(0));
            },
        };
        if doc.tileset_index(id).is_some() {
            return Err(CommandError::DuplicateTilesetId(id.0));
        }
        let tileset = self.tileset.take().unwrap();
        let ghost tm = tileset@;
        let ghost old_t = doc.tilesets@;
        let index = doc.tilesets.len();
        doc.tilesets.push(tileset);
        self.inserted_index = Some(index);
        proof {
            assert(doc.tilesets@.map_values(|t: Tileset| t@) =~= old_t.map_values(|t: Tileset| t@).push(tm));
            assert(doc@.tilesets.remove(index as int) =~= old_t.map_values(|t: Tileset| t@));
        }
        Ok(())
    }

    fn revert(&mut self, doc: &mut Sprite, _cels: &mut CelMap)
        ensures
            forall|d: SpriteModel, c: CelsModel| #[trigger] final(self).reverted(d, c) == (d, c),
    {
        let index = match self.inserted_index.take() {
            Some(i) => i,
            None => return ,
        };
        if index < doc.tilesets.len() {
            let ghost old_t = doc.tilesets@;
            let tileset = doc.tilesets.remove(index);
            proof {
                assert(doc.tilesets@.map_values(|t: Tileset| t@) =~= old_t.map_values(
                    |t: Tileset| t@,
                ).remove(index as int));
                let o = old(doc)@.tilesets;
                assert(o =~= old_t.map_values(|t: Tileset| t@));
                assert(tileset_wf(o[index as int]));
                assert forall|t: int| 0 <= t < doc@.tilesets.len() implies #[trigger] tileset_wf(
                    doc@.tilesets[t],
                ) by {
                    if t < index {
                        assert(tileset_wf(o[t]));
                    } else {
                        assert(tileset_wf(o[t + 1]));
                    }
                }
            }
            self.tileset = Some(tileset);
        }
    }
}

} // verus!
