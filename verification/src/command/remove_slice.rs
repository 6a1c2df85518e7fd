//! `RemoveSlice` command — drop a slice from the sprite by id.
//!
//! The slice's position in the list is remembered so `revert` puts it back
//! where it was: the file writer serialises slices in list order.
use vstd::prelude::*;

use super::add_slice::{first_slice_at, lemma_slice_pos, no_slice, slice_index, slice_pos};
use super::error::CommandError;
use super::{CelsModel, Command};
use crate::document::sprite::SpriteModel;
use crate::document::{CelMap, Slice, SliceId, Sprite};

verus! {

/// Remove the slice with the given id. `revert` re-inserts it at its
/// original index.
#[derive(Debug, Clone)]
pub struct RemoveSlice {
    pub id: SliceId,
    /// `Some((index, slice))` after a successful `apply`; consumed on `revert`.
    pub removed: Option<(usize, Slice)>,
}

impl RemoveSlice {
    pub fn new(id: SliceId) -> (c: Self)
        ensures
            c.id == id,
            c.removed is None,
    {
        RemoveSlice { id, removed: None }
    }
}

impl Command for RemoveSlice {
    fn fits_doc(&self, doc: &Sprite) -> (b: bool) {
        true
    }

    open spec fn ready(&self) -> bool {
        true
    }

    fn is_ready(&self) -> (b: bool) {
        true
    }

    open spec fn applied_on(&self, doc: SpriteModel, cels: CelsModel) -> bool {
        self.removed is Some
    }

    open spec fn reverted(&self, doc: SpriteModel, cels: CelsModel) -> (SpriteModel, CelsModel) {
        match self.removed {
            Some((i, s)) => {
                let target = if i <= doc.slices.len() {
                    i as int
                } else {
                    doc.slices.len() as int
                };
                (SpriteModel { slices: doc.slices.insert(target, s@), ..doc }, cels)
            },
            None => (doc, cels),
        }
    }

    open spec fn fails_with(&self, doc: SpriteModel, cels: CelsModel, e: CommandError) -> bool {
        e == CommandError::UnknownSlice(self.id.0)
    }

    open spec fn outcome(&self, doc: SpriteModel, cels: CelsModel) -> (SpriteModel, CelsModel) {
        (SpriteModel { slices: doc.slices.remove(slice_pos(doc.slices, self.id)), ..doc }, cels)
    }

    open spec fn reverts_to(&self, back: Self, doc: SpriteModel, cels: CelsModel) -> bool {
        back.id == self.id
    }

    open spec fn succeeds_on(&self, doc: SpriteModel, cels: CelsModel) -> bool {
        !no_slice(doc.slices, self.id)
    }

    fn apply(&mut self, doc: &mut Sprite, _cels: &mut CelMap) -> (r: Result<(), CommandError>)
        ensures
            r is Err ==> *final(self) == *old(self),
            final(self).id == old(self).id,
            match r {
                Ok(_) => final(self).removed matches Some((i, s)) && first_slice_at(
                    old(doc)@.slices,
                    old(self).id,
                    i as int,
                ) && s@ == old(doc)@.slices[i as int] && final(doc)@ == (SpriteModel {
                    slices: old(doc)@.slices.remove(i as int),
                    ..old(doc)@
                }),
                Err(e) => no_slice(old(doc)@.slices, old(self).id) && e == CommandError::UnknownSlice(
                    old(self).id.0,
                ),
            },
    {
        let index = match slice_index(doc, self.id) {
            Some(i) => i,
            None => {
                return Err(CommandError::UnknownSlice(self.id.0));
            },
        };
        let ghost old_s = doc.slices@;
        let slice = doc.slices.remove(index);
        proof {
            assert(doc.slices@.map_values(|s: Slice| s@) =~= old_s.map_values(|s: Slice| s@).remove(
                index as int,
            ));
            assert(doc@.slices.insert(index as int, slice@) =~= old_s.map_values(|s: Slice| s@));
        }
        self.removed = Some((index, slice));
        Ok(())
    }

    fn revert(&mut self, doc: &mut Sprite, _cels: &mut CelMap)
        ensures
            forall|d: SpriteModel, c: CelsModel| #[trigger] final(self).reverted(d, c) == (d, c),
    {
        let (index, slice) = match self.removed.take() {
            Some(p) => p,
            None => return ,
        };
        let target = if index <= doc.slices.len() {
            index
        } else {
            doc.slices.len()
        };
        let ghost old_s = doc.slices@;
        let ghost sm = slice@;
        doc.slices.insert(target, slice);
        proof {
            assert(doc.slices@.map_values(|s: Slice| s@) =~= old_s.map_values(|s: Slice| s@).insert(
                target as int,
                sm,
            ));
        }
        assert(doc@.tilesets == old(doc)@.tilesets);
    }
}

} // verus!
