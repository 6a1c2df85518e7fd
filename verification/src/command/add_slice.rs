//! `AddSlice` command — append a slice to the sprite's slice list.
use vstd::prelude::*;

use super::error::CommandError;
use super::{CelsModel, Command};
use crate::document::slice::SliceModel;
use crate::document::sprite::SpriteModel;
use crate::document::{CelMap, Slice, SliceId, SliceKey, Sprite};
use crate::geometry::rect_is_empty;

verus! {

/// Append a [`Slice`] to the sprite's slice list. `revert` pops it back.
#[derive(Debug, Clone)]
pub struct AddSlice {
    /// `Some` until applied; consumed on `apply` and re-populated on `revert`.
    pub slice: Option<Slice>,
    /// `Some(index)` after a successful `apply`; consumed on `revert`.
    pub inserted_index: Option<usize>,
}

/// No slice in `slices` has id `id`.
pub open spec fn no_slice(slices: Seq<SliceModel>, id: SliceId) -> bool {
    forall|j: int| 0 <= j < slices.len() ==> (#[trigger] slices[j]).id != id
}

/// `i` is the position of the first slice with id `id`.
pub open spec fn first_slice_at(slices: Seq<SliceModel>, id: SliceId, i: int) -> bool {
    &&& 0 <= i < slices.len()
    &&& slices[i].id == id
    &&& forall|j: int| 0 <= j < i ==> (#[trigger] slices[j]).id != id
}

/// Position of the first slice with id `id`; meaningful when one exists.
pub open spec fn slice_pos(slices: Seq<SliceModel>, id: SliceId) -> int {
    choose|i: int| first_slice_at(slices, id, i)
}

/// The first position of an id is unique, so [`slice_pos`] names it.
pub proof fn lemma_slice_pos(slices: Seq<SliceModel>, id: SliceId, i: int)
    requires
        first_slice_at(slices, id, i),
    ensures
        slice_pos(slices, id) == i,
{
    let j = slice_pos(slices, id);
    assert(first_slice_at(slices, id, j));
    if j < i {
        assert(slices[j].id != id);
    } else if i < j {
        assert(slices[i].id != id);
    }
}

/// A slice with `id` at `k` means some position is the first one.
pub proof fn lemma_first_slice_exists(slices: Seq<SliceModel>, id: SliceId, k: int) -> (m: int)
    requires
        0 <= k < slices.len(),
        slices[k].id == id,
    ensures
        first_slice_at(slices, id, m),
    decreases k,
{
    if exists|q: int| 0 <= q < k && (#[trigger] slices[q]).id == id {
        let q = choose|q: int| 0 <= q < k && (#[trigger] slices[q]).id == id;
        lemma_first_slice_exists(slices, id, q)
    } else {
        k
    }
}

/// A slice with `id` exists exactly when [`slice_pos`] is its first position.
pub proof fn lemma_first_slice_pos_exists(slices: Seq<SliceModel>, id: SliceId) -> (m: int)
    requires
        !no_slice(slices, id),
    ensures
        first_slice_at(slices, id, m),
        m == slice_pos(slices, id),
{
    let k = choose|k: int| 0 <= k < slices.len() && (#[trigger] slices[k]).id == id;
    let m = lemma_first_slice_exists(slices, id, k);
    lemma_slice_pos(slices, id, m);
    m
}

/// Replacing a slice by one with the same id keeps every id's first position.
pub proof fn lemma_slice_pos_update(slices: Seq<SliceModel>, id: SliceId, i: int, l: SliceModel)
    requires
        0 <= i < slices.len(),
        l.id == slices[i].id,
    ensures
        no_slice(slices, id) <==> no_slice(slices.update(i, l), id),
        !no_slice(slices, id) ==> slice_pos(slices.update(i, l), id) == slice_pos(slices, id),
{
    let u = slices.update(i, l);
    assert forall|j: int| 0 <= j < slices.len() implies (#[trigger] u[j]).id == slices[j].id by {}
    if !no_slice(slices, id) {
        let k = choose|k: int| 0 <= k < slices.len() && (#[trigger] slices[k]).id == id;
        let m = lemma_first_slice_exists(slices, id, k);
        assert(first_slice_at(slices, id, m));
        assert(first_slice_at(u, id, m));
        lemma_slice_pos(slices, id, m);
        lemma_slice_pos(u, id, m);
    }
}

/// Position of the first slice with id `id`.
pub fn slice_index(doc: &Sprite, id: SliceId) -> (r: Option<usize>)
    ensures
        match r {
            Some(i) => first_slice_at(doc@.slices, id, i as int),
            None => no_slice(doc@.slices, id),
        },
{
    let n = doc.slices.len();
    let mut i: usize = 0;
    while i < n
        invariant
            n == doc.slices@.len(),
            i <= n,
            forall|j: int| 0 <= j < i ==> (#[trigger] doc.slices@[j]).id != id,
        decreases n - i,
    {
        if doc.slices[i].id == id {
            return Some(i);
        }
        i = i + 1;
    }
    None
}

/// Position of the first key whose bounds cover no pixel.
pub fn first_empty_key(keys: &Vec<SliceKey>) -> (r: Option<usize>)
    ensures
        match r {
            Some(k) => k < keys@.len() && rect_is_empty(keys@[k as int].bounds) && forall|j: int|
                0 <= j < k ==> !rect_is_empty(#[trigger] keys@[j].bounds),
            None => forall|j: int| 0 <= j < keys@.len() ==> !rect_is_empty(#[trigger] keys@[j].bounds),
        },
{
    let n = keys.len();
    let mut k: usize = 0;
    while k < n
        invariant
            n == keys@.len(),
            k <= n,
            forall|j: int| 0 <= j < k ==> !rect_is_empty(#[trigger] keys@[j].bounds),
        decreases n - k,
    {
        if keys[k].bounds.is_empty() {
            return Some(k);
        }
        k = k + 1;
    }
    None
}

impl AddSlice {
    /// Append `slice` to the sprite's slice list.
    pub fn new(slice: Slice) -> (c: Self)
        ensures
            c.slice == Some(slice),
            c.inserted_index is None,
    {
        AddSlice { slice: Some(slice), inserted_index: None }
    }
}

impl Command for AddSlice {
    fn fits_doc(&self, doc: &Sprite) -> (b: bool) {
        true
    }

    open spec fn ready(&self) -> bool {
        self.slice is Some
    }

    fn is_ready(&self) -> (b: bool) {
        self.slice.is_some()
    }

    open spec fn applied_on(&self, doc: SpriteModel, cels: CelsModel) -> bool {
        self.inserted_index matches Some(i) && i < doc.slices.len()
    }

    open spec fn reverted(&self, doc: SpriteModel, cels: CelsModel) -> (SpriteModel, CelsModel) {
        match self.inserted_index {
            Some(i) => if i < doc.slices.len() {
                (SpriteModel { slices: doc.slices.remove(i as int), ..doc }, cels)
            } else {
                (doc, cels)
            },
            None => (doc, cels),
        }
    }

    open spec fn fails_with(&self, doc: SpriteModel, cels: CelsModel, e: CommandError) -> bool {
        let s = self.slice.unwrap()@;
        if !no_slice(doc.slices, s.id) {
            e == CommandError::DuplicateSliceId(s.id.0)
        } else if s.keys.len() == 0 {
            e == CommandError::EmptySliceKeys(s.id.0)
        } else {
            exists|k: int|
                0 <= k < s.keys.len() && rect_is_empty(#[trigger] s.keys[k].bounds) && (forall|j: int|
                    0 <= j < k ==> !rect_is_empty(#[trigger] s.keys[j].bounds)) && e
                    == (CommandError::EmptySliceBounds { frame: s.keys[k].frame, bounds: s.keys[k].bounds })
        }
    }

    open spec fn outcome(&self, doc: SpriteModel, cels: CelsModel) -> (SpriteModel, CelsModel) {
        (SpriteModel { slices: doc.slices.push(self.slice.unwrap()@), ..doc }, cels)
    }

    open spec fn reverts_to(&self, back: Self, doc: SpriteModel, cels: CelsModel) -> bool {
        match self.inserted_index {
            Some(i) => if i < doc.slices.len() {
                back.slice matches Some(s) && s@ == doc.slices[i as int]
            } else {
                back.slice == self.slice
            },
            None => back.slice == self.slice,
        }
    }

    open spec fn succeeds_on(&self, doc: SpriteModel, cels: CelsModel) -> bool {
        let s = self.slice.unwrap()@;
        &&& no_slice(doc.slices, s.id)
        &&& s.keys.len() > 0
        &&& forall|k: int| 0 <= k < s.keys.len() ==> !rect_is_empty(#[trigger] s.keys[k].bounds)
    }

    fn apply(&mut self, doc: &mut Sprite, _cels: &mut CelMap) -> (r: Result<(), CommandError>)
        ensures
            r is Err ==> *final(self) == *old(self),
            ({
                let s = old(self).slice.unwrap()@;
                match r {
                    Ok(_) => no_slice(old(doc)@.slices, s.id) && s.keys.len() > 0 && (forall|
                        k: int,
                    | 0 <= k < s.keys.len() ==> !rect_is_empty(#[trigger] s.keys[k].bounds))
                        && final(doc)@ == (SpriteModel {
                        slices: old(doc)@.slices.push(s),
                        ..old(doc)@
                    }),
                    Err(CommandError::DuplicateSliceId(id)) => !no_slice(old(doc)@.slices, s.id)
                        && id == s.id.0,
                    Err(CommandError::EmptySliceKeys(id)) => no_slice(old(doc)@.slices, s.id)
                        && s.keys.len() == 0 && id == s.id.0,
                    Err(CommandError::EmptySliceBounds { frame, bounds }) => no_slice(
                        old(doc)@.slices,
                        s.id,
                    ) && exists|k: int|
                        0 <= k < s.keys.len() && rect_is_empty(#[trigger] s.keys[k].bounds)
                            && (forall|j: int|
                            0 <= j < k ==> !rect_is_empty(#[trigger] s.keys[j].bounds))
                            && frame == s.keys[k].frame && bounds == s.keys[k].bounds,
                    Err(_) => false,
                }
            }),
    {
        let (id, n_keys) = match &self.slice {
            Some(s) => (s.id, s.keys.len()),
            None => {
                return Err(CommandError::EmptyRegion);
            },
        };
        if slice_index(doc, id).is_some() {
            return Err(CommandError::DuplicateSliceId(id.0));
        }
        if n_keys == 0 {
            return Err(CommandError::EmptySliceKeys(id.0));
        }
        let slice = self.slice.take().unwrap();
        let ghost sm = slice@;
        if let Some(k) = first_empty_key(&slice.keys) {
            let frame = slice.keys[k].frame;
            let bounds = slice.keys[k].bounds;
            self.slice = Some(slice);
            return Err(CommandError::EmptySliceBounds { frame, bounds });
        }
        let index = doc.slices.len();
        let ghost old_slices = doc.slices@;
        doc.slices.push(slice);
        self.inserted_index = Some(index);
        proof {
            assert(doc.slices@.map_values(|s: Slice| s@) =~= old_slices.map_values(|s: Slice| s@).push(
                sm,
            ));
            assert(doc@.slices.remove(index as int) =~= old_slices.map_values(|s: Slice| s@));
        }
        Ok(())
    }

    fn revert(&mut self, doc: &mut Sprite, _cels: &mut CelMap)
        ensures
            forall|d: SpriteModel, c: CelsModel| #[trigger] final(self).reverted(d, c) == (d, c),
    {
        let index = match self.inserted_index.take() {
            Some(i) => i,
            None => return ,
        };
        if index < doc.slices.len() {
            let ghost old_s = doc.slices@;
            let slice = doc.slices.remove(index);
            proof {
                assert(doc.slices@.map_values(|s: Slice| s@) =~= old_s.map_values(|s: Slice| s@).remove(
                    index as int,
                ));
            }
            self.slice = Some(slice);
        }
        assert(doc@.tilesets == old(doc)@.tilesets);
    }
}

} // verus!
