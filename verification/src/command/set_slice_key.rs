//! `SetSliceKey` command — upsert a per-frame [`SliceKey`] on a slice.
//!
//! If the targeted slice already carries a key for the given frame, the
//! existing key is replaced and stashed for revert. Otherwise the new key is
//! inserted at the sorted-by-frame position required by [`Slice::keys`]'s
//! ascending-frame order, and revert removes it.
use vstd::prelude::*;

use super::add_slice::{
    first_slice_at, lemma_slice_pos, lemma_slice_pos_update, no_slice, slice_index, slice_pos,
};
use super::error::CommandError;
use super::{CelsModel, Command};
use crate::document::slice::SliceModel;
use crate::document::sprite::SpriteModel;
use crate::document::{CelMap, Slice, SliceId, SliceKey, Sprite};
use crate::geometry::rect_is_empty;

verus! {

/// Slot taken by the prior key, used by `revert`.
#[derive(Debug, Clone, Copy, PartialEq, Eq)]
pub enum PriorSlot {
    /// The new key replaced an existing one at this index.
    Replaced { index: usize, prior: SliceKey },
    /// The new key was inserted at this index; nothing was there before.
    Inserted { index: usize },
}

/// Set (insert or replace) a [`SliceKey`] on the slice identified by
/// [`SliceId`]. `revert` restores the prior key, or removes the inserted
/// one when no key existed for the frame.
#[derive(Debug, Clone)]
pub struct SetSliceKey {
    pub slice: SliceId,
    pub new_key: SliceKey,
    /// `Some` after a successful `apply`; consumed on `revert`.
    pub prior: Option<PriorSlot>,
}

/// `index` is where a key for frame `f` belongs: every key before it has an
/// earlier frame, and the key at `index`, if any, does not.
pub open spec fn key_slot(keys: Seq<SliceKey>, f: u32, index: int) -> bool {
    &&& 0 <= index <= keys.len()
    &&& forall|j: int| 0 <= j < index ==> (#[trigger] keys[j]).frame.0 < f
    &&& index < keys.len() ==> keys[index].frame.0 >= f
}

/// The slot of a key for frame `f` among `keys`.
pub open spec fn slot_index(keys: Seq<SliceKey>, f: u32) -> int {
    choose|i: int| key_slot(keys, f, i)
}

/// The slot of a frame is unique, so [`slot_index`] names it.
pub proof fn lemma_slot_index(keys: Seq<SliceKey>, f: u32, i: int)
    requires
        key_slot(keys, f, i),
    ensures
        slot_index(keys, f) == i,
{
    let j = slot_index(keys, f);
    assert(key_slot(keys, f, j));
    if j < i {
        assert(keys[j].frame.0 < f);
    } else if i < j {
        assert(keys[i].frame.0 < f);
    }
}

/// The keys run in strictly increasing frame order.
pub open spec fn keys_sorted(keys: Seq<SliceKey>) -> bool {
    forall|i: int, j: int| 0 <= i < j < keys.len() ==> (#[trigger] keys[i]).frame.0 < (#[trigger] keys[j]).frame.0
}

/// Setting a key at its slot keeps a slice's keys in strictly increasing
/// frame order: it replaces the key of the same frame, or is inserted
/// between the earlier and the later frames.
pub proof fn lemma_key_slot_keeps_sorted(keys: Seq<SliceKey>, k: SliceKey, index: int)
    requires
        keys_sorted(keys),
        key_slot(keys, k.frame.0, index),
    ensures
        index < keys.len() && keys[index].frame == k.frame ==> keys_sorted(keys.update(index, k)),
        !(index < keys.len() && keys[index].frame == k.frame) ==> keys_sorted(keys.insert(index, k)),
{
    if index < keys.len() && keys[index].frame == k.frame {
        let u = keys.update(index, k);
        assert forall|i: int, j: int| 0 <= i < j < u.len() implies (#[trigger] u[i]).frame.0 < (#[trigger] u[j]).frame.0 by {
            assert(keys[i].frame.0 < keys[j].frame.0);
        }
    } else {
        let u = keys.insert(index, k);
        assert forall|i: int, j: int| 0 <= i < j < u.len() implies (#[trigger] u[i]).frame.0 < (#[trigger] u[j]).frame.0 by {
            if index < keys.len() {
                assert(keys[index].frame.0 > k.frame.0);
            }
            if j < index {
                assert(u[i] == keys[i] && u[j] == keys[j]);
            } else if j == index {
                assert(u[i] == keys[i]);
            } else if i == index {
                assert(u[j] == keys[j - 1]);
                if j - 1 > index {
                    assert(keys[index].frame.0 < keys[j - 1].frame.0);
                }
            } else if i < index {
                assert(u[i] == keys[i] && u[j] == keys[j - 1]);
            } else {
                assert(u[i] == keys[i - 1] && u[j] == keys[j - 1]);
            }
        }
    }
}

/// A slot for frame `f` exists among any keys.
pub proof fn lemma_slot_exists(keys: Seq<SliceKey>, f: u32)
    ensures
        key_slot(keys, f, slot_index(keys, f)),
    decreases keys.len(),
{
    if keys.len() == 0 {
        assert(key_slot(keys, f, 0));
    } else {
        let init = keys.drop_last();
        lemma_slot_exists(init, f);
        let i = slot_index(init, f);
        assert forall|j: int| 0 <= j < init.len() implies #[trigger] keys[j] == init[j] by {}
        if i < init.len() {
            assert(key_slot(keys, f, i));
        } else if keys.last().frame.0 < f {
            assert(key_slot(keys, f, keys.len() as int));
        } else {
            assert(key_slot(keys, f, keys.len() - 1));
        }
    }
}

/// The keys of a slice once `k` is set among `keys`: `k` replaces the key
/// of its frame, or is inserted where its frame belongs.
pub open spec fn keys_with(keys: Seq<SliceKey>, k: SliceKey) -> Seq<SliceKey> {
    let index = slot_index(keys, k.frame.0);
    if index < keys.len() && keys[index].frame == k.frame {
        keys.update(index, k)
    } else {
        keys.insert(index, k)
    }
}

/// Some key of `keys` is for frame `f`.
pub open spec fn has_key_for(keys: Seq<SliceKey>, f: u32) -> bool {
    exists|j: int| 0 <= j < keys.len() && (#[trigger] keys[j]).frame.0 == f
}

/// Setting a key on a slice whose keys run in strictly increasing frame
/// order keeps them so; the key for the new key's frame is the new key;
/// every key for another frame stays, and no other key appears; the number
/// of keys grows by one exactly when no key was there for that frame.
pub proof fn lemma_set_key_law(keys: Seq<SliceKey>, k: SliceKey)
    requires
        keys_sorted(keys),
    ensures
        keys_sorted(keys_with(keys, k)),
        keys_with(keys, k).contains(k),
        forall|j: int|
            0 <= j < keys_with(keys, k).len() && (#[trigger] keys_with(keys, k)[j]).frame == k.frame
                ==> keys_with(keys, k)[j] == k,
        forall|j: int|
            0 <= j < keys.len() && (#[trigger] keys[j]).frame != k.frame ==> keys_with(
                keys,
                k,
            ).contains(keys[j]),
        forall|j: int|
            0 <= j < keys_with(keys, k).len() && (#[trigger] keys_with(keys, k)[j]).frame != k.frame
                ==> keys.contains(keys_with(keys, k)[j]),
        keys_with(keys, k).len() == keys.len() + if has_key_for(keys, k.frame.0) {
            0int
        } else {
            1int
        },
{
    let f = k.frame.0;
    lemma_slot_exists(keys, f);
    let index = slot_index(keys, f);
    lemma_key_slot_keeps_sorted(keys, k, index);
    let u = keys_with(keys, k);
    let replaced = index < keys.len() && keys[index].frame == k.frame;
    if replaced {
        assert(u[index] == k);
        assert(has_key_for(keys, f)) by {
            assert(keys[index].frame.0 == f);
        }
        assert forall|j: int| 0 <= j < keys.len() && (#[trigger] keys[j]).frame != k.frame implies u.contains(keys[j]) by {
            assert(j != index);
            assert(u[j] == keys[j]);
        }
        assert forall|j: int| 0 <= j < u.len() && (#[trigger] u[j]).frame != k.frame implies keys.contains(u[j]) by {
            assert(j != index);
            assert(u[j] == keys[j]);
        }
    } else {
        assert(u[index] == k);
        assert(!has_key_for(keys, f)) by {
            if has_key_for(keys, f) {
                let j = choose|j: int| 0 <= j < keys.len() && (#[trigger] keys[j]).frame.0 == f;
                if j < index {
                    assert(keys[j].frame.0 < f);
                } else if j > index {
                    assert(keys[index].frame.0 < keys[j].frame.0);
                }
            }
        }
        assert forall|j: int| 0 <= j < keys.len() && (#[trigger] keys[j]).frame != k.frame implies u.contains(keys[j]) by {
            if j < index {
                assert(u[j] == keys[j]);
            } else {
                assert(u[j + 1] == keys[j]);
            }
        }
        assert forall|j: int| 0 <= j < u.len() && (#[trigger] u[j]).frame != k.frame implies keys.contains(u[j]) by {
            if j < index {
                assert(u[j] == keys[j]);
            } else {
                assert(j != index);
                assert(u[j] == keys[j - 1]);
            }
        }
    }
    assert forall|j: int| 0 <= j < u.len() && (#[trigger] u[j]).frame == k.frame implies u[j] == k by {
        if j != index {
            assert(u[index].frame.0 == f);
            if j < index {
                assert(u[j].frame.0 < u[index].frame.0);
            } else {
                assert(u[index].frame.0 < u[j].frame.0);
            }
        }
    }
}

/// The keys of the first slice with id `id`.
pub open spec fn slice_keys(doc: SpriteModel, id: SliceId) -> Seq<SliceKey> {
    doc.slices[slice_pos(doc.slices, id)].keys
}

/// `doc` with the keys of the first slice with id `id` replaced by `keys`.
pub open spec fn with_slice_keys(doc: SpriteModel, id: SliceId, keys: Seq<SliceKey>) -> SpriteModel {
    let i = slice_pos(doc.slices, id);
    SpriteModel { slices: doc.slices.update(i, SliceModel { keys, ..doc.slices[i] }), ..doc }
}

/// The first position at which a key for frame `f` may stand: the first key
/// whose frame is not earlier than `f`, or the end.
pub fn frame_slot(keys: &Vec<SliceKey>, f: u32) -> (index: usize)
    ensures
        key_slot(keys@, f, index as int),
{
    let n = keys.len();
    let mut i: usize = 0;
    while i < n
        invariant
            n == keys@.len(),
            i <= n,
            forall|j: int| 0 <= j < i ==> (#[trigger] keys@[j]).frame.0 < f,
        decreases n - i,
    {
        if keys[i].frame.0 >= f {
            return i;
        }
        i = i + 1;
    }
    i
}

/// Mutable access to the keys of slice `i`.
fn slice_keys_mut(doc: &mut Sprite, i: usize) -> (r: &mut Vec<SliceKey>)
    requires
        i < old(doc).slices@.len(),
    ensures
        r@ == old(doc)@.slices[i as int].keys,
        final(doc)@ == (SpriteModel {
            slices: old(doc)@.slices.update(
                i as int,
                SliceModel { keys: final(r)@, ..old(doc)@.slices[i as int] },
            ),
            ..old(doc)@
        }),
{
    proof {
        let s0 = doc.slices@;
        assert forall|v: Slice| #![trigger s0.update(i as int, v)]
            s0.update(i as int, v).map_values(|s: Slice| s@) == s0.map_values(|s: Slice| s@).update(
                i as int,
                v@,
            ) by {
            assert(s0.update(i as int, v).map_values(|s: Slice| s@) =~= s0.map_values(
                |s: Slice| s@,
            ).update(i as int, v@));
        }
    }
    &mut doc.slices[i].keys
}

impl SetSliceKey {
    pub fn new(slice: SliceId, key: SliceKey) -> (c: Self)
        ensures
            c.slice == slice,
            c.new_key == key,
            c.prior is None,
    {
        SetSliceKey { slice, new_key: key, prior: None }
    }
}

impl Command for SetSliceKey {
    fn fits_doc(&self, doc: &Sprite) -> (b: bool) {
        true
    }

    open spec fn ready(&self) -> bool {
        true
    }

    fn is_ready(&self) -> (b: bool) {
        true
    }

    open spec fn applied_on(&self, doc: SpriteModel, cels: CelsModel) -> bool {
        &&& !no_slice(doc.slices, self.slice)
        &&& match self.prior {
            Some(PriorSlot::Replaced { index, prior }) => index < slice_keys(doc, self.slice).len(),
            Some(PriorSlot::Inserted { index }) => index < slice_keys(doc, self.slice).len(),
            None => false,
        }
    }

    open spec fn reverted(&self, doc: SpriteModel, cels: CelsModel) -> (SpriteModel, CelsModel) {
        if no_slice(doc.slices, self.slice) {
            (doc, cels)
        } else {
            let keys = slice_keys(doc, self.slice);
            match self.prior {
                Some(PriorSlot::Replaced { index, prior }) => if index < keys.len() {
                    (with_slice_keys(doc, self.slice, keys.update(index as int, prior)), cels)
                } else {
                    (doc, cels)
                },
                Some(PriorSlot::Inserted { index }) => if index < keys.len() {
                    (with_slice_keys(doc, self.slice, keys.remove(index as int)), cels)
                } else {
                    (doc, cels)
                },
                None => (doc, cels),
            }
        }
    }

    open spec fn fails_with(&self, doc: SpriteModel, cels: CelsModel, e: CommandError) -> bool {
        if rect_is_empty(self.new_key.bounds) {
            e == (CommandError::EmptySliceBounds { frame: self.new_key.frame, bounds: self.new_key.bounds })
        } else {
            e == CommandError::UnknownSlice(self.slice.0)
        }
    }

    open spec fn outcome(&self, doc: SpriteModel, cels: CelsModel) -> (SpriteModel, CelsModel) {
        (with_slice_keys(doc, self.slice, keys_with(slice_keys(doc, self.slice), self.new_key)), cels)
    }

    open spec fn reverts_to(&self, back: Self, doc: SpriteModel, cels: CelsModel) -> bool {
        back.slice == self.slice && back.new_key == self.new_key
    }

    open spec fn succeeds_on(&self, doc: SpriteModel, cels: CelsModel) -> bool {
        !rect_is_empty(self.new_key.bounds) && !no_slice(doc.slices, self.slice)
    }

    fn apply(&mut self, doc: &mut Sprite, _cels: &mut CelMap) -> (r: Result<(), CommandError>)
        ensures
            r is Err ==> *final(self) == *old(self),
            final(self).slice == old(self).slice,
            final(self).new_key == old(self).new_key,
            match r {
                Ok(_) => {
                    let keys = slice_keys(old(doc)@, old(self).slice);
                    let k = old(self).new_key;
                    &&& !rect_is_empty(k.bounds)
                    &&& !no_slice(old(doc)@.slices, old(self).slice)
                    &&& match final(self).prior {
                        Some(PriorSlot::Replaced { index, prior }) => key_slot(
                            keys,
                            k.frame.0,
                            index as int,
                        ) && index < keys.len() && keys[index as int].frame == k.frame && prior
                            == keys[index as int] && final(doc)@ == with_slice_keys(
                            old(doc)@,
                            old(self).slice,
                            keys.update(index as int, k),
                        ),
                        Some(PriorSlot::Inserted { index }) => key_slot(
                            keys,
                            k.frame.0,
                            index as int,
                        ) && !(index < keys.len() && keys[index as int].frame == k.frame)
                            && final(doc)@ == with_slice_keys(
                            old(doc)@,
                            old(self).slice,
                            keys.insert(index as int, k),
                        ),
                        None => false,
                    }
                },
                Err(e) => if rect_is_empty(old(self).new_key.bounds) {
                    e == (CommandError::EmptySliceBounds {
                        frame: old(self).new_key.frame,
                        bounds: old(self).new_key.bounds,
                    })
                } else {
                    no_slice(old(doc)@.slices, old(self).slice) && e == CommandError::UnknownSlice(
                        old(self).slice.0,
                    )
                },
            },
    {
        if self.new_key.bounds.is_empty() {
            return Err(
                CommandError::EmptySliceBounds {
                    frame: self.new_key.frame,
                    bounds: self.new_key.bounds,
                },
            );
        }
        let si = match slice_index(doc, self.slice) {
            Some(i) => i,
            None => {
                return Err(CommandError::UnknownSlice(self.slice.0));
            },
        };
        let ghost d0 = doc@;
        proof {
            lemma_slice_pos(d0.slices, self.slice, si as int);
        }
        let new_key = self.new_key;
        let f = new_key.frame.0;
        // Keys are sorted by `frame` ascending. The slot lands either on an
        // existing key with the same frame (replace) or where the new key
        // belongs (insert).
        let index = frame_slot(&doc.slices[si].keys, f);
        let keys = slice_keys_mut(doc, si);
        let ghost k0 = keys@;
        let n = keys.len();
        if index < n && keys[index].frame.0 == f {
            let prior = keys[index];
            keys.set(index, new_key);
            self.prior = Some(PriorSlot::Replaced { index, prior });
        } else {
            keys.insert(index, new_key);
            self.prior = Some(PriorSlot::Inserted { index });
        }
        proof {
            let nk = doc@.slices[si as int].keys;
            lemma_slice_pos_update(d0.slices, self.slice, si as int, doc@.slices[si as int]);
            if index < n && k0[index as int].frame.0 == f {
                assert(nk.update(index as int, k0[index as int]) =~= k0);
            } else {
                assert(nk.remove(index as int) =~= k0);
            }
            assert(doc@.slices.update(si as int, SliceModel { keys: k0, ..doc@.slices[si as int] })
                =~= d0.slices);
        }
        assert(doc@.tilesets == old(doc)@.tilesets);
        Ok(())
    }

    fn revert(&mut self, doc: &mut Sprite, _cels: &mut CelMap)
        ensures
            forall|d: SpriteModel, c: CelsModel| #[trigger] final(self).reverted(d, c) == (d, c),
    {
        let prior = match self.prior.take() {
            Some(p) => p,
            None => return ,
        };
        let si = match slice_index(doc, self.slice) {
            Some(i) => i,
            None => return ,
        };
        proof {
            lemma_slice_pos(doc@.slices, self.slice, si as int);
        }
        let ghost d0 = doc@;
        let keys = slice_keys_mut(doc, si);
        let ghost k0 = keys@;
        proof {
            assert(d0.slices.update(si as int, SliceModel { keys: k0, ..d0.slices[si as int] })
                =~= d0.slices);
        }
        match prior {
            PriorSlot::Replaced { index, prior } => {
                if index < keys.len() {
                    keys.set(index, prior);
                }
            },
            PriorSlot::Inserted { index } => {
                if index < keys.len() {
                    let _ = keys.remove(index);
                }
            },
        }
        assert(doc@.tilesets == old(doc)@.tilesets);
    }
}

} // verus!
