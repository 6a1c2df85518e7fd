//! `RemoveLayer` command — remove a layer (and, for a group, its whole
//! contiguous subtree) together with every cel those layers own, as one
//! undoable unit.
//!
//! `Sprite.layers` is a flat Vec in z-order with group nesting encoded by
//! `Layer::parent` and the contiguity invariant (a group's subtree is one
//! unbroken run right after the header). This command drains that run and
//! drops the cels keyed to the removed layer ids; `revert` splices the
//! layers back at their original z-position and restores the cels.
use vstd::prelude::*;

use super::error::CommandError;
use super::layer_tree::{lemma_subtree_end, subtree_end, subtree_end_of};
use super::{cel_wf, cels_wf, CelsModel, Command};
use crate::document::cel::CelModel;
use crate::document::cel_map::{has_key, sorted_keys, CelKey};
use crate::document::layer::LayerModel;
use crate::document::sprite::{first_layer_at, layer_pos, lemma_layer_pos, no_layer, SpriteModel};
use crate::document::{Cel, CelMap, Layer, LayerId, Sprite};

verus! {

/// Remove `layer` and its descendant subtree plus the cels those layers
/// own. Fails with [`CommandError::UnknownLayer`] when the id is absent
/// (the document is left untouched).
#[derive(Debug)]
pub struct RemoveLayer {
    pub layer: LayerId,
    /// Captured on a successful `apply` for `revert`: the index the subtree
    /// started at, the removed layers (original order), and the removed
    /// cels.
    pub removed: Option<(usize, Vec<Layer>, Vec<Cel>)>,
}

/// Some layer of `ls` carries `id`.
pub open spec fn has_layer_id(ls: Seq<LayerModel>, id: LayerId) -> bool {
    exists|m: int| 0 <= m < ls.len() && (#[trigger] ls[m]).id == id
}

/// The cels of `cels` that no layer of `removed` owns.
pub open spec fn without_layers(cels: CelsModel, removed: Seq<LayerModel>) -> CelsModel {
    Map::new(
        |k: CelKey| cels.contains_key(k) && !has_layer_id(removed, k.0),
        |k: CelKey| cels[k],
    )
}

/// `cels` with each of `cs` inserted under its own key, first to last.
pub open spec fn insert_cels(cels: CelsModel, cs: Seq<Cel>) -> CelsModel
    decreases cs.len(),
{
    if cs.len() == 0 {
        cels
    } else {
        insert_cels(cels, cs.drop_last()).insert((cs.last().layer, cs.last().frame), cs.last()@)
    }
}

/// The models of a list of layers.
pub open spec fn layer_models(ls: Seq<Layer>) -> Seq<LayerModel> {
    ls.map_values(|l: Layer| l@)
}

/// `ls` with `part` spliced in at `at` (clamped to the end).
pub open spec fn spliced(ls: Seq<LayerModel>, at: int, part: Seq<LayerModel>) -> Seq<LayerModel> {
    let st = if at <= ls.len() {
        at
    } else {
        ls.len() as int
    };
    ls.subrange(0, st) + part + ls.subrange(st, ls.len() as int)
}

/// Inserting cels with pairwise distinct keys: a key is held when `cels`
/// or one of them holds it, with that cel's value if one does.
proof fn lemma_insert_cels(cels: CelsModel, cs: Seq<Cel>)
    requires
        forall|a: int, b: int|
            0 <= a < b < cs.len() ==> ((#[trigger] cs[a]).layer, cs[a].frame) != (
                (#[trigger] cs[b]).layer,
                cs[b].frame,
            ),
    ensures
        forall|k: CelKey|
            #[trigger] insert_cels(cels, cs).contains_key(k) <==> (cels.contains_key(k) || exists|j: int|
                0 <= j < cs.len() && ((#[trigger] cs[j]).layer, cs[j].frame) == k),
        forall|j: int|
            0 <= j < cs.len() ==> insert_cels(cels, cs)[((#[trigger] cs[j]).layer, cs[j].frame)]
                == cs[j]@,
        forall|k: CelKey|
            #[trigger] cels.contains_key(k) && !(exists|j: int|
                0 <= j < cs.len() && ((#[trigger] cs[j]).layer, cs[j].frame) == k) ==> insert_cels(
                cels,
                cs,
            )[k] == cels[k],
    decreases cs.len(),
{
    if cs.len() > 0 {
        let rest = cs.drop_last();
        lemma_insert_cels(cels, rest);
        let last = cs.last();
        let lk = (last.layer, last.frame);
        assert forall|k: CelKey|
            #[trigger] insert_cels(cels, cs).contains_key(k) <==> (cels.contains_key(k) || exists|j: int|
                0 <= j < cs.len() && ((#[trigger] cs[j]).layer, cs[j].frame) == k) by {
            if exists|j: int| 0 <= j < cs.len() && ((#[trigger] cs[j]).layer, cs[j].frame) == k {
                let j = choose|j: int| 0 <= j < cs.len() && ((#[trigger] cs[j]).layer, cs[j].frame) == k;
                if j < rest.len() {
                    assert(rest[j] == cs[j]);
                }
            }
            if exists|j: int| 0 <= j < rest.len() && ((#[trigger] rest[j]).layer, rest[j].frame) == k {
                let j = choose|j: int| 0 <= j < rest.len() && ((#[trigger] rest[j]).layer, rest[j].frame) == k;
                assert(cs[j] == rest[j]);
            }
        }
        assert forall|j: int|
            0 <= j < cs.len() implies insert_cels(cels, cs)[((#[trigger] cs[j]).layer, cs[j].frame)]
            == cs[j]@ by {
            if j < rest.len() {
                assert(rest[j] == cs[j]);
                assert(((cs[j]).layer, cs[j].frame) != lk);
            }
        }
        assert forall|k: CelKey|
            #[trigger] cels.contains_key(k) && !(exists|j: int|
                0 <= j < cs.len() && ((#[trigger] cs[j]).layer, cs[j].frame) == k) implies insert_cels(
            cels,
            cs,
        )[k] == cels[k] by {
            assert(k != lk);
            if exists|j: int| 0 <= j < rest.len() && ((#[trigger] rest[j]).layer, rest[j].frame) == k {
                let j = choose|j: int| 0 <= j < rest.len() && ((#[trigger] rest[j]).layer, rest[j].frame) == k;
                assert(cs[j] == rest[j]);
            }
        }
    }
}

/// Whether some layer of `ls` carries `id`.
fn holds_layer_id(ls: &Vec<Layer>, id: LayerId) -> (b: bool)
    ensures
        b == has_layer_id(layer_models(ls@), id),
{
    let mut m: usize = 0;
    while m < ls.len()
        invariant
            m <= ls@.len(),
            forall|q: int| 0 <= q < m ==> (#[trigger] ls@[q]).id != id,
        decreases ls@.len() - m,
    {
        if ls[m].id == id {
            proof {
                assert(layer_models(ls@)[m as int].id == id);
            }
            return true;
        }
        m = m + 1;
    }
    proof {
        assert forall|q: int| 0 <= q < layer_models(ls@).len() implies (
        #[trigger] layer_models(ls@)[q]).id != id by {
            assert(ls@[q].id != id);
        }
    }
    false
}

impl RemoveLayer {
    /// Remove the layer `layer` (with its subtree).
    pub fn new(layer: LayerId) -> (c: Self)
        ensures
            c.layer == layer,
            c.removed is None,
    {
        RemoveLayer { layer, removed: None }
    }
}

impl Command for RemoveLayer {
    fn fits_doc(&self, doc: &Sprite) -> (b: bool) {
        true
    }

    open spec fn inv(&self) -> bool {
        match self.removed {
            Some(r) => forall|j: int| 0 <= j < r.2@.len() ==> cel_wf((#[trigger] r.2@[j])@),
            None => true,
        }
    }

    open spec fn ready(&self) -> bool {
        true
    }

    fn is_ready(&self) -> (b: bool) {
        true
    }

    open spec fn applied_on(&self, doc: SpriteModel, cels: CelsModel) -> bool {
        self.removed is Some
    }

    open spec fn reverted(&self, doc: SpriteModel, cels: CelsModel) -> (SpriteModel, CelsModel) {
        match self.removed {
            Some(r) => (
                SpriteModel { layers: spliced(doc.layers, r.0 as int, layer_models(r.1@)), ..doc },
                insert_cels(cels, r.2@),
            ),
            None => (doc, cels),
        }
    }

    open spec fn fails_with(&self, doc: SpriteModel, cels: CelsModel, e: CommandError) -> bool {
        e == CommandError::UnknownLayer(self.layer.0)
    }

    open spec fn outcome(&self, doc: SpriteModel, cels: CelsModel) -> (SpriteModel, CelsModel) {
        {
            let ls = doc.layers;
            let i = layer_pos(ls, self.layer);
            let e = subtree_end(ls, self.layer, i + 1);
            (
                SpriteModel { layers: ls.subrange(0, i) + ls.subrange(e, ls.len() as int), ..doc },
                without_layers(cels, ls.subrange(i, e)),
            )
        }
    }

    open spec fn reverts_to(&self, back: Self, doc: SpriteModel, cels: CelsModel) -> bool {
        back.layer == self.layer
    }

    open spec fn succeeds_on(&self, doc: SpriteModel, cels: CelsModel) -> bool {
        !no_layer(doc.layers, self.layer)
    }

    fn apply(&mut self, doc: &mut Sprite, cels: &mut CelMap) -> (r: Result<(), CommandError>)
        ensures
            r is Err ==> *final(self) == *old(self),
            match r {
                Ok(_) => {
                    let ls = old(doc)@.layers;
                    let i = layer_pos(ls, old(self).layer);
                    let e = subtree_end(ls, old(self).layer, i + 1);
                    &&& !no_layer(ls, old(self).layer)
                    &&& final(doc)@ == SpriteModel {
                        layers: ls.subrange(0, i) + ls.subrange(e, ls.len() as int),
                        ..old(doc)@
                    }
                    &&& final(cels)@ == without_layers(old(cels)@, ls.subrange(i, e))
                },
                Err(e) => no_layer(old(doc)@.layers, old(self).layer) && e
                    == CommandError::UnknownLayer(old(self).layer.0),
            },
    {
        let id = self.layer;
        let ghost d0 = doc@;
        let ghost c0 = cels@;
        let ghost ls = d0.layers;
        let i = match doc.layer_index(id) {
            Some(i) => i,
            None => {
                return Err(CommandError::UnknownLayer(id.0));
            },
        };
        proof {
            lemma_layer_pos(ls, id, i as int);
        }
        let end = subtree_end_of(doc, i, id);
        let ghost l0 = doc.layers@;
        let mut removed: Vec<Layer> = Vec::new();
        let mut t = i;
        proof {
            assert(l0.subrange(0, i as int) + l0.subrange(i as int, l0.len() as int) =~= l0);
            assert(removed@ =~= l0.subrange(i as int, i as int));
        }
        while t < end
            invariant
                i <= t <= end <= l0.len(),
                doc@ == (SpriteModel { layers: doc@.layers, ..d0 }),
                doc.layers@ == l0.subrange(0, i as int) + l0.subrange(t as int, l0.len() as int),
                removed@ == l0.subrange(i as int, t as int),
            decreases end - t,
        {
            let l = doc.layers.remove(i);
            removed.push(l);
            proof {
                assert(doc.layers@ =~= l0.subrange(0, i as int) + l0.subrange(t + 1, l0.len() as int));
                assert(removed@ =~= l0.subrange(i as int, t + 1));
            }
            t = t + 1;
        }
        proof {
            assert(ls == l0.map_values(|l: Layer| l@));
            assert(doc@.layers =~= ls.subrange(0, i as int) + ls.subrange(end as int, ls.len() as int));
            assert(layer_models(removed@) =~= ls.subrange(i as int, end as int));
        }
        let ghost gone = ls.subrange(i as int, end as int);
        // The keys of every cel owned by a removed layer, in key order.
        let entries = cels.iter();
        proof {
            assert forall|j: int| 0 <= j < entries@.len() implies c0.contains_key(
                (#[trigger] entries@[j]).0,
            ) && c0[entries@[j].0] == entries@[j].1@ by {
                assert(cels@.contains_key(entries@[j].0));
            }
        }
        let mut keys: Vec<CelKey> = Vec::new();
        let mut j: usize = 0;
        while j < entries.len()
            invariant
                j <= entries@.len(),
                cels@ == c0,
                cels.wf(),
                layer_models(removed@) == gone,
                sorted_keys(entries@),
                forall|q: int|
                    0 <= q < entries@.len() ==> c0.contains_key((#[trigger] entries@[q]).0)
                        && c0[entries@[q].0] == entries@[q].1@,
                forall|q: int|
                    0 <= q < keys@.len() ==> c0.contains_key(#[trigger] keys@[q]) && has_layer_id(
                        gone,
                        keys@[q].0,
                    ),
                forall|a: int, b: int| 0 <= a < b < keys@.len() ==> keys@[a] != keys@[b],
                forall|q: int|
                    0 <= q < j && has_layer_id(gone, (#[trigger] entries@[q]).0.0) ==> keys@.contains(
                        entries@[q].0,
                    ),
                forall|q: int|
                    0 <= q < keys@.len() ==> exists|p: int|
                        0 <= p < j && entries@[p].0 == #[trigger] keys@[q],
            decreases entries@.len() - j,
        {
            let k = entries[j].0;
            let ghost k0 = keys@;
            if holds_layer_id(&removed, k.0) {
                keys.push(k);
                proof {
                    assert forall|a: int, b: int| 0 <= a < b < keys@.len() implies keys@[a] != keys@[b] by {
                        if b == k0.len() {
                            assert(keys@[a] == k0[a]);
                            let p = choose|p: int| 0 <= p < j && entries@[p].0 == k0[a];
                            assert(crate::document::cel_map::key_lt(entries@[p].0, entries@[j as int].0));
                        } else {
                            assert(keys@[a] == k0[a]);
                            assert(keys@[b] == k0[b]);
                        }
                    }
                }
            }
            proof {
                assert forall|q: int|
                    0 <= q < j + 1 && has_layer_id(gone, (#[trigger] entries@[q]).0.0) implies keys@.contains(
                    entries@[q].0,
                ) by {
                    if q < j {
                        let m = choose|m: int| 0 <= m < k0.len() && k0[m] == entries@[q].0;
                        assert(keys@[m] == k0[m]);
                    } else {
                        assert(keys@[keys@.len() - 1] == k);
                    }
                }
                assert forall|q: int| 0 <= q < keys@.len() implies exists|p: int|
                    0 <= p < j + 1 && entries@[p].0 == #[trigger] keys@[q] by {
                    if q < k0.len() {
                        assert(keys@[q] == k0[q]);
                        let p = choose|p: int| 0 <= p < j && entries@[p].0 == k0[q];
                    } else {
                        assert(entries@[j as int].0 == keys@[q]);
                    }
                }
            }
            j = j + 1;
        }
        // Drop those cels, capturing them for revert.
        let mut removed_cels: Vec<Cel> = Vec::new();
        let mut t: usize = 0;
        while t < keys.len()
            invariant
                t <= keys@.len(),
                cels.wf(),
                cels_wf(c0),
                forall|q: int|
                    0 <= q < keys@.len() ==> c0.contains_key(#[trigger] keys@[q]) && has_layer_id(
                        gone,
                        keys@[q].0,
                    ),
                forall|a: int, b: int| 0 <= a < b < keys@.len() ==> keys@[a] != keys@[b],
                cels@ == Map::new(
                    |k: CelKey| c0.contains_key(k) && !(exists|q: int| 0 <= q < t && keys@[q] == k),
                    |k: CelKey| c0[k],
                ),
                removed_cels@.len() == t,
                forall|q: int|
                    0 <= q < t ==> (#[trigger] removed_cels@[q])@ == c0[keys@[q]] && (
                    removed_cels@[q].layer,
                    removed_cels@[q].frame,
                ) == keys@[q],
            decreases keys@.len() - t,
        {
            let k = keys[t];
            let ghost m0 = cels@;
            let ghost r0 = removed_cels@;
            proof {
                assert(m0.contains_key(k)) by {
                    if exists|q: int| 0 <= q < t && keys@[q] == k {
                        let q = choose|q: int| 0 <= q < t && keys@[q] == k;
                    }
                }
            }
            match cels.remove(k.0, k.1) {
                Some(cel) => {
                    removed_cels.push(cel);
                },
                None => {},
            }
            proof {
                assert(k == (k.0, k.1));
                assert(cel_wf(c0[k]) && c0[k].layer == k.0 && c0[k].frame == k.1);
                assert(cels@ =~= Map::new(
                    |kk: CelKey| c0.contains_key(kk) && !(exists|q: int| 0 <= q < t + 1 && keys@[q] == kk),
                    |kk: CelKey| c0[kk],
                )) by {
                    assert forall|kk: CelKey| #[trigger] cels@.contains_key(kk) <==> (c0.contains_key(kk)
                        && !(exists|q: int| 0 <= q < t + 1 && keys@[q] == kk)) by {
                        if exists|q: int| 0 <= q < t + 1 && keys@[q] == kk {
                            let q = choose|q: int| 0 <= q < t + 1 && keys@[q] == kk;
                        }
                    }
                }
                assert forall|q: int| 0 <= q < t + 1 implies (#[trigger] removed_cels@[q])@ == c0[keys@[q]]
                    && (removed_cels@[q].layer, removed_cels@[q].frame) == keys@[q] by {
                    if q < t {
                        assert(removed_cels@[q] == r0[q]);
                    }
                }
            }
            t = t + 1;
        }
        let ghost rc = removed_cels@;
        self.removed = Some((i, removed, removed_cels));
        proof {
            // The captured cels are exactly the cels of the removed layers.
            assert forall|k: CelKey| #[trigger] cels@.contains_key(k) <==> without_layers(c0, gone).contains_key(k) by {
                if c0.contains_key(k) && has_layer_id(gone, k.0) {
                    assert(has_key(entries@, k));
                    let p = choose|p: int| 0 <= p < entries@.len() && #[trigger] entries@[p].0 == k;
                    assert(keys@.contains(entries@[p].0));
                }
                if exists|q: int| 0 <= q < t && keys@[q] == k {
                    let q = choose|q: int| 0 <= q < t && keys@[q] == k;
                }
            }
            assert(cels@ =~= without_layers(c0, gone));
            assert forall|a: int, b: int|
                0 <= a < b < rc.len() implies ((#[trigger] rc[a]).layer, rc[a].frame) != (
                (#[trigger] rc[b]).layer,
                rc[b].frame,
            ) by {}
            lemma_insert_cels(cels@, rc);
            assert(insert_cels(cels@, rc) =~= c0) by {
                assert forall|k: CelKey| #[trigger] insert_cels(cels@, rc).contains_key(k) <==> c0.contains_key(k) by {
                    if c0.contains_key(k) && has_layer_id(gone, k.0) {
                        assert(has_key(entries@, k));
                        let p = choose|p: int| 0 <= p < entries@.len() && #[trigger] entries@[p].0 == k;
                        assert(keys@.contains(entries@[p].0));
                        let q = choose|q: int| 0 <= q < keys@.len() && keys@[q] == k;
                        assert((rc[q].layer, rc[q].frame) == k);
                    }
                    if exists|q: int| 0 <= q < rc.len() && ((#[trigger] rc[q]).layer, rc[q].frame) == k {
                        let q = choose|q: int| 0 <= q < rc.len() && ((#[trigger] rc[q]).layer, rc[q].frame) == k;
                        assert(keys@[q] == k);
                    }
                }
                assert forall|k: CelKey| #[trigger] c0.contains_key(k) implies insert_cels(cels@, rc)[k] == c0[k] by {
                    if exists|q: int| 0 <= q < rc.len() && ((#[trigger] rc[q]).layer, rc[q].frame) == k {
                        let q = choose|q: int| 0 <= q < rc.len() && ((#[trigger] rc[q]).layer, rc[q].frame) == k;
                        assert(keys@[q] == k);
                    } else {
                        assert(cels@.contains_key(k)) by {
                            if has_layer_id(gone, k.0) {
                                assert(has_key(entries@, k));
                                let p = choose|p: int| 0 <= p < entries@.len() && #[trigger] entries@[p].0 == k;
                                assert(keys@.contains(entries@[p].0));
                                let q = choose|q: int| 0 <= q < keys@.len() && keys@[q] == k;
                                assert((rc[q].layer, rc[q].frame) == k);
                            }
                        }
                    }
                }
            }
            assert(spliced(doc@.layers, i as int, gone) =~= ls);
            assert forall|k: CelKey| #[trigger] cels@.contains_key(k) implies cel_wf(cels@[k])
                && cels@[k].layer == k.0 && cels@[k].frame == k.1 by {}
            assert(doc@.tilesets == d0.tilesets);
        }
        Ok(())
    }

    fn revert(&mut self, doc: &mut Sprite, cels: &mut CelMap)
        ensures
            forall|d: SpriteModel, c: CelsModel| #[trigger] final(self).reverted(d, c) == (d, c),
    {
        let (start, layers, removed_cels) = match self.removed.take() {
            Some(r) => r,
            None => {
                return ;
            },
        };
        let ghost d0 = doc@;
        let ghost c0 = cels@;
        let ghost part = layer_models(layers@);
        let n = doc.layers.len();
        let st = if start <= n {
            start
        } else {
            n
        };
        let ghost l0 = doc.layers@;
        let ghost lv = layers@;
        let mut layers = layers;
        let mut offset: usize = 0;
        proof {
            assert(lv.subrange(0, 0) + l0.subrange(st as int, n as int) =~= l0.subrange(st as int, n as int));
            assert(l0.subrange(0, st as int) + l0.subrange(st as int, n as int) =~= l0);
            assert(layers@ =~= lv.subrange(0, lv.len() as int));
        }
        while layers.len() > 0
            invariant
                st <= n == l0.len(),
                offset + layers@.len() == lv.len(),
                layers@ == lv.subrange(offset as int, lv.len() as int),
                doc@ == (SpriteModel { layers: doc@.layers, ..d0 }),
                doc.layers@ == l0.subrange(0, st as int) + lv.subrange(0, offset as int) + l0.subrange(
                    st as int,
                    n as int,
                ),
            decreases layers@.len(),
        {
            let l = layers.remove(0);
            proof {
                assert(l == lv[offset as int]);
            }
            let cur = doc.layers.len();
            doc.layers.insert(st + offset, l);
            let _grown = doc.layers.len();
            proof {
                assert(doc.layers@ =~= l0.subrange(0, st as int) + lv.subrange(0, offset + 1) + l0.subrange(
                    st as int,
                    n as int,
                ));
                assert(layers@ =~= lv.subrange(offset + 1, lv.len() as int));
            }
            offset = offset + 1;
        }
        proof {
            assert(lv.subrange(0, offset as int) =~= lv);
            assert(doc@.layers =~= spliced(d0.layers, start as int, part));
        }
        let mut j: usize = 0;
        proof {
            assert(removed_cels@.take(0) =~= Seq::<Cel>::empty());
        }
        while j < removed_cels.len()
            invariant
                j <= removed_cels@.len(),
                cels.wf(),
                cels_wf(cels@),
                forall|q: int| 0 <= q < removed_cels@.len() ==> cel_wf((#[trigger] removed_cels@[q])@),
                cels@ == insert_cels(c0, removed_cels@.take(j as int)),
            decreases removed_cels@.len() - j,
        {
            let c = removed_cels[j].clone();
            let ghost cm = c@;
            cels.insert(c);
            proof {
                assert(cm == removed_cels@[j as int]@);
                assert(removed_cels@.take(j + 1).last() == removed_cels@[j as int]);
                assert(removed_cels@.take(j + 1).drop_last() =~= removed_cels@.take(j as int));
            }
            j = j + 1;
        }
        proof {
            assert(removed_cels@.take(j as int) =~= removed_cels@);
            assert(doc@.tilesets == d0.tilesets);
        }
    }
}

} // verus!
