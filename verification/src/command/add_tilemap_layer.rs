//! `AddTilemapLayer` command — insert a tilemap layer and seed its
//! per-frame tilemap cels as one undoable unit.
//!
//! Plain [`AddLayer`](super::AddLayer) does not manage cels, so seeding
//! tilemap cels by hand after running it leaves orphan entries in the cel
//! map if the layer is later undone (the layer leaves, the cels stay). This
//! command bundles both sides so revert removes the cels along with the
//! layer.
use vstd::prelude::*;

use super::error::CommandError;
use super::remove_layer::insert_cels;
use super::{cel_wf, cels_wf, CelsModel, Command};
use crate::document::cel::CelModel;
use crate::document::cel_map::CelKey;
use crate::document::sprite::{no_layer, SpriteModel};
use crate::document::{Cel, CelData, CelMap, Layer, Sprite};

verus! {

/// Insert a tilemap layer on top of the stack and seed the supplied
/// per-frame cels under one undo step.
#[derive(Debug)]
pub struct AddTilemapLayer {
    /// The layer to insert; taken by `apply`, given back by `revert`.
    pub layer: Option<Layer>,
    /// The cels seeded after the layer lands, in order.
    pub cels: Vec<Cel>,
    /// Index where the layer was inserted; `Some` after `apply`, consumed
    /// on `revert`.
    pub inserted_index: Option<usize>,
    /// Cels that previously occupied any of the seeded `(layer, frame)`
    /// slots, captured on `apply` so `revert` can restore them.
    pub displaced: Vec<Cel>,
}

/// The key a cel is stored under.
pub open spec fn cel_key(c: Cel) -> CelKey {
    (c.layer, c.frame)
}

/// The cels that inserting `seeds` one by one into `cels` displaces, in
/// order.
pub open spec fn displaced_by(cels: CelsModel, seeds: Seq<Cel>) -> Seq<CelModel>
    decreases seeds.len(),
{
    if seeds.len() == 0 {
        Seq::empty()
    } else {
        let before = insert_cels(cels, seeds.drop_last());
        let k = cel_key(seeds.last());
        if before.contains_key(k) {
            displaced_by(cels, seeds.drop_last()).push(before[k])
        } else {
            displaced_by(cels, seeds.drop_last())
        }
    }
}

/// `cels` without the keys of `seeds`.
pub open spec fn without_keys(cels: CelsModel, seeds: Seq<Cel>) -> CelsModel {
    Map::new(
        |k: CelKey| cels.contains_key(k) && !(exists|j: int| 0 <= j < seeds.len() && cel_key(#[trigger] seeds[j]) == k),
        |k: CelKey| cels[k],
    )
}

/// `cels` with each of `ms` inserted under its own key, last to first.
pub open spec fn insert_models_rev(cels: CelsModel, ms: Seq<CelModel>) -> CelsModel
    decreases ms.len(),
{
    if ms.len() == 0 {
        cels
    } else {
        insert_models_rev(cels.insert((ms[0].layer, ms[0].frame), ms[0]), ms.drop_first())
    }
}

/// The seeded cels carry pairwise distinct keys.
pub open spec fn distinct_keys(seeds: Seq<Cel>) -> bool {
    forall|a: int, b: int| 0 <= a < b < seeds.len() ==> cel_key(#[trigger] seeds[a]) != cel_key(#[trigger] seeds[b])
}

/// Whether the cel's payload matches its dimensions.
fn cel_is_wf(c: &Cel) -> (b: bool)
    ensures
        b == cel_wf(c@),
{
    match &c.data {
        CelData::Image(buf) => buf.is_well_formed(),
        CelData::Tilemap { .. } => true,
        CelData::Linked(_) => true,
    }
}

/// Inserting cels with distinct keys into a map, then dropping those keys
/// and putting back what they displaced, in reverse, gives back the map.
proof fn lemma_seed_round_trip(cels: CelsModel, seeds: Seq<Cel>)
    requires
        distinct_keys(seeds),
        forall|k: CelKey| #[trigger] cels.contains_key(k) ==> cels[k].layer == k.0 && cels[k].frame == k.1,
    ensures
        insert_models_rev(without_keys(insert_cels(cels, seeds), seeds), displaced_by(cels, seeds).reverse())
            == cels,
    decreases seeds.len(),
{
    if seeds.len() == 0 {
        assert(without_keys(cels, seeds) =~= cels);
        assert(displaced_by(cels, seeds).reverse() =~= Seq::<CelModel>::empty());
    } else {
        let rest = seeds.drop_last();
        let last = seeds.last();
        let k = cel_key(last);
        assert(distinct_keys(rest)) by {
            assert forall|a: int, b: int| 0 <= a < b < rest.len() implies cel_key(#[trigger] rest[a])
                != cel_key(#[trigger] rest[b]) by {
                assert(rest[a] == seeds[a] && rest[b] == seeds[b]);
            }
        }
        lemma_seed_round_trip(cels, rest);
        let before = insert_cels(cels, rest);
        // Dropping the last seed's key as well undoes its insertion.
        assert(without_keys(insert_cels(cels, seeds), seeds) =~= without_keys(before, rest).remove(k)) by {
            assert forall|kk: CelKey| #[trigger] without_keys(insert_cels(cels, seeds), seeds).contains_key(kk)
                <==> without_keys(before, rest).remove(k).contains_key(kk) by {
                if exists|j: int| 0 <= j < rest.len() && cel_key(#[trigger] rest[j]) == kk {
                    let j = choose|j: int| 0 <= j < rest.len() && cel_key(#[trigger] rest[j]) == kk;
                    assert(seeds[j] == rest[j]);
                }
                if exists|j: int| 0 <= j < seeds.len() && cel_key(#[trigger] seeds[j]) == kk {
                    let j = choose|j: int| 0 <= j < seeds.len() && cel_key(#[trigger] seeds[j]) == kk;
                    if j < rest.len() {
                        assert(rest[j] == seeds[j]);
                    }
                }
            }
        }
        let dr = displaced_by(cels, rest);
        assert(!(exists|j: int| 0 <= j < rest.len() && cel_key(#[trigger] rest[j]) == k)) by {
            if exists|j: int| 0 <= j < rest.len() && cel_key(#[trigger] rest[j]) == k {
                let j = choose|j: int| 0 <= j < rest.len() && cel_key(#[trigger] rest[j]) == k;
                assert(seeds[j] == rest[j]);
                assert(cel_key(seeds[j]) != cel_key(seeds[seeds.len() - 1]));
            }
        }
        lemma_insert_cels_other(cels, rest, k);
        if before.contains_key(k) {
            assert(displaced_by(cels, seeds).reverse() =~= seq![before[k]] + dr.reverse());
            assert(before[k].layer == k.0 && before[k].frame == k.1) by {
                lemma_insert_cels_key(cels, rest, k);
            }
            let m0 = without_keys(before, rest).remove(k);
            assert(m0.insert(k, before[k]) =~= without_keys(before, rest));
            assert((seq![before[k]] + dr.reverse()).drop_first() =~= dr.reverse());
            assert((seq![before[k]] + dr.reverse())[0] == before[k]);
        } else {
            assert(displaced_by(cels, seeds).reverse() =~= dr.reverse());
            assert(without_keys(before, rest).remove(k) =~= without_keys(before, rest));
        }
    }
}

/// A key that none of `seeds` carries keeps the value it had.
proof fn lemma_insert_cels_other(cels: CelsModel, seeds: Seq<Cel>, k: CelKey)
    requires
        !(exists|j: int| 0 <= j < seeds.len() && cel_key(#[trigger] seeds[j]) == k),
    ensures
        insert_cels(cels, seeds).contains_key(k) == cels.contains_key(k),
        cels.contains_key(k) ==> insert_cels(cels, seeds)[k] == cels[k],
    decreases seeds.len(),
{
    if seeds.len() > 0 {
        let rest = seeds.drop_last();
        assert(cel_key(seeds[seeds.len() - 1]) != k);
        assert(!(exists|j: int| 0 <= j < rest.len() && cel_key(#[trigger] rest[j]) == k)) by {
            if exists|j: int| 0 <= j < rest.len() && cel_key(#[trigger] rest[j]) == k {
                let j = choose|j: int| 0 <= j < rest.len() && cel_key(#[trigger] rest[j]) == k;
                assert(seeds[j] == rest[j]);
            }
        }
        lemma_insert_cels_other(cels, rest, k);
    }
}

/// In a map built by inserting cels under their keys over a map that stores
/// each cel under its own key, every value sits under its own key.
proof fn lemma_insert_cels_key(cels: CelsModel, seeds: Seq<Cel>, k: CelKey)
    requires
        insert_cels(cels, seeds).contains_key(k),
        cels.contains_key(k) ==> cels[k].layer == k.0 && cels[k].frame == k.1,
    ensures
        insert_cels(cels, seeds)[k].layer == k.0,
        insert_cels(cels, seeds)[k].frame == k.1,
    decreases seeds.len(),
{
    if seeds.len() > 0 {
        let rest = seeds.drop_last();
        if cel_key(seeds.last()) != k {
            lemma_insert_cels_key(cels, rest, k);
        }
    }
}

impl AddTilemapLayer {
    /// Build the command. `cels` are inserted in order after the layer
    /// lands; any of them whose `(layer, frame)` collides with an existing
    /// entry displaces that entry, which `revert` then restores.
    pub fn new(layer: Layer, cels: Vec<Cel>) -> (c: Self)
        ensures
            c.layer == Some(layer),
            c.cels == cels,
            c.inserted_index is None,
            c.displaced@.len() == 0,
    {
        AddTilemapLayer { layer: Some(layer), cels, inserted_index: None, displaced: Vec::new() }
    }
}

impl Command for AddTilemapLayer {
    fn fits_doc(&self, doc: &Sprite) -> (b: bool) {
        true
    }

    open spec fn inv(&self) -> bool {
        &&& forall|j: int| 0 <= j < self.cels@.len() ==> cel_wf((#[trigger] self.cels@[j])@)
        &&& forall|j: int| 0 <= j < self.displaced@.len() ==> cel_wf((#[trigger] self.displaced@[j])@)
    }

    /// The command holds its layer, and the cels it seeds are well formed.
    open spec fn ready(&self) -> bool {
        &&& self.layer is Some
        &&& forall|j: int| 0 <= j < self.cels@.len() ==> cel_wf((#[trigger] self.cels@[j])@)
    }

    /// Revert undoes apply exactly when the seeded cels have distinct keys.
    open spec fn exact_on(&self, doc: SpriteModel, cels: CelsModel) -> bool {
        distinct_keys(self.cels@)
    }

    fn is_ready(&self) -> (b: bool) {
        if self.layer.is_none() {
            return false;
        }
        let mut j: usize = 0;
        while j < self.cels.len()
            invariant
                j <= self.cels@.len(),
                forall|q: int| 0 <= q < j ==> cel_wf((#[trigger] self.cels@[q])@),
            decreases self.cels@.len() - j,
        {
            if !cel_is_wf(&self.cels[j]) {
                return false;
            }
            j = j + 1;
        }
        true
    }

    open spec fn applied_on(&self, doc: SpriteModel, cels: CelsModel) -> bool {
        &&& self.inserted_index is Some
        &&& self.inserted_index->0 < doc.layers.len()
    }

    open spec fn reverted(&self, doc: SpriteModel, cels: CelsModel) -> (SpriteModel, CelsModel) {
        match self.inserted_index {
            Some(idx) => (
                if idx < doc.layers.len() {
                    SpriteModel { layers: doc.layers.remove(idx as int), ..doc }
                } else {
                    doc
                },
                insert_models_rev(
                    without_keys(cels, self.cels@),
                    self.displaced@.map_values(|c: Cel| c@).reverse(),
                ),
            ),
            None => (doc, cels),
        }
    }

    open spec fn fails_with(&self, doc: SpriteModel, cels: CelsModel, e: CommandError) -> bool {
        e == CommandError::DuplicateLayerId(self.layer->0.id.0)
    }

    open spec fn outcome(&self, doc: SpriteModel, cels: CelsModel) -> (SpriteModel, CelsModel) {
        (
            SpriteModel { layers: doc.layers.push(self.layer->0@), ..doc },
            insert_cels(cels, self.cels@),
        )
    }

    open spec fn reverts_to(&self, back: Self, doc: SpriteModel, cels: CelsModel) -> bool {
        back.cels@ == self.cels@ && match self.inserted_index {
            Some(i) => if i < doc.layers.len() {
                back.layer matches Some(l) && l@ == doc.layers[i as int]
            } else {
                back.layer == self.layer
            },
            None => back.layer == self.layer,
        }
    }

    open spec fn succeeds_on(&self, doc: SpriteModel, cels: CelsModel) -> bool {
        no_layer(doc.layers, self.layer->0.id)
    }

    fn apply(&mut self, doc: &mut Sprite, cels: &mut CelMap) -> (r: Result<(), CommandError>)
        ensures
            r is Err ==> *final(self) == *old(self),
            match r {
                Ok(_) => {
                    &&& no_layer(old(doc)@.layers, old(self).layer->0.id)
                    &&& final(doc)@ == SpriteModel {
                        layers: old(doc)@.layers.push(old(self).layer->0@),
                        ..old(doc)@
                    }
                    &&& final(cels)@ == insert_cels(old(cels)@, old(self).cels@)
                },
                Err(e) => !no_layer(old(doc)@.layers, old(self).layer->0.id) && e
                    == CommandError::DuplicateLayerId(old(self).layer->0.id.0),
            },
    {
        let id = match &self.layer {
            Some(l) => l.id,
            None => unreached(),
        };
        if doc.layer_index(id).is_some() {
            return Err(CommandError::DuplicateLayerId(id.0));
        }
        let ghost d0 = doc@;
        let ghost c0 = cels@;
        let layer = match self.layer.take() {
            Some(l) => l,
            None => unreached(),
        };
        let ghost lm = layer@;
        let target = doc.layers.len();
        doc.layers.insert(target, layer);
        self.inserted_index = Some(target);
        proof {
            assert(doc@.layers =~= d0.layers.push(lm));
        }
        self.displaced.clear();
        let mut j: usize = 0;
        proof {
            assert(self.cels@.take(0) =~= Seq::<Cel>::empty());
        }
        let ghost s_cels = self.cels@;
        let ghost d1 = doc@;
        while j < self.cels.len()
            invariant
                j <= self.cels@.len(),
                self.cels@ == s_cels,
                self.inserted_index == Some(target),
                doc@ == d1,
                cels.wf(),
                cels_wf(cels@),
                cels_wf(c0),
                forall|q: int| 0 <= q < self.cels@.len() ==> cel_wf((#[trigger] self.cels@[q])@),
                cels@ == insert_cels(c0, self.cels@.take(j as int)),
                self.displaced@.map_values(|c: Cel| c@) == displaced_by(c0, self.cels@.take(j as int)),
                forall|q: int| 0 <= q < self.displaced@.len() ==> cel_wf((#[trigger] self.displaced@[q])@),
            decreases self.cels@.len() - j,
        {
            let c = self.cels[j].clone();
            let ghost cm = c@;
            let ghost before = cels@;
            let ghost dis0 = self.displaced@;
            let ghost seeds = self.cels@;
            match cels.insert(c) {
                Some(prev) => {
                    self.displaced.push(prev);
                },
                None => {},
            }
            proof {
                assert(seeds.take(j + 1).drop_last() =~= seeds.take(j as int));
                assert(seeds.take(j + 1).last() == seeds[j as int]);
                assert(cm == seeds[j as int]@);
                assert(self.displaced@.map_values(|c: Cel| c@) =~= displaced_by(c0, seeds.take(j + 1)));
            }
            j = j + 1;
        }
        proof {
            assert(self.cels@.take(j as int) =~= self.cels@);
            assert(doc@.tilesets == d0.tilesets);
            if distinct_keys(self.cels@) {
                assert forall|k: CelKey| #[trigger] c0.contains_key(k) implies c0[k].layer == k.0 && c0[k].frame == k.1 by {}
                lemma_seed_round_trip(c0, self.cels@);
                assert(doc@.layers.remove(target as int) =~= d0.layers);
            }
        }
        Ok(())
    }

    fn revert(&mut self, doc: &mut Sprite, cels: &mut CelMap)
        ensures
            forall|d: SpriteModel, c: CelsModel| #[trigger] final(self).reverted(d, c) == (d, c),
    {
        let index = match self.inserted_index.take() {
            Some(i) => i,
            None => {
                return ;
            },
        };
        let ghost d0 = doc@;
        let ghost c0 = cels@;
        let ghost seeds = self.cels@;
        let ghost dis = self.displaced@.map_values(|c: Cel| c@).reverse();
        let mut j = self.cels.len();
        while j > 0
            invariant
                j <= seeds.len(),
                seeds == self.cels@,
                cels.wf(),
                cels_wf(cels@),
                cels@ == Map::new(
                    |k: CelKey| c0.contains_key(k) && !(exists|q: int| j <= q < seeds.len() && cel_key(#[trigger] seeds[q]) == k),
                    |k: CelKey| c0[k],
                ),
            decreases j,
        {
            j = j - 1;
            let c = &self.cels[j];
            let _ = cels.remove(c.layer, c.frame);
            proof {
                assert(cels@ =~= Map::new(
                    |k: CelKey| c0.contains_key(k) && !(exists|q: int| j <= q < seeds.len() && cel_key(#[trigger] seeds[q]) == k),
                    |k: CelKey| c0[k],
                )) by {
                    assert forall|k: CelKey| #[trigger] cels@.contains_key(k) <==> (c0.contains_key(k) && !(exists|q: int| j <= q < seeds.len() && cel_key(#[trigger] seeds[q]) == k)) by {
                        if exists|q: int| j + 1 <= q < seeds.len() && cel_key(#[trigger] seeds[q]) == k {
                            let q = choose|q: int| j + 1 <= q < seeds.len() && cel_key(#[trigger] seeds[q]) == k;
                        }
                        if exists|q: int| j <= q < seeds.len() && cel_key(#[trigger] seeds[q]) == k {
                            let q = choose|q: int| j <= q < seeds.len() && cel_key(#[trigger] seeds[q]) == k;
                            if q > j {
                            }
                        }
                    }
                }
            }
        }
        proof {
            assert(cels@ =~= without_keys(c0, seeds));
        }
        let ghost dv = self.displaced@;
        let n = self.displaced.len();
        let mut j2 = n;
        proof {
            assert(dis.subrange(0, dis.len() as int) =~= dis);
        }
        while j2 > 0
            invariant
                j2 <= n == dv.len(),
                self.displaced@ == dv,
                forall|q: int| 0 <= q < dv.len() ==> cel_wf((#[trigger] dv[q])@),
                dis == dv.map_values(|c: Cel| c@).reverse(),
                cels.wf(),
                cels_wf(cels@),
                insert_models_rev(without_keys(c0, seeds), dis) == insert_models_rev(
                    cels@,
                    dis.subrange(n - j2, n as int),
                ),
            decreases j2,
        {
            j2 = j2 - 1;
            let c = self.displaced[j2].clone();
            proof {
                assert(c@ == dv[j2 as int]@);
                assert(dis[n - 1 - j2] == c@);
                let tail = dis.subrange(n - 1 - j2, n as int);
                assert(tail[0] == c@);
                assert(tail.drop_first() =~= dis.subrange(n - j2, n as int));
            }
            cels.insert(c);
        }
        proof {
            assert(dis.subrange(n as int, n as int) =~= Seq::<CelModel>::empty());
        }
        self.displaced.clear();
        if index < doc.layers.len() {
            let layer = doc.layers.remove(index);
            self.layer = Some(layer);
        }
        proof {
            assert(doc@.tilesets == d0.tilesets);
            if index < d0.layers.len() {
                assert(doc@.layers =~= d0.layers.remove(index as int));
            }
        }
    }
}

} // verus!
