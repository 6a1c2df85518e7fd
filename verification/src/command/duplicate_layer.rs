//! `DuplicateLayer` command — copy an image or tilemap layer, with all its
//! cels, directly above the original.
//!
//! The copy gets the next free layer id (one past the largest in use) and
//! the name "<name> copy". The id is chosen on the first apply and reused
//! afterwards, so redo recreates the same layer.
use vstd::prelude::*;

use super::error::CommandError;
use super::{cel_wf, cels_wf, CelsModel, Command};
use crate::document::cel::CelModel;
use crate::document::cel_map::{has_key, CelKey};
use crate::document::layer::LayerModel;
use crate::document::sprite::{first_layer_at, layer_pos, lemma_layer_pos, no_layer, SpriteModel};
use crate::document::{CelMap, FrameIndex, Layer, LayerId, LayerKind, Sprite};

verus! {

/// Duplicate the layer `source` (with its cels) directly above it.
#[derive(Debug, Clone)]
pub struct DuplicateLayer {
    pub source: LayerId,
    /// Chosen on the first `apply`, reused afterwards.
    pub new_id: Option<LayerId>,
    /// `Some` while applied: the inserted index and the frames whose cels
    /// were copied, for `revert`.
    pub inserted: Option<(usize, Vec<FrameIndex>)>,
}

/// `v` is the smallest layer id that none of `layers` carries.
pub open spec fn least_free_id(layers: Seq<LayerModel>, v: u32) -> bool {
    &&& no_layer(layers, LayerId(v))
    &&& forall|w: u32| #![auto] w < v ==> !no_layer(layers, LayerId(w))
}

/// The id a new layer gets: the smallest id not in use, and an error when
/// every `u32` is already taken.
pub open spec fn next_id_outcome(layers: Seq<LayerModel>) -> Result<LayerId, CommandError> {
    if exists|v: u32| least_free_id(layers, v) {
        Ok(LayerId(choose|v: u32| least_free_id(layers, v)))
    } else {
        Err(CommandError::DuplicateLayerId(u32::MAX))
    }
}

/// At most one id is the smallest free one.
proof fn lemma_least_free_unique(layers: Seq<LayerModel>, v: u32, u: u32)
    requires
        least_free_id(layers, v),
        least_free_id(layers, u),
    ensures
        v == u,
{
    if v < u {
        assert(!no_layer(layers, LayerId(v)));
    } else if u < v {
        assert(!no_layer(layers, LayerId(u)));
    }
}

/// The cels with a copy, keyed to `id`, of every cel of layer `src`.
pub open spec fn with_copies(cels: CelsModel, src: LayerId, id: LayerId) -> CelsModel {
    Map::new(
        |k: CelKey| cels.contains_key(k) || (k.0 == id && cels.contains_key((src, k.1))),
        |k: CelKey|
            if k.0 == id && cels.contains_key((src, k.1)) {
                CelModel { layer: id, ..cels[(src, k.1)] }
            } else {
                cels[k]
            },
    )
}

/// The cels without those keyed to `id` at one of the frames `fs`.
pub open spec fn without_frames(cels: CelsModel, id: LayerId, fs: Seq<FrameIndex>) -> CelsModel {
    Map::new(|k: CelKey| cels.contains_key(k) && !(k.0 == id && fs.contains(k.1)), |k: CelKey| cels[k])
}

/// The layers without any carrying id `id`, order kept.
pub open spec fn without_id(layers: Seq<LayerModel>, id: LayerId) -> Seq<LayerModel>
    decreases layers.len(),
{
    if layers.len() == 0 {
        layers
    } else if layers.last().id == id {
        without_id(layers.drop_last(), id)
    } else {
        without_id(layers.drop_last(), id).push(layers.last())
    }
}

/// The copy of `l` under id `id`.
pub open spec fn layer_copy(l: LayerModel, id: LayerId) -> LayerModel {
    LayerModel { id, name: l.name + " copy"@, ..l }
}

/// The smallest layer id not in use on `doc`.
pub fn next_layer_id(doc: &Sprite) -> (r: Result<LayerId, CommandError>)
    ensures
        r == next_id_outcome(doc@.layers),
{
    let mut v: u32 = 0;
    loop
        invariant
            forall|w: u32| #![auto] w < v ==> !no_layer(doc@.layers, LayerId(w)),
        decreases u32::MAX - v,
    {
        if doc.layer_index(LayerId::new(v)).is_none() {
            proof {
                assert(least_free_id(doc@.layers, v));
                let u = choose|u: u32| least_free_id(doc@.layers, u);
                lemma_least_free_unique(doc@.layers, v, u);
            }
            return Ok(LayerId::new(v));
        }
        if v == u32::MAX {
            proof {
                assert forall|u: u32| !least_free_id(doc@.layers, u) by {
                    if u < v {
                        assert(!no_layer(doc@.layers, LayerId(u)));
                    }
                }
            }
            return Err(CommandError::DuplicateLayerId(u32::MAX));
        }
        v = v + 1;
    }
}

impl DuplicateLayer {
    pub fn new(source: LayerId) -> (c: Self)
        ensures
            c.source == source,
            c.new_id is None,
            c.inserted is None,
    {
        DuplicateLayer { source, new_id: None, inserted: None }
    }

    /// Id of the copy, once `apply` has run.
    pub fn new_layer_id(&self) -> (r: Option<LayerId>)
        ensures
            r == self.new_id,
    {
        self.new_id
    }

    /// The id the copy receives when applied to `doc`.
    pub open spec fn copy_id(&self, doc: SpriteModel) -> Result<LayerId, CommandError> {
        match self.new_id {
            Some(id) => Ok(id),
            None => next_id_outcome(doc.layers),
        }
    }
}

impl Command for DuplicateLayer {
    fn fits_doc(&self, doc: &Sprite) -> (b: bool) {
        true
    }

    open spec fn ready(&self) -> bool {
        true
    }

    /// The copy's cels replace nothing: no cel is keyed to its id yet.
    open spec fn exact_on(&self, doc: SpriteModel, cels: CelsModel) -> bool {
        match self.copy_id(doc) {
            Ok(id) => forall|k: CelKey| #[trigger] cels.contains_key(k) ==> k.0 != id,
            Err(_) => true,
        }
    }

    fn is_ready(&self) -> (b: bool) {
        true
    }

    open spec fn applied_on(&self, doc: SpriteModel, cels: CelsModel) -> bool {
        self.inserted is Some && self.new_id is Some
    }

    open spec fn reverted(&self, doc: SpriteModel, cels: CelsModel) -> (SpriteModel, CelsModel) {
        match (self.inserted, self.new_id) {
            (Some((i, fs)), Some(id)) => (
                SpriteModel {
                    layers: if i < doc.layers.len() && doc.layers[i as int].id == id {
                        doc.layers.remove(i as int)
                    } else {
                        without_id(doc.layers, id)
                    },
                    ..doc
                },
                without_frames(cels, id, fs@),
            ),
            _ => (doc, cels),
        }
    }

    open spec fn fails_with(&self, doc: SpriteModel, cels: CelsModel, e: CommandError) -> bool {
        if no_layer(doc.layers, self.source) {
            e == CommandError::UnknownLayer(self.source.0)
        } else if doc.layers[layer_pos(doc.layers, self.source)].kind == LayerKind::Group {
            e == CommandError::UnsupportedLayerKind(self.source.0)
        } else {
            match self.copy_id(doc) {
                Ok(id) => e == CommandError::DuplicateLayerId(id.0),
                Err(e2) => e == e2,
            }
        }
    }

    open spec fn outcome(&self, doc: SpriteModel, cels: CelsModel) -> (SpriteModel, CelsModel) {
        {
            let i = layer_pos(doc.layers, self.source);
            let id = self.copy_id(doc)->Ok_0;
            (
                SpriteModel { layers: doc.layers.insert(i + 1, layer_copy(doc.layers[i], id)), ..doc },
                with_copies(cels, self.source, id),
            )
        }
    }

    open spec fn reverts_to(&self, back: Self, doc: SpriteModel, cels: CelsModel) -> bool {
        back.source == self.source && back.new_id == self.new_id
    }

    open spec fn succeeds_on(&self, doc: SpriteModel, cels: CelsModel) -> bool {
        let i = layer_pos(doc.layers, self.source);
        &&& !no_layer(doc.layers, self.source)
        &&& doc.layers[i].kind != LayerKind::Group
        &&& self.copy_id(doc) matches Ok(id) && no_layer(doc.layers, id)
    }

    fn apply(&mut self, doc: &mut Sprite, cels: &mut CelMap) -> (r: Result<(), CommandError>)
        ensures
            r is Err ==> *final(self) == *old(self),
            final(self).source == old(self).source,
            ({
                let src = old(self).source;
                let d = old(doc)@;
                let i = layer_pos(d.layers, src);
                match r {
                    Ok(_) => {
                        &&& !no_layer(d.layers, src)
                        &&& d.layers[i].kind != LayerKind::Group
                        &&& old(self).copy_id(d) matches Ok(id) && {
                            &&& no_layer(d.layers, id)
                            &&& final(self).new_id == Some(id)
                            &&& final(doc)@ == (SpriteModel {
                                layers: d.layers.insert(i + 1, layer_copy(d.layers[i], id)),
                                ..d
                            })
                            &&& final(cels)@ == with_copies(old(cels)@, src, id)
                        }
                    },
                    Err(e) => if no_layer(d.layers, src) {
                        e == CommandError::UnknownLayer(src.0)
                    } else if d.layers[i].kind == LayerKind::Group {
                        e == CommandError::UnsupportedLayerKind(src.0)
                    } else {
                        match old(self).copy_id(d) {
                            Ok(id) => !no_layer(d.layers, id) && e == CommandError::DuplicateLayerId(
                                id.0,
                            ),
                            Err(e2) => e == e2,
                        }
                    },
                }
            }),
    {
        let src = self.source;
        let ghost d0 = doc@;
        let ghost c0 = cels@;
        let index = match doc.layer_index(src) {
            Some(i) => i,
            None => {
                return Err(CommandError::UnknownLayer(src.0));
            },
        };
        proof {
            lemma_layer_pos(d0.layers, src, index as int);
        }
        match doc.layers[index].kind {
            LayerKind::Group => {
                return Err(CommandError::UnsupportedLayerKind(src.0));
            },
            _ => {},
        }
        let _n = doc.layers.len();
        let new_id = match self.new_id {
            Some(id) => id,
            None => next_layer_id(doc)?,
        };
        if doc.layer_index(new_id).is_some() {
            return Err(CommandError::DuplicateLayerId(new_id.0));
        }
        let mut copy = doc.layers[index].clone();
        copy.id = new_id;
        copy.name.append(" copy");
        let ghost lm = copy@;
        let ghost old_layers = doc.layers@;
        doc.layers.insert(index + 1, copy);
        proof {
            assert(doc.layers@.map_values(|l: Layer| l@) =~= old_layers.map_values(|l: Layer| l@).insert(
                index + 1,
                lm,
            ));
        }
        // The frames that hold a cel of the source layer, in key order.
        let entries = cels.iter();
        let mut frames: Vec<FrameIndex> = Vec::new();
        let ne = entries.len();
        let mut j: usize = 0;
        while j < ne
            invariant
                ne == entries@.len(),
                j <= ne,
                forall|f: FrameIndex|
                    #[trigger] frames@.contains(f) <==> exists|q: int|
                        0 <= q < j && (#[trigger] entries@[q]).0 == (src, f),
            decreases ne - j,
        {
            let key = entries[j].0;
            let ghost fr0 = frames@;
            if key.0 == src {
                frames.push(key.1);
            }
            proof {
                broadcast use vstd::seq_lib::lemma_seq_contains_after_push;

                assert forall|f: FrameIndex| #[trigger] frames@.contains(f) <==> exists|q: int|
                    0 <= q < j + 1 && (#[trigger] entries@[q]).0 == (src, f) by {
                    if frames@.contains(f) && !fr0.contains(f) {
                        assert(entries@[j as int].0 == (src, f));
                    }
                    if exists|q: int| 0 <= q < j + 1 && (#[trigger] entries@[q]).0 == (src, f) {
                        let q = choose|q: int| 0 <= q < j + 1 && (#[trigger] entries@[q]).0 == (src, f);
                        if q < j {
                            assert(fr0.contains(f));
                        } else {
                            assert(frames@.last() == f);
                            assert(frames@[frames@.len() - 1] == f);
                        }
                    }
                }
            }
            j = j + 1;
        }
        proof {
            assert forall|f: FrameIndex| #[trigger] frames@.contains(f) <==> c0.contains_key((src, f)) by {
                if frames@.contains(f) {
                    let q = choose|q: int| 0 <= q < ne && (#[trigger] entries@[q]).0 == (src, f);
                    assert(c0.contains_key(entries@[q].0));
                }
                if c0.contains_key((src, f)) {
                    assert(has_key(entries@, (src, f)));
                }
            }
        }
        let nf = frames.len();
        let mut k: usize = 0;
        while k < nf
            invariant
                nf == frames@.len(),
                k <= nf,
                src != new_id,
                cels.wf(),
                cels_wf(c0),
                forall|f: FrameIndex| #[trigger] frames@.contains(f) <==> c0.contains_key((src, f)),
                cels@ == Map::new(
                    |key: CelKey|
                        c0.contains_key(key) || (key.0 == new_id && frames@.take(k as int).contains(
                            key.1,
                        ) && c0.contains_key((src, key.1))),
                    |key: CelKey|
                        if key.0 == new_id && frames@.take(k as int).contains(key.1)
                            && c0.contains_key((src, key.1)) {
                            CelModel { layer: new_id, ..c0[(src, key.1)] }
                        } else {
                            c0[key]
                        },
                ),
            decreases nf - k,
        {
            let f = frames[k];
            let ghost before = cels@;
            let copied = match cels.get(src, f) {
                Some(c) => {
                    let mut cel = c.clone();
                    cel.layer = new_id;
                    Some(cel)
                },
                None => None,
            };
            match copied {
                Some(cel) => {
                    cels.insert(cel);
                },
                None => {},
            }
            proof {
                broadcast use vstd::seq_lib::lemma_seq_contains_after_push;

                assert(frames@.contains(f));
                assert(before.contains_key((src, f)));
                assert(frames@.take(k + 1 as int) =~= frames@.take(k as int).push(f));
                assert(cels@ =~= Map::new(
                    |key: CelKey|
                        c0.contains_key(key) || (key.0 == new_id && frames@.take(
                            k + 1 as int,
                        ).contains(key.1) && c0.contains_key((src, key.1))),
                    |key: CelKey|
                        if key.0 == new_id && frames@.take(k + 1 as int).contains(key.1)
                            && c0.contains_key((src, key.1)) {
                            CelModel { layer: new_id, ..c0[(src, key.1)] }
                        } else {
                            c0[key]
                        },
                ));
            }
            k = k + 1;
        }
        proof {
            assert(frames@.take(nf as int) =~= frames@);
            assert(cels@ =~= with_copies(c0, src, new_id));
            assert forall|key: CelKey| #[trigger] cels@.contains_key(key) implies cel_wf(cels@[key]) by {
                if key.0 == new_id && c0.contains_key((src, key.1)) {
                    assert(cel_wf(c0[(src, key.1)]));
                } else {
                    assert(cel_wf(c0[key]));
                }
            }
        }
        self.new_id = Some(new_id);
        let ghost fs = frames@;
        self.inserted = Some((index + 1, frames));
        proof {
            let fl = doc@.layers;
            assert(fl[index + 1].id == new_id);
            assert(fl.remove(index + 1) =~= d0.layers);
            if forall|key: CelKey| #[trigger] c0.contains_key(key) ==> key.0 != new_id {
                assert(without_frames(cels@, new_id, fs) =~= c0);
            }
        }
        assert(doc@.tilesets == old(doc)@.tilesets);
        Ok(())
    }

    fn revert(&mut self, doc: &mut Sprite, cels: &mut CelMap)
        ensures
            forall|d: SpriteModel, c: CelsModel| #[trigger] final(self).reverted(d, c) == (d, c),
    {
        let (index, frames) = match self.inserted.take() {
            Some(p) => p,
            None => {
                return ;
            },
        };
        let new_id = match self.new_id {
            Some(id) => id,
            None => {
                return ;
            },
        };
        let ghost l0 = doc.layers@;
        if index < doc.layers.len() && doc.layers[index].id == new_id {
            let _ = doc.layers.remove(index);
            proof {
                assert(doc.layers@.map_values(|l: Layer| l@) =~= l0.map_values(|l: Layer| l@).remove(
                    index as int,
                ));
            }
        } else {
            let mut kept: Vec<Layer> = Vec::new();
            let n = doc.layers.len();
            let mut i: usize = 0;
            let mut layers: Vec<Layer> = Vec::new();
            std::mem::swap(&mut layers, &mut doc.layers);
            while i < n
                invariant
                    n == layers@.len(),
                    layers@ == l0,
                    i <= n,
                    kept@.map_values(|l: Layer| l@) == without_id(
                        l0.map_values(|l: Layer| l@).take(i as int),
                        new_id,
                    ),
                decreases n - i,
            {
                let l = layers[i].clone();
                proof {
                    assert(l0.map_values(|l: Layer| l@).take(i + 1 as int).drop_last()
                        =~= l0.map_values(|l: Layer| l@).take(i as int));
                }
                let ghost k0 = kept@;
                if l.id != new_id {
                    kept.push(l);
                    proof {
                        assert(kept@.map_values(|l: Layer| l@) =~= k0.map_values(|l: Layer| l@).push(
                            l@,
                        ));
                    }
                }
                i = i + 1;
            }
            proof {
                assert(l0.map_values(|l: Layer| l@).take(n as int) =~= l0.map_values(|l: Layer| l@));
            }
            doc.layers = kept;
        }
        let nf = frames.len();
        let ghost c0 = cels@;
        let mut k: usize = 0;
        while k < nf
            invariant
                nf == frames@.len(),
                k <= nf,
                cels.wf(),
                cels_wf(c0),
                cels@ == without_frames(c0, new_id, frames@.take(k as int)),
            decreases nf - k,
        {
            let _ = cels.remove(new_id, frames[k]);
            proof {
                broadcast use vstd::seq_lib::lemma_seq_contains_after_push;

                assert(frames@.take(k + 1 as int) =~= frames@.take(k as int).push(frames@[k as int]));
                assert(cels@ =~= without_frames(c0, new_id, frames@.take(k + 1 as int)));
            }
            k = k + 1;
        }
        proof {
            assert(frames@.take(nf as int) =~= frames@);
            assert forall|key: CelKey| #[trigger] cels@.contains_key(key) implies cel_wf(cels@[key]) by {
                assert(cel_wf(c0[key]));
            }
        }
        assert(doc@.tilesets == old(doc)@.tilesets);
    }
}

} // verus!
