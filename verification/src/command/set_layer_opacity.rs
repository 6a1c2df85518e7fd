//! `SetLayerOpacity` command — set a layer's opacity (0–255).
//!
//! Layer opacity is folded into every cel of the layer by compositing, so
//! the change is `Canvas`-level. Consecutive edits to the same layer merge
//! into one undo entry (an opacity slider emits one command per tick).
use vstd::prelude::*;

use super::dirty::DirtyRegion;
use super::error::CommandError;
use super::{CelsModel, Command};
use crate::document::layer::LayerModel;
use crate::document::sprite::{
    first_layer_at, layer_pos, lemma_first_layer_pos_exists, lemma_layer_pos, lemma_layer_pos_update, no_layer, with_layer,
    SpriteModel,
};
use crate::document::{CelMap, LayerId, Sprite};

verus! {

/// Set the named layer's `opacity`.
#[derive(Debug, Clone)]
pub struct SetLayerOpacity {
    pub layer: LayerId,
    pub opacity: u8,
    /// Prior value, captured on `apply` for `revert`.
    pub prev: Option<u8>,
}

/// The layer with `id` in `doc`, its opacity set to `opacity`.
pub open spec fn layer_with_opacity(doc: SpriteModel, id: LayerId, opacity: u8) -> LayerModel {
    LayerModel { opacity, ..doc.layers[layer_pos(doc.layers, id)] }
}

impl SetLayerOpacity {
    pub fn new(layer: LayerId, opacity: u8) -> (c: Self)
        ensures
            c.layer == layer,
            c.opacity == opacity,
            c.prev is None,
    {
        SetLayerOpacity { layer, opacity, prev: None }
    }
}

impl Command for SetLayerOpacity {
    fn fits_doc(&self, doc: &Sprite) -> (b: bool) {
        true
    }

    open spec fn ready(&self) -> bool {
        self.prev is None
    }

    fn is_ready(&self) -> (b: bool) {
        self.prev.is_none()
    }

    open spec fn applied_on(&self, doc: SpriteModel, cels: CelsModel) -> bool {
        self.prev is Some && !no_layer(doc.layers, self.layer)
    }

    open spec fn reverted(&self, doc: SpriteModel, cels: CelsModel) -> (SpriteModel, CelsModel) {
        match self.prev {
            Some(p) => if !no_layer(doc.layers, self.layer) {
                (with_layer(doc, self.layer, layer_with_opacity(doc, self.layer, p)), cels)
            } else {
                (doc, cels)
            },
            None => (doc, cels),
        }
    }

    open spec fn fails_with(&self, doc: SpriteModel, cels: CelsModel, e: CommandError) -> bool {
        e == CommandError::UnknownLayer(self.layer.0)
    }

    open spec fn outcome(&self, doc: SpriteModel, cels: CelsModel) -> (SpriteModel, CelsModel) {
        (with_layer(doc, self.layer, layer_with_opacity(doc, self.layer, self.opacity)), cels)
    }

    open spec fn reverts_to(&self, back: Self, doc: SpriteModel, cels: CelsModel) -> bool {
        back.layer == self.layer && back.opacity == self.opacity && back.prev is None
    }

    open spec fn succeeds_on(&self, doc: SpriteModel, cels: CelsModel) -> bool {
        !no_layer(doc.layers, self.layer)
    }

    fn apply(&mut self, doc: &mut Sprite, _cels: &mut CelMap) -> (r: Result<(), CommandError>)
        ensures
            r is Err ==> *final(self) == *old(self),
            final(self).layer == old(self).layer,
            final(self).opacity == old(self).opacity,
            match r {
                Ok(_) => !no_layer(old(doc)@.layers, old(self).layer) && final(doc)@ == with_layer(
                    old(doc)@,
                    old(self).layer,
                    layer_with_opacity(old(doc)@, old(self).layer, old(self).opacity),
                ),
                Err(e) => no_layer(old(doc)@.layers, old(self).layer) && e
                    == CommandError::UnknownLayer(old(self).layer.0),
            },
    {
        let id = self.layer;
        let opacity = self.opacity;
        let ghost d0 = doc@;
        match doc.layer_mut(id) {
            Some(layer) => {
                if self.prev.is_none() {
                    self.prev = Some(layer.opacity);
                }
                layer.opacity = opacity;
            },
            None => {
                return Err(CommandError::UnknownLayer(id.0));
            },
        }
        proof {
            let i = choose|i: int| #![trigger d0.layers[i]]
                first_layer_at(d0.layers, id, i) && doc@ == (SpriteModel {
                    layers: d0.layers.update(i, LayerModel { opacity, ..d0.layers[i] }),
                    ..d0
                });
            lemma_layer_pos(d0.layers, id, i);
            lemma_layer_pos_update(d0.layers, id, i, LayerModel { opacity, ..d0.layers[i] });
            assert(doc@.layers.update(i, d0.layers[i]) =~= d0.layers);
            assert(doc@ == with_layer(d0, id, layer_with_opacity(d0, id, opacity)));
        }
        Ok(())
    }

    fn revert(&mut self, doc: &mut Sprite, _cels: &mut CelMap)
        ensures
            forall|d: SpriteModel, c: CelsModel| #[trigger] final(self).reverted(d, c) == (d, c),
    {
        let prev = match self.prev.take() {
            Some(p) => p,
            None => return ,
        };
        let ghost d0 = doc@;
        match doc.layer_mut(self.layer) {
            Some(layer) => {
                layer.opacity = prev;
            },
            None => {
                return ;
            },
        }
        proof {
            let i = choose|i: int| #![trigger d0.layers[i]]
                first_layer_at(d0.layers, self.layer, i) && doc@ == (SpriteModel {
                    layers: d0.layers.update(i, LayerModel { opacity: prev, ..d0.layers[i] }),
                    ..d0
                });
            lemma_layer_pos(d0.layers, self.layer, i);
        }
    }

    /// Absorb a follow-up edit to the same layer; the prior value from the
    /// first edit is kept.
    open spec fn merges_with(&self, next: &Self) -> bool {
        next.layer == self.layer
    }

    fn merge(&mut self, next: &Self) -> (r: bool)
        ensures
            r == old(self).merges_with(next),
            r ==> final(self).opacity == next.opacity && final(self).layer == old(self).layer
                && final(self).prev == old(self).prev,
    {
        if next.layer != self.layer {
            return false;
        }
        self.opacity = next.opacity;
        proof {
            assert forall|d1: SpriteModel, c1: CelsModel, d2: SpriteModel, c2: CelsModel|
                old(self).applied_on(d1, c1) && next.applied_on(d2, c2) && next.reverted(d2, c2)
                    == (d1, c1) implies {
                &&& self.applied_on(d2, c2)
                &&& self.reverted(d2, c2) == old(self).reverted(d1, c1)
            } by {
                let id = self.layer;
                let i = layer_pos(d2.layers, id);
                let j = lemma_first_layer_pos_exists(d2.layers, id);
                lemma_layer_pos(d2.layers, id, j);
                let np = next.prev.unwrap();
                lemma_layer_pos_update(
                    d2.layers,
                    id,
                    i,
                    LayerModel { opacity: np, ..d2.layers[i] },
                );
                assert(d1.layers =~= d2.layers.update(i, LayerModel { opacity: np, ..d2.layers[i] }));
                let op = old(self).prev.unwrap();
                assert(d1.layers.update(i, LayerModel { opacity: op, ..d1.layers[i] })
                    =~= d2.layers.update(i, LayerModel { opacity: op, ..d2.layers[i] }));
            }
        }
        true
    }

    fn dirty_region(&self) -> (d: DirtyRegion)
        ensures
            d == DirtyRegion::Canvas,
    {
        DirtyRegion::Canvas
    }
}

} // verus!
