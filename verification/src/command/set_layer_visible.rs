//! `SetLayerVisible` command — show or hide a layer.
//!
//! Visibility changes what the composite shows, so the change is
//! `Canvas`-level.
use vstd::prelude::*;

use super::dirty::DirtyRegion;
use super::error::CommandError;
use super::{CelsModel, Command};
use crate::document::layer::LayerModel;
use crate::document::sprite::{
    first_layer_at, layer_pos, lemma_layer_pos, lemma_layer_pos_update, no_layer, with_layer,
    SpriteModel,
};
use crate::document::{CelMap, LayerId, Sprite};

verus! {

/// Set the named layer's `visible` flag.
#[derive(Debug, Clone)]
pub struct SetLayerVisible {
    pub layer: LayerId,
    pub visible: bool,
    /// Prior value, captured on `apply` for `revert`.
    pub prev: Option<bool>,
}

/// The layer with `id` in `doc`, its visible set to `visible`.
pub open spec fn layer_with_visible(doc: SpriteModel, id: LayerId, visible: bool) -> LayerModel {
    LayerModel { visible: visible, ..doc.layers[layer_pos(doc.layers, id)] }
}

impl SetLayerVisible {
    pub fn new(layer: LayerId, visible: bool) -> (c: Self)
        ensures
            c.layer == layer,
            c.visible == visible,
            c.prev is None,
    {
        SetLayerVisible { layer, visible: visible, prev: None }
    }
}

impl Command for SetLayerVisible {
    fn fits_doc(&self, doc: &Sprite) -> (b: bool) {
        true
    }

    open spec fn ready(&self) -> bool {
        self.prev is None
    }

    fn is_ready(&self) -> (b: bool) {
        self.prev.is_none()
    }

    open spec fn applied_on(&self, doc: SpriteModel, cels: CelsModel) -> bool {
        self.prev is Some && !no_layer(doc.layers, self.layer)
    }

    open spec fn reverted(&self, doc: SpriteModel, cels: CelsModel) -> (SpriteModel, CelsModel) {
        match self.prev {
            Some(p) => if !no_layer(doc.layers, self.layer) {
                (with_layer(doc, self.layer, layer_with_visible(doc, self.layer, p)), cels)
            } else {
                (doc, cels)
            },
            None => (doc, cels),
        }
    }

    open spec fn fails_with(&self, doc: SpriteModel, cels: CelsModel, e: CommandError) -> bool {
        e == CommandError::UnknownLayer(self.layer.0)
    }

    open spec fn outcome(&self, doc: SpriteModel, cels: CelsModel) -> (SpriteModel, CelsModel) {
        (with_layer(doc, self.layer, layer_with_visible(doc, self.layer, self.visible)), cels)
    }

    open spec fn reverts_to(&self, back: Self, doc: SpriteModel, cels: CelsModel) -> bool {
        back.layer == self.layer && back.visible == self.visible && back.prev is None
    }

    open spec fn succeeds_on(&self, doc: SpriteModel, cels: CelsModel) -> bool {
        !no_layer(doc.layers, self.layer)
    }

    fn apply(&mut self, doc: &mut Sprite, _cels: &mut CelMap) -> (r: Result<(), CommandError>)
        ensures
            r is Err ==> *final(self) == *old(self),
            final(self).layer == old(self).layer,
            final(self).visible == old(self).visible,
            match r {
                Ok(_) => !no_layer(old(doc)@.layers, old(self).layer) && final(doc)@ == with_layer(
                    old(doc)@,
                    old(self).layer,
                    layer_with_visible(old(doc)@, old(self).layer, old(self).visible),
                ),
                Err(e) => no_layer(old(doc)@.layers, old(self).layer) && e
                    == CommandError::UnknownLayer(old(self).layer.0),
            },
    {
        let id = self.layer;
        let visible = self.visible;
        let ghost d0 = doc@;
        match doc.layer_mut(id) {
            Some(layer) => {
                self.prev = Some(layer.visible);
                layer.visible = visible;
            },
            None => {
                return Err(CommandError::UnknownLayer(id.0));
            },
        }
        proof {
            let i = choose|i: int| #![trigger d0.layers[i]]
                first_layer_at(d0.layers, id, i) && doc@ == (SpriteModel {
                    layers: d0.layers.update(i, LayerModel { visible: visible, ..d0.layers[i] }),
                    ..d0
                });
            lemma_layer_pos(d0.layers, id, i);
            lemma_layer_pos_update(d0.layers, id, i, LayerModel { visible: visible, ..d0.layers[i] });
            assert(doc@.layers.update(i, d0.layers[i]) =~= d0.layers);
            assert(doc@ == with_layer(d0, id, layer_with_visible(d0, id, visible)));
        }
        Ok(())
    }

    fn revert(&mut self, doc: &mut Sprite, _cels: &mut CelMap)
        ensures
            forall|d: SpriteModel, c: CelsModel| #[trigger] final(self).reverted(d, c) == (d, c),
    {
        let prev = match self.prev.take() {
            Some(p) => p,
            None => return ,
        };
        let ghost d0 = doc@;
        match doc.layer_mut(self.layer) {
            Some(layer) => {
                layer.visible = prev;
            },
            None => {
                return ;
            },
        }
        proof {
            let i = choose|i: int| #![trigger d0.layers[i]]
                first_layer_at(d0.layers, self.layer, i) && doc@ == (SpriteModel {
                    layers: d0.layers.update(i, LayerModel { visible: prev, ..d0.layers[i] }),
                    ..d0
                });
            lemma_layer_pos(d0.layers, self.layer, i);
        }
    }

    fn dirty_region(&self) -> (d: DirtyRegion)
        ensures
            d == DirtyRegion::Canvas,
    {
        DirtyRegion::Canvas
    }
}

} // verus!
