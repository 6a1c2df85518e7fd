//! `SetLayerName` command — rename a layer.
//!
//! Layer names are metadata (they appear in the layers panel and round-trip
//! through the file format) but don't affect composited pixels, so the
//! command reports [`DirtyRegion::NoChange`] — no repaint is needed.
use vstd::prelude::*;

use super::dirty::DirtyRegion;
use super::error::CommandError;
use super::{CelsModel, Command};
use crate::document::layer::LayerModel;
use crate::document::sprite::{
    first_layer_at, layer_pos, lemma_layer_pos, lemma_layer_pos_update, no_layer, with_layer,
    SpriteModel,
};
use crate::document::{CelMap, LayerId, Sprite};

verus! {

/// Rename the layer identified by [`LayerId`].
#[derive(Debug, Clone)]
pub struct SetLayerName {
    pub layer: LayerId,
    pub name: String,
    /// Prior value, captured on `apply` for `revert`.
    pub prev: Option<String>,
}

/// The layer with `id` in `doc`, its name set to `name`.
pub open spec fn layer_with_name(doc: SpriteModel, id: LayerId, name: Seq<char>) -> LayerModel {
    LayerModel { name, ..doc.layers[layer_pos(doc.layers, id)] }
}

impl SetLayerName {
    pub fn new(layer: LayerId, name: &str) -> (c: Self)
        ensures
            c.layer == layer,
            c.name@ == name@,
            c.prev is None,
    {
        SetLayerName { layer, name: name.to_owned(), prev: None }
    }
}

impl Command for SetLayerName {
    fn fits_doc(&self, doc: &Sprite) -> (b: bool) {
        true
    }

    open spec fn ready(&self) -> bool {
        self.prev is None
    }

    fn is_ready(&self) -> (b: bool) {
        self.prev.is_none()
    }

    open spec fn applied_on(&self, doc: SpriteModel, cels: CelsModel) -> bool {
        self.prev is Some && !no_layer(doc.layers, self.layer)
    }

    open spec fn reverted(&self, doc: SpriteModel, cels: CelsModel) -> (SpriteModel, CelsModel) {
        match self.prev {
            Some(p) => if !no_layer(doc.layers, self.layer) {
                (with_layer(doc, self.layer, layer_with_name(doc, self.layer, p@)), cels)
            } else {
                (doc, cels)
            },
            None => (doc, cels),
        }
    }

    open spec fn fails_with(&self, doc: SpriteModel, cels: CelsModel, e: CommandError) -> bool {
        e == CommandError::UnknownLayer(self.layer.0)
    }

    open spec fn outcome(&self, doc: SpriteModel, cels: CelsModel) -> (SpriteModel, CelsModel) {
        (with_layer(doc, self.layer, layer_with_name(doc, self.layer, self.name@)), cels)
    }

    open spec fn reverts_to(&self, back: Self, doc: SpriteModel, cels: CelsModel) -> bool {
        back.layer == self.layer && back.name@ == self.name@ && back.prev is None
    }

    open spec fn succeeds_on(&self, doc: SpriteModel, cels: CelsModel) -> bool {
        !no_layer(doc.layers, self.layer)
    }

    fn apply(&mut self, doc: &mut Sprite, _cels: &mut CelMap) -> (r: Result<(), CommandError>)
        ensures
            r is Err ==> *final(self) == *old(self),
            final(self).layer == old(self).layer,
            final(self).name == old(self).name,
            match r {
                Ok(_) => !no_layer(old(doc)@.layers, old(self).layer) && final(doc)@ == with_layer(
                    old(doc)@,
                    old(self).layer,
                    layer_with_name(old(doc)@, old(self).layer, old(self).name@),
                ),
                Err(e) => no_layer(old(doc)@.layers, old(self).layer) && e
                    == CommandError::UnknownLayer(old(self).layer.0),
            },
    {
        let id = self.layer;
        let mut name = self.name.clone();
        let ghost nm = name@;
        let ghost d0 = doc@;
        match doc.layer_mut(id) {
            Some(layer) => {
                // Swap the new name in and keep the old one for revert.
                std::mem::swap(&mut layer.name, &mut name);
                self.prev = Some(name);
            },
            None => {
                return Err(CommandError::UnknownLayer(id.0));
            },
        }
        proof {
            let i = choose|i: int| #![trigger d0.layers[i]]
                first_layer_at(d0.layers, id, i) && doc@ == (SpriteModel {
                    layers: d0.layers.update(i, LayerModel { name: nm, ..d0.layers[i] }),
                    ..d0
                });
            lemma_layer_pos(d0.layers, id, i);
            lemma_layer_pos_update(d0.layers, id, i, LayerModel { name: nm, ..d0.layers[i] });
            assert(doc@.layers.update(i, d0.layers[i]) =~= d0.layers);
        }
        Ok(())
    }

    fn revert(&mut self, doc: &mut Sprite, _cels: &mut CelMap)
        ensures
            forall|d: SpriteModel, c: CelsModel| #[trigger] final(self).reverted(d, c) == (d, c),
    {
        let prev = match self.prev.take() {
            Some(p) => p,
            None => return ,
        };
        let ghost pm = prev@;
        let ghost d0 = doc@;
        match doc.layer_mut(self.layer) {
            Some(layer) => {
                layer.name = prev;
            },
            None => {
                return ;
            },
        }
        proof {
            let i = choose|i: int| #![trigger d0.layers[i]]
                first_layer_at(d0.layers, self.layer, i) && doc@ == (SpriteModel {
                    layers: d0.layers.update(i, LayerModel { name: pm, ..d0.layers[i] }),
                    ..d0
                });
            lemma_layer_pos(d0.layers, self.layer, i);
        }
    }

    open spec fn dirty(&self) -> DirtyRegion {
        DirtyRegion::NoChange
    }

    fn dirty_region(&self) -> (d: DirtyRegion)
        ensures
            d == self.dirty(),
    {
        DirtyRegion::NoChange
    }
}

} // verus!
