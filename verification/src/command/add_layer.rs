//! `AddLayer` command — insert a layer into the sprite's layer stack.
use vstd::prelude::*;

use super::error::CommandError;
use super::{CelsModel, Command};
use crate::document::sprite::{no_layer, SpriteModel};
use crate::document::{CelMap, Layer, Sprite};

verus! {

/// Insert a layer at a chosen z-order position. `None` means "on top".
#[derive(Debug, Clone)]
pub struct AddLayer {
    pub layer: Option<Layer>,
    pub insert_at: Option<usize>,
    /// `Some(index)` after a successful `apply`; consumed on `revert`.
    pub inserted_index: Option<usize>,
}

/// Where the layer lands for a stack of `len` layers: the requested index,
/// clamped to the top.
pub open spec fn insert_target(insert_at: Option<usize>, len: nat) -> int {
    match insert_at {
        Some(i) => if i <= len {
            i as int
        } else {
            len as int
        },
        None => len as int,
    }
}

impl AddLayer {
    /// Add `layer` on top of the existing stack.
    pub fn on_top(layer: Layer) -> (c: Self)
        ensures
            c.layer == Some(layer),
            c.insert_at is None,
            c.inserted_index is None,
    {
        AddLayer { layer: Some(layer), insert_at: None, inserted_index: None }
    }

    /// Add `layer` at the given z-order index (`0` is the bottom).
    pub fn at(layer: Layer, index: usize) -> (c: Self)
        ensures
            c.layer == Some(layer),
            c.insert_at == Some(index),
            c.inserted_index is None,
    {
        AddLayer { layer: Some(layer), insert_at: Some(index), inserted_index: None }
    }
}

impl Command for AddLayer {
    fn fits_doc(&self, doc: &Sprite) -> (b: bool) {
        true
    }

    open spec fn ready(&self) -> bool {
        self.layer is Some
    }

    fn is_ready(&self) -> (b: bool) {
        self.layer.is_some()
    }

    open spec fn applied_on(&self, doc: SpriteModel, cels: CelsModel) -> bool {
        self.inserted_index matches Some(i) && i < doc.layers.len()
    }

    open spec fn reverted(&self, doc: SpriteModel, cels: CelsModel) -> (SpriteModel, CelsModel) {
        match self.inserted_index {
            Some(i) => if i < doc.layers.len() {
                (SpriteModel { layers: doc.layers.remove(i as int), ..doc }, cels)
            } else {
                (doc, cels)
            },
            None => (doc, cels),
        }
    }

    open spec fn fails_with(&self, doc: SpriteModel, cels: CelsModel, e: CommandError) -> bool {
        e == CommandError::DuplicateLayerId(self.layer.unwrap().id.0)
    }

    open spec fn outcome(&self, doc: SpriteModel, cels: CelsModel) -> (SpriteModel, CelsModel) {
        (
            SpriteModel {
                layers: doc.layers.insert(
                    insert_target(self.insert_at, doc.layers.len()),
                    self.layer.unwrap()@,
                ),
                ..doc
            },
            cels,
        )
    }

    open spec fn reverts_to(&self, back: Self, doc: SpriteModel, cels: CelsModel) -> bool {
        back.insert_at == self.insert_at && match self.inserted_index {
            Some(i) => if i < doc.layers.len() {
                back.layer matches Some(l) && l@ == doc.layers[i as int]
            } else {
                back.layer == self.layer
            },
            None => back.layer == self.layer,
        }
    }

    open spec fn succeeds_on(&self, doc: SpriteModel, cels: CelsModel) -> bool {
        no_layer(doc.layers, self.layer.unwrap().id)
    }

    fn apply(&mut self, doc: &mut Sprite, _cels: &mut CelMap) -> (r: Result<(), CommandError>)
        ensures
            r is Err ==> *final(self) == *old(self),
            ({
                let l = old(self).layer.unwrap();
                match r {
                    Ok(_) => no_layer(old(doc)@.layers, l.id) && final(doc)@ == (SpriteModel {
                        layers: old(doc)@.layers.insert(
                            insert_target(old(self).insert_at, old(doc)@.layers.len()),
                            l@,
                        ),
                        ..old(doc)@
                    }),
                    Err(e) => !no_layer(old(doc)@.layers, l.id) && e == CommandError::DuplicateLayerId(
                        l.id.0,
                    ),
                }
            }),
    {
        let id = match &self.layer {
            Some(l) => l.id,
            None => {
                return Err(CommandError::EmptyRegion);
            },
        };
        if doc.layer_index(id).is_some() {
            return Err(CommandError::DuplicateLayerId(id.0));
        }
        let len = doc.layers.len();
        let target = match self.insert_at {
            Some(i) => if i <= len {
                i
            } else {
                len
            },
            None => len,
        };
        let layer = self.layer.take().unwrap();
        let ghost lm = layer@;
        let ghost old_layers = doc.layers@;
        doc.layers.insert(target, layer);
        self.inserted_index = Some(target);
        proof {
            assert(doc.layers@.map_values(|l: Layer| l@) =~= old_layers.map_values(|l: Layer| l@).insert(
                target as int,
                lm,
            ));
            assert(doc@.layers.remove(target as int) =~= old_layers.map_values(|l: Layer| l@));
        }
        Ok(())
    }

    fn revert(&mut self, doc: &mut Sprite, _cels: &mut CelMap)
        ensures
            forall|d: SpriteModel, c: CelsModel| #[trigger] final(self).reverted(d, c) == (d, c),
    {
        let index = match self.inserted_index.take() {
            Some(i) => i,
            None => return ,
        };
        if index < doc.layers.len() {
            let ghost old_layers = doc.layers@;
            let layer = doc.layers.remove(index);
            proof {
                assert(doc.layers@.map_values(|l: Layer| l@) =~= old_layers.map_values(
                    |l: Layer| l@,
                ).remove(index as int));
            }
            self.layer = Some(layer);
        }
        assert(doc@.tilesets == old(doc)@.tilesets);
    }
}

} // verus!
