//! `AddFrame` command — append a frame to the sprite's frame list.
use vstd::prelude::*;

use super::error::CommandError;
use super::{doc_wf, CelsModel, Command};
use crate::document::sprite::SpriteModel;
use crate::document::{CelMap, Frame, Sprite};

verus! {

/// Append a frame to the sprite's playback sequence.
#[derive(Debug, Clone)]
pub struct AddFrame {
    /// The frame to append; moved into the sprite by `apply` and back by
    /// `revert`.
    pub frame: Option<Frame>,
    /// `Some(index)` after `apply`; the position the frame was appended to.
    pub inserted_index: Option<usize>,
}

impl AddFrame {
    /// Append `frame` to the end of the sprite's frame list.
    pub fn append(frame: Frame) -> (c: Self)
        ensures
            c.frame == Some(frame),
            c.inserted_index is None,
    {
        AddFrame { frame: Some(frame), inserted_index: None }
    }
}

impl Command for AddFrame {
    fn fits_doc(&self, doc: &Sprite) -> (b: bool) {
        true
    }

    open spec fn ready(&self) -> bool {
        self.frame is Some
    }

    fn is_ready(&self) -> (b: bool) {
        self.frame.is_some()
    }

    open spec fn applied_on(&self, doc: SpriteModel, cels: CelsModel) -> bool {
        self.inserted_index matches Some(i) && i < doc.frames.len()
    }

    open spec fn reverted(&self, doc: SpriteModel, cels: CelsModel) -> (SpriteModel, CelsModel) {
        match self.inserted_index {
            Some(i) => if i < doc.frames.len() {
                (SpriteModel { frames: doc.frames.remove(i as int), ..doc }, cels)
            } else {
                (doc, cels)
            },
            None => (doc, cels),
        }
    }

    open spec fn fails_with(&self, doc: SpriteModel, cels: CelsModel, e: CommandError) -> bool {
        false
    }

    open spec fn outcome(&self, doc: SpriteModel, cels: CelsModel) -> (SpriteModel, CelsModel) {
        (SpriteModel { frames: doc.frames.push(self.frame.unwrap()), ..doc }, cels)
    }

    open spec fn reverts_to(&self, back: Self, doc: SpriteModel, cels: CelsModel) -> bool {
        match self.inserted_index {
            Some(i) => if i < doc.frames.len() {
                back.frame == Some(doc.frames[i as int])
            } else {
                back.frame == self.frame
            },
            None => back.frame == self.frame,
        }
    }

    open spec fn succeeds_on(&self, doc: SpriteModel, cels: CelsModel) -> bool {
        true
    }

    fn apply(&mut self, doc: &mut Sprite, _cels: &mut CelMap) -> (r: Result<(), CommandError>)
        ensures
            r is Ok,
            final(doc)@ == (SpriteModel {
                frames: old(doc)@.frames.push(old(self).frame.unwrap()),
                ..old(doc)@
            }),
            final(self).inserted_index == Some(old(doc).frames@.len() as usize),
    {
        let frame = self.frame.take().unwrap();
        let index = doc.frames.len();
        doc.frames.push(frame);
        self.inserted_index = Some(index);
        proof {
            assert(doc@.frames.remove(index as int) =~= old(doc)@.frames);
        }
        Ok(())
    }

    fn revert(&mut self, doc: &mut Sprite, _cels: &mut CelMap)
        ensures
            forall|d: SpriteModel, c: CelsModel| #[trigger] final(self).reverted(d, c) == (d, c),
    {
        let index = match self.inserted_index.take() {
            Some(i) => i,
            None => return ,
        };
        if index >= doc.frames.len() {
            return ;
        }
        let frame = doc.frames.remove(index);
        self.frame = Some(frame);
        assert(doc@.tilesets == old(doc)@.tilesets);
    }
}

} // verus!
