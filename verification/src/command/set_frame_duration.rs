//! `SetFrameDuration` command — change a frame's display duration.
//!
//! Duration is playback metadata: it drives the timeline's per-frame timing
//! and round-trips through the Aseprite frame header. It contributes nothing
//! to the composite, so the command reports [`DirtyRegion::NoChange`] and the
//! UI repaints the timeline only.
//!
//! Consecutive edits to the same frame merge into one undo entry — a
//! duration spinner or drag emits a command per tick, and undo should step
//! back to the value before the interaction, not through every tick.
use vstd::prelude::*;

use super::dirty::DirtyRegion;
use super::error::CommandError;
use super::{CelsModel, Command};
use crate::document::sprite::SpriteModel;
use crate::document::{CelMap, Frame, FrameIndex, Sprite};

verus! {

/// Set `frame`'s `duration_ms`.
#[derive(Debug, Clone)]
pub struct SetFrameDuration {
    pub frame: FrameIndex,
    pub duration_ms: u16,
    /// Prior `duration_ms`, captured on `apply` for `revert`.
    pub prev: Option<u16>,
}

/// `doc` with frame `i`'s duration set to `duration_ms`.
pub open spec fn with_duration(doc: SpriteModel, i: int, duration_ms: u16) -> SpriteModel {
    SpriteModel { frames: doc.frames.update(i, Frame { duration_ms }), ..doc }
}

impl SetFrameDuration {
    pub fn new(frame: FrameIndex, duration_ms: u16) -> (c: Self)
        ensures
            c.frame == frame,
            c.duration_ms == duration_ms,
            c.prev is None,
    {
        SetFrameDuration { frame, duration_ms, prev: None }
    }
}

impl Command for SetFrameDuration {
    fn fits_doc(&self, doc: &Sprite) -> (b: bool) {
        true
    }

    open spec fn ready(&self) -> bool {
        true
    }

    fn is_ready(&self) -> (b: bool) {
        true
    }

    open spec fn applied_on(&self, doc: SpriteModel, cels: CelsModel) -> bool {
        self.prev is Some && self.frame.0 < doc.frames.len()
    }

    open spec fn reverted(&self, doc: SpriteModel, cels: CelsModel) -> (SpriteModel, CelsModel) {
        match self.prev {
            Some(p) => if self.frame.0 < doc.frames.len() {
                (with_duration(doc, self.frame.0 as int, p), cels)
            } else {
                (doc, cels)
            },
            None => (doc, cels),
        }
    }

    open spec fn fails_with(&self, doc: SpriteModel, cels: CelsModel, e: CommandError) -> bool {
        e == CommandError::UnknownFrame(self.frame.0)
    }

    open spec fn outcome(&self, doc: SpriteModel, cels: CelsModel) -> (SpriteModel, CelsModel) {
        (with_duration(doc, self.frame.0 as int, self.duration_ms), cels)
    }

    open spec fn reverts_to(&self, back: Self, doc: SpriteModel, cels: CelsModel) -> bool {
        back.frame == self.frame && back.duration_ms == self.duration_ms
    }

    open spec fn succeeds_on(&self, doc: SpriteModel, cels: CelsModel) -> bool {
        self.frame.0 < doc.frames.len()
    }

    fn apply(&mut self, doc: &mut Sprite, _cels: &mut CelMap) -> (r: Result<(), CommandError>)
        ensures
            r is Err ==> *final(self) == *old(self),
            final(self).frame == old(self).frame,
            final(self).duration_ms == old(self).duration_ms,
            match r {
                Ok(_) => old(self).frame.0 < old(doc)@.frames.len() && final(doc)@ == with_duration(
                    old(doc)@,
                    old(self).frame.0 as int,
                    old(self).duration_ms,
                ),
                Err(e) => old(self).frame.0 >= old(doc)@.frames.len() && e
                    == CommandError::UnknownFrame(old(self).frame.0),
            },
    {
        let i = self.frame.0 as usize;
        if i >= doc.frames.len() {
            return Err(CommandError::UnknownFrame(self.frame.0));
        }
        let ghost d0 = doc@;
        self.prev = Some(doc.frames[i].duration_ms);
        doc.frames.set(i, Frame { duration_ms: self.duration_ms });
        proof {
            assert(doc@.frames.update(i as int, d0.frames[i as int]) =~= d0.frames);
        }
        Ok(())
    }

    fn revert(&mut self, doc: &mut Sprite, _cels: &mut CelMap)
        ensures
            forall|d: SpriteModel, c: CelsModel| #[trigger] final(self).reverted(d, c) == (d, c),
    {
        let prev = match self.prev.take() {
            Some(p) => p,
            None => return ,
        };
        let i = self.frame.0 as usize;
        if i < doc.frames.len() {
            doc.frames.set(i, Frame { duration_ms: prev });
        }
        assert(doc@.tilesets == old(doc)@.tilesets);
    }

    /// Absorb a follow-up edit to the same frame. `self.prev` is kept — it
    /// holds the value from before the first edit, which is what `revert`
    /// must restore.
    open spec fn merges_with(&self, next: &Self) -> bool {
        next.frame == self.frame
    }

    fn merge(&mut self, next: &Self) -> (r: bool)
        ensures
            r == old(self).merges_with(next),
            r ==> final(self).duration_ms == next.duration_ms && final(self).frame
                == old(self).frame && final(self).prev == old(self).prev,
    {
        if self.frame != next.frame {
            return false;
        }
        self.duration_ms = next.duration_ms;
        proof {
            assert forall|d1: SpriteModel, c1: CelsModel, d2: SpriteModel, c2: CelsModel|
                old(self).applied_on(d1, c1) && next.applied_on(d2, c2) && next.reverted(d2, c2)
                    == (d1, c1) implies {
                &&& self.applied_on(d2, c2)
                &&& self.reverted(d2, c2) == old(self).reverted(d1, c1)
            } by {
                let i = self.frame.0 as int;
                let op = old(self).prev.unwrap();
                assert(d1.frames.update(i, Frame { duration_ms: op }) =~= d2.frames.update(
                    i,
                    Frame { duration_ms: op },
                ));
            }
        }
        true
    }

    open spec fn dirty(&self) -> DirtyRegion {
        DirtyRegion::NoChange
    }

    fn dirty_region(&self) -> (d: DirtyRegion)
        ensures
            d == self.dirty(),
    {
        // Duration is playback metadata; the composited pixels don't change.
        DirtyRegion::NoChange
    }
}

} // verus!
