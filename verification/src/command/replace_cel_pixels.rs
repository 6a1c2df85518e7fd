//! `ReplaceCelPixels` command — swap a whole image cel's pixel bytes for a
//! replacement buffer produced elsewhere (filters, effects, paste).
//!
//! The replacement must match the cel buffer's byte length exactly. Apply
//! swaps the buffers, so the command then holds the prior pixels; revert
//! swaps them back.
use vstd::prelude::*;

use super::dirty::DirtyRegion;
use super::error::CommandError;
use super::pixels::{image_buf, image_error, image_mut, image_target, with_image_data};
use super::{cel_wf, CelsModel, Command};
use crate::document::cel::{CelDataModel, CelModel, PixelBufferModel};
use crate::document::sprite::SpriteModel;
use crate::document::{CelData, CelMap, FrameIndex, LayerId, Sprite};
use crate::geometry::{rect_intersection, Rect};

verus! {

/// Replace the pixel bytes of the image cel at `(layer, frame)`.
#[derive(Debug, Clone, PartialEq, Eq)]
pub struct ReplaceCelPixels {
    pub layer: LayerId,
    pub frame: FrameIndex,
    /// Before `apply`: the incoming pixels. After `apply`: the prior
    /// pixels (swapped). `revert` swaps back.
    pub pixels: Vec<u8>,
    /// Sprite-space rect the host knows to be the changed area, if
    /// narrower than the whole cel. `None` reports the full cel rect.
    pub dirty_hint: Option<Rect>,
    /// Cel rect captured on the last successful `apply`, for
    /// [`Command::dirty_region`].
    pub cel_rect: Option<Rect>,
    pub applied: bool,
}

impl ReplaceCelPixels {
    /// New command carrying the replacement `pixels` (RGBA8, row-major,
    /// must match the cel buffer's byte length exactly).
    pub fn new(layer: LayerId, frame: FrameIndex, pixels: Vec<u8>) -> (c: Self)
        ensures
            c == (ReplaceCelPixels {
                layer,
                frame,
                pixels,
                dirty_hint: None,
                cel_rect: None,
                applied: false,
            }),
    {
        ReplaceCelPixels { layer, frame, pixels, dirty_hint: None, cel_rect: None, applied: false }
    }

    /// Narrow the reported dirty region to `rect` (sprite space). The
    /// pixels are still replaced wholesale; only the repaint hint shrinks.
    pub fn with_dirty_hint(self, rect: Rect) -> (c: Self)
        ensures
            c == (ReplaceCelPixels { dirty_hint: Some(rect), ..self }),
    {
        let mut c = self;
        c.dirty_hint = Some(rect);
        c
    }
}

/// The cel holds an image whose byte count is `len`.
pub open spec fn image_of_len(cels: CelsModel, key: (LayerId, FrameIndex), len: nat) -> bool {
    &&& cels.contains_key(key)
    &&& cels[key].data is Image
    &&& image_buf(cels[key]).data.len() == len
}

impl Command for ReplaceCelPixels {
    fn fits_doc(&self, doc: &Sprite) -> (b: bool) {
        true
    }

    open spec fn ready(&self) -> bool {
        true
    }

    fn is_ready(&self) -> (b: bool) {
        true
    }

    open spec fn applied_on(&self, doc: SpriteModel, cels: CelsModel) -> bool {
        self.applied
    }

    open spec fn reverted(&self, doc: SpriteModel, cels: CelsModel) -> (SpriteModel, CelsModel) {
        let key = (self.layer, self.frame);
        if self.applied && image_of_len(cels, key, self.pixels@.len()) {
            (doc, with_image_data(cels, key, self.pixels@))
        } else {
            (doc, cels)
        }
    }

    open spec fn fails_with(&self, doc: SpriteModel, cels: CelsModel, e: CommandError) -> bool {
        match image_error(cels, self.layer, self.frame) {
            Some(e0) => e == e0,
            None => e == (CommandError::BufferLengthMismatch {
                expected: image_buf(cels[(self.layer, self.frame)]).data.len() as usize,
                got: self.pixels@.len() as usize,
            }),
        }
    }

    open spec fn outcome(&self, doc: SpriteModel, cels: CelsModel) -> (SpriteModel, CelsModel) {
        (doc, with_image_data(cels, (self.layer, self.frame), self.pixels@))
    }

    open spec fn reverts_to(&self, back: Self, doc: SpriteModel, cels: CelsModel) -> bool {
        back.layer == self.layer && back.frame == self.frame && if self.applied && image_of_len(
            cels,
            (self.layer, self.frame),
            self.pixels@.len(),
        ) {
            back.pixels@ == image_buf(cels[(self.layer, self.frame)]).data
        } else {
            back.pixels@ == self.pixels@
        }
    }

    open spec fn succeeds_on(&self, doc: SpriteModel, cels: CelsModel) -> bool {
        &&& image_error(cels, self.layer, self.frame) is None
        &&& image_buf(cels[(self.layer, self.frame)]).data.len() == self.pixels@.len()
    }

    fn apply(&mut self, doc: &mut Sprite, cels: &mut CelMap) -> (r: Result<(), CommandError>)
        ensures
            final(doc)@ == old(doc)@,
            final(self).layer == old(self).layer,
            final(self).frame == old(self).frame,
            final(self).dirty_hint == old(self).dirty_hint,
            r is Err ==> *final(self) == *old(self),
            ({
                let key = (old(self).layer, old(self).frame);
                let c0 = old(cels)@[key];
                let b = image_buf(c0);
                match image_error(old(cels)@, old(self).layer, old(self).frame) {
                    Some(e) => r == Err::<(), CommandError>(e),
                    None => if b.data.len() != old(self).pixels@.len() {
                        r == Err::<(), CommandError>(
                            CommandError::BufferLengthMismatch {
                                expected: b.data.len() as usize,
                                got: old(self).pixels@.len() as usize,
                            },
                        )
                    } else {
                        &&& r is Ok
                        &&& final(cels)@ == with_image_data(old(cels)@, key, old(self).pixels@)
                        &&& final(self).pixels@ == b.data
                        &&& final(self).applied
                        &&& final(self).cel_rect == Some(
                            Rect { x: c0.position.0, y: c0.position.1, width: b.width, height: b.height },
                        )
                    },
                }
            }),
    {
        let layer = self.layer;
        let frame = self.frame;
        let ghost c0 = cels@;
        let ghost key = (layer, frame);
        let cel = image_target(cels, layer, frame)?;
        let cel_pos = cel.position;
        let buffer = image_mut(cel);
        if buffer.data.len() != self.pixels.len() {
            return Err(
                CommandError::BufferLengthMismatch {
                    expected: buffer.data.len(),
                    got: self.pixels.len(),
                },
            );
        }
        std::mem::swap(&mut buffer.data, &mut self.pixels);
        self.cel_rect = Some(Rect::new(cel_pos.0, cel_pos.1, buffer.width, buffer.height));
        self.applied = true;
        proof {
            assert(cel_wf(cels@[key]));
            assert(with_image_data(cels@, key, self.pixels@) =~= c0);
        }
        Ok(())
    }

    fn revert(&mut self, _doc: &mut Sprite, cels: &mut CelMap) {
        if !self.applied {
            return ;
        }
        let ghost c0 = cels@;
        let ghost key = (self.layer, self.frame);
        let cel = match cels.get_mut(self.layer, self.frame) {
            Some(c) => c,
            None => {
                return ;
            },
        };
        proof {
            assert(cel_wf(c0[key]));
        }
        match &mut cel.data {
            CelData::Image(buffer) => {
                if buffer.data.len() == self.pixels.len() {
                    std::mem::swap(&mut buffer.data, &mut self.pixels);
                }
            },
            _ => {},
        }
        self.applied = false;
        proof {
            if image_of_len(c0, key, old(self).pixels@.len()) {
                assert(cel_wf(cels@[key]));
            }
            assert forall|k: (LayerId, FrameIndex)| #[trigger] cels@.contains_key(k) implies cel_wf(
                cels@[k],
            ) by {
                if k != key {
                    assert(cel_wf(c0[k]));
                }
            }
            if !image_of_len(c0, key, old(self).pixels@.len()) {
                assert(cels@ =~= c0);
            }
        }
    }

    open spec fn dirty(&self) -> DirtyRegion {
        match (self.dirty_hint, self.cel_rect) {
            (Some(hint), Some(cel)) => DirtyRegion::Layer {
                layer: self.layer,
                frame: self.frame,
                rect: rect_intersection(hint, cel),
            },
            (None, Some(cel)) => DirtyRegion::Layer { layer: self.layer, frame: self.frame, rect: cel },
            (_, None) => DirtyRegion::NoChange,
        }
    }

    fn dirty_region(&self) -> (d: DirtyRegion)
        ensures
            d == self.dirty(),
    {
        match (self.dirty_hint, self.cel_rect) {
            (Some(hint), Some(cel)) => DirtyRegion::layer_rect(self.layer, self.frame, hint.intersect(cel)),
            (None, Some(cel)) => DirtyRegion::layer_rect(self.layer, self.frame, cel),
            (_, None) => DirtyRegion::NoChange,
        }
    }
}

} // verus!
