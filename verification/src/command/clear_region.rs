//! `ClearRegion` command — set every pixel of a rectangle on an image cel
//! to transparent.
//!
//! The rectangle is in sprite coordinates and is clipped to the cel. A
//! missing cel is a successful no-op (there is nothing to clear). Pixels
//! that are already transparent are skipped, so undoing a delete over
//! mostly-empty space stays cheap.
use vstd::prelude::*;

use super::dirty::DirtyRegion;
use super::error::CommandError;
use super::pixels::{lemma_painted_cels, painted_cels, 
    area_differs, image_error, image_mut, image_target, intersect_with_cel, lemma_painted_agree,
    lemma_row_differs_agree,
    lemma_painted_none, logged_reverted, paint_local_row, paint_outcome, painted, restore_log,
    revert_logged, with_image_data, PriorPixel,
};
use super::{cel_wf, CelsModel, Command};
use crate::document::cel::{pixel_at, rgba_wf, PixelBufferModel};
use crate::document::color::transparent_spec;
use crate::document::sprite::SpriteModel;
use crate::document::{CelMap, FrameIndex, LayerId, Rgba, Sprite};
use crate::geometry::{max_int, min_int, rect_has_point, rect_intersection, rect_is_empty, Rect};

verus! {

/// The number of pixels of cel buffer `b` at `position` that lie under
/// `rect` and are not transparent.
pub open spec fn opaque_under(rect: Rect, position: (i32, i32), b: PixelBufferModel) -> nat {
    let x0 = max_int(rect.x as int, position.0 as int) - position.0;
    let x1 = min_int(rect.x + rect.width, position.0 + b.width) - position.0;
    let y0 = max_int(rect.y as int, position.1 as int) - position.1;
    let y1 = min_int(rect.y + rect.height, position.1 + b.height) - position.1;
    if x0 < x1 && y0 < y1 {
        area_differs(b.data, b.width as int, x0, x1, y0, y1, transparent_spec())
    } else {
        0
    }
}

/// Clear a sprite-space rectangle on the cel at `(layer, frame)`.
#[derive(Debug, Clone, PartialEq, Eq)]
pub struct ClearRegion {
    pub layer: LayerId,
    pub frame: FrameIndex,
    pub rect: Rect,
    /// `Some` after a successful `apply`; the pixels that were cleared,
    /// for `revert`. Empty when the rect didn't overlap the cel.
    pub cleared: Option<Vec<PriorPixel>>,
    /// Sprite-space dirty bbox from the last apply, preserved across revert.
    pub dirty_bbox: Option<Rect>,
}

/// The sprite-space rectangle covered by a cel.
pub open spec fn cel_rect(position: (i32, i32), w: u32, h: u32) -> Rect {
    Rect { x: position.0, y: position.1, width: w, height: h }
}

impl ClearRegion {
    pub fn new(layer: LayerId, frame: FrameIndex, rect: Rect) -> (c: Self)
        ensures
            c == (ClearRegion { layer, frame, rect, cleared: None, dirty_bbox: None }),
    {
        ClearRegion { layer, frame, rect, cleared: None, dirty_bbox: None }
    }

    /// Number of pixels cleared by the most recent `apply` (0 before
    /// `apply` or after `revert`).
    pub fn cleared_count(&self) -> (n: usize)
        ensures
            n == match self.cleared {
                Some(c) => c@.len(),
                None => 0,
            },
    {
        match &self.cleared {
            Some(c) => c.len(),
            None => 0,
        }
    }
}

impl Command for ClearRegion {
    fn fits_doc(&self, doc: &Sprite) -> (b: bool) {
        true
    }

    open spec fn ready(&self) -> bool {
        true
    }

    fn is_ready(&self) -> (b: bool) {
        true
    }

    open spec fn applied_on(&self, doc: SpriteModel, cels: CelsModel) -> bool {
        self.cleared is Some
    }

    open spec fn reverted(&self, doc: SpriteModel, cels: CelsModel) -> (SpriteModel, CelsModel) {
        (doc, logged_reverted(cels, (self.layer, self.frame), self.cleared))
    }

    open spec fn fails_with(&self, doc: SpriteModel, cels: CelsModel, e: CommandError) -> bool {
        image_error(cels, self.layer, self.frame) == Some(e)
    }

    open spec fn outcome(&self, doc: SpriteModel, cels: CelsModel) -> (SpriteModel, CelsModel) {
        match image_error(cels, self.layer, self.frame) {
            None => (
                doc,
                painted_cels(
                    cels,
                    (self.layer, self.frame),
                    |x: int, y: int| rect_has_point(self.rect, x, y),
                    transparent_spec(),
                ),
            ),
            Some(_) => (doc, cels),
        }
    }

    open spec fn reverts_to(&self, back: Self, doc: SpriteModel, cels: CelsModel) -> bool {
        back.layer == self.layer && back.frame == self.frame && back.rect == self.rect
    }

    open spec fn succeeds_on(&self, doc: SpriteModel, cels: CelsModel) -> bool {
        match image_error(cels, self.layer, self.frame) {
            Some(CommandError::MissingCel { .. }) => true,
            Some(_) => false,
            None => true,
        }
    }

    fn apply(&mut self, doc: &mut Sprite, cels: &mut CelMap) -> (r: Result<(), CommandError>)
        ensures
            r is Err ==> *final(self) == *old(self),
            final(doc)@ == old(doc)@,
            final(self).layer == old(self).layer,
            final(self).frame == old(self).frame,
            final(self).rect == old(self).rect,
            ({
                let key = (old(self).layer, old(self).frame);
                match image_error(old(cels)@, old(self).layer, old(self).frame) {
                    Some(CommandError::MissingCel { .. }) => {
                        &&& r is Ok
                        &&& final(cels)@ == old(cels)@
                        &&& final(self).dirty_bbox is None
                        &&& final(self).cleared matches Some(c) && c@.len() == 0
                    },
                    Some(e) => r == Err::<(), CommandError>(e),
                    None => {
                        let c0 = old(cels)@[key];
                        let b = crate::command::pixels::image_buf(c0);
                        let i = rect_intersection(
                            old(self).rect,
                            cel_rect(c0.position, b.width, b.height),
                        );
                        &&& r is Ok
                        &&& final(self).cleared matches Some(v) && v@.len() == opaque_under(
                            old(self).rect,
                            c0.position,
                            b,
                        )
                        &&& paint_outcome(
                            old(cels)@,
                            final(cels)@,
                            key,
                            |x: int, y: int| rect_has_point(old(self).rect, x, y),
                            transparent_spec(),
                        )
                        &&& final(self).dirty_bbox == if rect_is_empty(i) {
                            None
                        } else {
                            Some(i)
                        }
                    },
                }
            }),
    {
        let layer = self.layer;
        let frame = self.frame;
        let rect = self.rect;
        let ghost c0 = cels@;
        let ghost key = (layer, frame);
        let cel = match image_target(cels, layer, frame) {
            Ok(c) => c,
            Err(CommandError::MissingCel { .. }) => {
                // Missing cel: nothing to clear.
                self.cleared = Some(Vec::new());
                self.dirty_bbox = None;
                return Ok(());
            },
            Err(e) => {
                return Err(e);
            },
        };
        let cel_pos = cel.position;
        let buffer = image_mut(cel);
        let ghost b0 = buffer@;
        let clear = Rgba::transparent();
        let mut cleared: Vec<PriorPixel> = Vec::new();
        proof {
            lemma_painted_none(b0, cel_pos, clear);
        }
        match intersect_with_cel(rect, cel_pos, buffer.width, buffer.height) {
            Some((sx, sy, sw, sh)) => {
                let mut ly = sy;
                let ghost target = |x: int, y: int| rect_has_point(rect, x, y);
                proof {
                    lemma_painted_agree(
                        b0,
                        b0.data,
                        cel_pos,
                        |x: int, y: int| false,
                        |x: int, y: int| target(x, y) && y < sy + cel_pos.1,
                        clear,
                    );
                }
                while ly < sy + sh
                    invariant
                        sy <= ly <= sy + sh,
                        sx + sw <= b0.width,
                        sy + sh <= b0.height,
                        sw > 0,
                        target == (|x: int, y: int| rect_has_point(rect, x, y)),
                        forall|px: int, py: int|
                            0 <= px < b0.width && 0 <= py < b0.height ==> (#[trigger] rect_has_point(
                                rect,
                                px + cel_pos.0,
                                py + cel_pos.1,
                            ) <==> (sx <= px < sx + sw && sy <= py < sy + sh)),
                        rgba_wf(b0),
                        buffer.width == b0.width,
                        buffer.height == b0.height,
                        buffer.color_mode == b0.color_mode,
                        painted(
                            b0,
                            buffer.data@,
                            cel_pos,
                            |x: int, y: int| target(x, y) && y < ly + cel_pos.1,
                            clear,
                        ),
                        restore_log(buffer.data@, b0.width, b0.height, cleared@) == b0.data,
                        cleared@.len() == area_differs(
                            b0.data,
                            b0.width as int,
                            sx as int,
                            sx + sw,
                            sy as int,
                            ly as int,
                            clear,
                        ),
                    decreases sy + sh - ly,
                {
                    proof {
                        let d = buffer.data@;
                        assert forall|x: int| sx <= x < sx + sw implies pixel_at(d, b0.width as int, x, ly as int)
                            == pixel_at(b0.data, b0.width as int, x, ly as int) by {
                            assert(pixel_at(d, b0.width as int, x, ly as int) == if target(
                                x + cel_pos.0,
                                ly + cel_pos.1,
                            ) && ly + cel_pos.1 < ly + cel_pos.1 {
                                clear
                            } else {
                                pixel_at(b0.data, b0.width as int, x, ly as int)
                            });
                        }
                        lemma_row_differs_agree(
                            d,
                            b0.data,
                            b0.width as int,
                            ly as int,
                            sx as int,
                            sx + sw,
                            clear,
                        );
                    }
                    paint_local_row(
                        buffer,
                        cel_pos,
                        sx,
                        sx + sw,
                        ly,
                        clear,
                        true,
                        &mut cleared,
                        Ghost(b0),
                        Ghost(|x: int, y: int| target(x, y) && y < ly + cel_pos.1),
                    );
                    proof {
                        assert forall|x: int, y: int|
                            crate::command::pixels::in_cel(
                                x,
                                y,
                                cel_pos,
                                b0.width,
                                b0.height,
                            ) implies #[trigger] target(x, y) == (sx <= x - cel_pos.0 < sx + sw
                            && sy <= y - cel_pos.1 < sy + sh) by {
                            assert(rect_has_point(
                                rect,
                                (x - cel_pos.0) + cel_pos.0,
                                (y - cel_pos.1) + cel_pos.1,
                            ) <==> (sx <= x - cel_pos.0 < sx + sw && sy <= y - cel_pos.1 < sy
                                + sh));
                        }
                        lemma_painted_agree(
                            b0,
                            buffer.data@,
                            cel_pos,
                            |px: int, py: int|
                                (target(px, py) && py < ly + cel_pos.1) || (py == ly + cel_pos.1
                                    && sx + cel_pos.0 <= px < sx + sw + cel_pos.0),
                            |x: int, y: int| target(x, y) && y < ly + 1 + cel_pos.1,
                            clear,
                        );
                    }
                    ly = ly + 1;
                }
                proof {
                    lemma_painted_agree(
                        b0,
                        buffer.data@,
                        cel_pos,
                        |x: int, y: int| target(x, y) && y < ly + cel_pos.1,
                        target,
                        clear,
                    );
                }
                // Dirty bbox in sprite coords = the cleared sub-rect shifted
                // back by the cel position.
                let bx = (cel_pos.0 as i64 + sx as i64) as i32;
                let by = (cel_pos.1 as i64 + sy as i64) as i32;
                self.dirty_bbox = Some(Rect::new(bx, by, sw, sh));
            },
            None => {
                proof {
                    lemma_painted_agree(
                        b0,
                        b0.data,
                        cel_pos,
                        |x: int, y: int| false,
                        |x: int, y: int| rect_has_point(rect, x, y),
                        clear,
                    );
                }
                self.dirty_bbox = None;
            },
        }
        let ghost nd = buffer.data@;
        self.cleared = Some(cleared);
        proof {
            assert(with_image_data(cels@, key, b0.data) =~= c0);
            assert(cel_wf(cels@[key]));
            assert(with_image_data(c0, key, nd) =~= cels@);
            lemma_painted_cels(
                c0,
                cels@,
                key,
                |x: int, y: int| rect_has_point(self.rect, x, y),
                transparent_spec(),
            );
        }
        Ok(())
    }

    fn revert(&mut self, _doc: &mut Sprite, cels: &mut CelMap)
        ensures
            *final(self) == (ClearRegion { cleared: None, ..*old(self) }),
            forall|d: SpriteModel, c: CelsModel| #[trigger] final(self).reverted(d, c) == (d, c),
    {
        let cleared = match self.cleared.take() {
            Some(p) => p,
            None => {
                return ;
            },
        };
        revert_logged(cels, self.layer, self.frame, &cleared);
    }

    open spec fn dirty(&self) -> DirtyRegion {
        match self.dirty_bbox {
            Some(rect) => DirtyRegion::Layer { layer: self.layer, frame: self.frame, rect },
            None => DirtyRegion::NoChange,
        }
    }

    fn dirty_region(&self) -> (d: DirtyRegion)
        ensures
            d == self.dirty(),
    {
        match self.dirty_bbox {
            Some(rect) => DirtyRegion::layer_rect(self.layer, self.frame, rect),
            None => DirtyRegion::NoChange,
        }
    }
}

} // verus!
