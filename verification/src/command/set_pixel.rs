//! `SetPixel` command — write RGBA pixels into an image cel.
//!
//! Pixel coordinates are sprite-global; the command translates them into the
//! cel's local buffer space via the cel's `position`. Indexed and grayscale
//! cels are rejected (RGBA-first).
//!
//! A `SetPixel` starts as a single-pixel write but [`Command::merge`]s with
//! the next `SetPixel` on the same `(layer, frame)`, so one press-drag-
//! release pencil / eraser stroke coalesces into a single undo entry instead
//! of flooding the history cap with one entry per pixel. The bus applies a
//! command *before* offering it for merging, so absorbed writes always carry
//! their recorded prior values.
use vstd::prelude::*;

use super::dirty::{bbox_region, DirtyRegion};
use super::error::CommandError;
use super::pixels::{
    image_buf, image_error, image_mut, image_target, local_coords, local_of, with_image_data,
};
use super::{CelsModel, Command};
use crate::document::cel::{
    lemma_pixel_in_bounds, lemma_with_pixel_undo, pixel_at, rgba_wf, with_pixel,
};
use crate::document::sprite::SpriteModel;
use crate::document::{CelMap, FrameIndex, LayerId, PixelBuffer, Rgba, Sprite};

verus! {

/// One recorded pixel write within a [`SetPixel`] stroke.
#[derive(Debug, Clone, Copy, PartialEq, Eq)]
pub struct PixelWrite {
    pub sprite_x: i32,
    pub sprite_y: i32,
    pub new_color: Rgba,
    /// `Some` after a successful `apply`; carries the prior pixel value used
    /// by `revert`.
    pub previous: Option<Rgba>,
}

/// Painting reads only where each write lands and its color.
proof fn lemma_paint_writes_same(
    data: Seq<u8>,
    position: (i32, i32),
    width: u32,
    ws1: Seq<PixelWrite>,
    ws2: Seq<PixelWrite>,
)
    requires
        ws1.len() == ws2.len(),
        forall|j: int|
            0 <= j < ws1.len() ==> (#[trigger] ws1[j]).sprite_x == ws2[j].sprite_x && ws1[j].sprite_y
                == ws2[j].sprite_y && ws1[j].new_color == ws2[j].new_color,
    ensures
        paint_writes(data, position, width, ws1) == paint_writes(data, position, width, ws2),
    decreases ws1.len(),
{
    if ws1.len() > 0 {
        assert(ws1.last() == ws1[ws1.len() - 1]);
        lemma_paint_writes_same(data, position, width, ws1.drop_last(), ws2.drop_last());
    }
}

/// Writes that record no prior value undo nothing.
proof fn lemma_undo_unrecorded(data: Seq<u8>, position: (i32, i32), width: u32, height: u32, ws: Seq<PixelWrite>)
    requires
        forall|j: int| 0 <= j < ws.len() ==> (#[trigger] ws[j]).previous is None,
    ensures
        undo_writes(data, position, width, height, ws) == data,
    decreases ws.len(),
{
    if ws.len() > 0 {
        assert(ws.last().previous is None);
        lemma_undo_unrecorded(data, position, width, height, ws.drop_last());
    }
}

/// Write one or more pixels into an image cel (one entry per stroke).
#[derive(Debug, Clone, PartialEq, Eq)]
pub struct SetPixel {
    pub layer: LayerId,
    pub frame: FrameIndex,
    /// In application order. `new` seeds the first write.
    pub writes: Vec<PixelWrite>,
    /// Set once an apply has succeeded; until then the command reports no
    /// change.
    pub applied: bool,
}

/// The write lands inside a `width × height` cel at `position`.
pub open spec fn write_fits(w: PixelWrite, position: (i32, i32), width: u32, height: u32) -> bool {
    local_of(w.sprite_x, w.sprite_y, position) matches Some((lx, ly)) && lx < width && ly < height
}

/// The bytes after painting every write, in order.
pub open spec fn paint_writes(data: Seq<u8>, position: (i32, i32), width: u32, ws: Seq<PixelWrite>) -> Seq<
    u8,
>
    decreases ws.len(),
{
    if ws.len() == 0 {
        data
    } else {
        let w = ws.last();
        let l = local_of(w.sprite_x, w.sprite_y, position).unwrap();
        with_pixel(
            paint_writes(data, position, width, ws.drop_last()),
            width as int,
            l.0 as int,
            l.1 as int,
            w.new_color,
        )
    }
}

/// The bytes after undoing the writes last first: every write that carries
/// a previous value and lands inside the buffer gets it back.
pub open spec fn undo_writes(
    data: Seq<u8>,
    position: (i32, i32),
    width: u32,
    height: u32,
    ws: Seq<PixelWrite>,
) -> Seq<u8>
    decreases ws.len(),
{
    if ws.len() == 0 {
        data
    } else {
        let w = ws.last();
        let d1 = match w.previous {
            Some(p) => if write_fits(w, position, width, height) {
                let l = local_of(w.sprite_x, w.sprite_y, position).unwrap();
                with_pixel(data, width as int, l.0 as int, l.1 as int, p)
            } else {
                data
            },
            None => data,
        };
        undo_writes(d1, position, width, height, ws.drop_last())
    }
}

/// Undoing `a + b` undoes `b` first, then `a`.
pub proof fn lemma_undo_append(
    data: Seq<u8>,
    position: (i32, i32),
    width: u32,
    height: u32,
    a: Seq<PixelWrite>,
    b: Seq<PixelWrite>,
)
    ensures
        undo_writes(data, position, width, height, a + b) == undo_writes(
            undo_writes(data, position, width, height, b),
            position,
            width,
            height,
            a,
        ),
    decreases b.len(),
{
    if b.len() == 0 {
        assert(a + b =~= a);
    } else {
        let w = b.last();
        assert((a + b).last() == w);
        assert((a + b).drop_last() =~= a + b.drop_last());
        let d1 = match w.previous {
            Some(p) => if write_fits(w, position, width, height) {
                let l = local_of(w.sprite_x, w.sprite_y, position).unwrap();
                with_pixel(data, width as int, l.0 as int, l.1 as int, p)
            } else {
                data
            },
            None => data,
        };
        lemma_undo_append(d1, position, width, height, a, b.drop_last());
    }
}

/// Smallest and largest sprite coordinates of a non-empty list of writes.
pub open spec fn writes_bounds(ws: Seq<PixelWrite>) -> (i32, i32, i32, i32)
    decreases ws.len(),
{
    if ws.len() <= 1 {
        (ws[0].sprite_x, ws[0].sprite_y, ws[0].sprite_x, ws[0].sprite_y)
    } else {
        let b = writes_bounds(ws.drop_last());
        let w = ws.last();
        (
            if w.sprite_x < b.0 {
                w.sprite_x
            } else {
                b.0
            },
            if w.sprite_y < b.1 {
                w.sprite_y
            } else {
                b.1
            },
            if w.sprite_x > b.2 {
                w.sprite_x
            } else {
                b.2
            },
            if w.sprite_y > b.3 {
                w.sprite_y
            } else {
                b.3
            },
        )
    }
}

/// The bounds stay ordered: minimum at most maximum.
proof fn lemma_bounds_ordered(ws: Seq<PixelWrite>)
    requires
        ws.len() >= 1,
    ensures
        writes_bounds(ws).0 <= writes_bounds(ws).2,
        writes_bounds(ws).1 <= writes_bounds(ws).3,
    decreases ws.len(),
{
    if ws.len() > 1 {
        lemma_bounds_ordered(ws.drop_last());
    }
}

/// Undo the first `upto` writes, last first, consuming their previous
/// values.
fn undo_range(
    buffer: &mut PixelBuffer,
    position: (i32, i32),
    writes: &mut Vec<PixelWrite>,
    upto: usize,
)
    requires
        rgba_wf(old(buffer)@),
        upto <= old(writes)@.len(),
    ensures
        final(buffer).width == old(buffer).width,
        final(buffer).height == old(buffer).height,
        final(buffer).color_mode == old(buffer).color_mode,
        rgba_wf(final(buffer)@),
        final(buffer).data@ == undo_writes(
            old(buffer).data@,
            position,
            old(buffer).width,
            old(buffer).height,
            old(writes)@.take(upto as int),
        ),
        final(writes)@.len() == old(writes)@.len(),
        forall|j: int|
            0 <= j < old(writes)@.len() ==> #[trigger] final(writes)@[j] == if j < upto {
                PixelWrite { previous: None, ..old(writes)@[j] }
            } else {
                old(writes)@[j]
            },
{
    let ghost w0 = writes@;
    let ghost d0 = buffer.data@;
    let width = buffer.width;
    let height = buffer.height;
    let mut k = upto;
    while k > 0
        invariant
            k <= upto <= w0.len(),
            writes@.len() == w0.len(),
            buffer.width == width,
            buffer.height == height,
            width == old(buffer).width,
            height == old(buffer).height,
            buffer.color_mode == old(buffer).color_mode,
            rgba_wf(buffer@),
            undo_writes(d0, position, width, height, w0.take(upto as int)) == undo_writes(
                buffer.data@,
                position,
                width,
                height,
                w0.take(k as int),
            ),
            forall|j: int|
                0 <= j < w0.len() ==> #[trigger] writes@[j] == if k <= j < upto {
                    PixelWrite { previous: None, ..w0[j] }
                } else {
                    w0[j]
                },
        decreases k,
    {
        k = k - 1;
        let w = writes[k];
        assert(w == w0[k as int]);
        match w.previous {
            Some(p) => {
                match local_coords(w.sprite_x, w.sprite_y, position) {
                    Some((lx, ly)) => {
                        if lx < width && ly < height {
                            buffer.write_pixel(lx, ly, p);
                        }
                    },
                    None => {},
                }
            },
            None => {},
        }
        writes.set(k, PixelWrite { previous: None, ..w });
        proof {
            assert(w0.take(k + 1 as int).drop_last() =~= w0.take(k as int));
            assert(w0.take(k + 1 as int).last() == w);
        }
    }
}

/// Drop the previous values of every write.
fn forget_previous(writes: &mut Vec<PixelWrite>)
    ensures
        final(writes)@.len() == old(writes)@.len(),
        forall|j: int|
            0 <= j < old(writes)@.len() ==> #[trigger] final(writes)@[j] == (PixelWrite {
                previous: None,
                ..old(writes)@[j]
            }),
{
    let n = writes.len();
    let ghost w0 = writes@;
    let mut k: usize = 0;
    while k < n
        invariant
            n == w0.len(),
            writes@.len() == n,
            k <= n,
            forall|j: int|
                0 <= j < n ==> #[trigger] writes@[j] == if j < k {
                    PixelWrite { previous: None, ..w0[j] }
                } else {
                    w0[j]
                },
        decreases n - k,
    {
        let w = writes[k];
        writes.set(k, PixelWrite { previous: None, ..w });
        k = k + 1;
    }
}

impl SetPixel {
    /// Build a new `SetPixel` targeting `(sprite_x, sprite_y)` on the cel at
    /// `(layer, frame)`.
    pub fn new(layer: LayerId, frame: FrameIndex, sprite_x: i32, sprite_y: i32, color: Rgba) -> (c:
        Self)
        ensures
            c.layer == layer,
            c.frame == frame,
            c.writes@ == seq![PixelWrite { sprite_x, sprite_y, new_color: color, previous: None }],
            !c.applied,
    {
        let writes = vec![PixelWrite { sprite_x, sprite_y, new_color: color, previous: None }];
        SetPixel { layer, frame, writes, applied: false }
    }
}

impl Command for SetPixel {
    fn fits_doc(&self, doc: &Sprite) -> (b: bool) {
        true
    }

    open spec fn ready(&self) -> bool {
        true
    }

    fn is_ready(&self) -> (b: bool) {
        true
    }

    open spec fn applied_on(&self, doc: SpriteModel, cels: CelsModel) -> bool {
        image_error(cels, self.layer, self.frame) is None
    }

    open spec fn reverted(&self, doc: SpriteModel, cels: CelsModel) -> (SpriteModel, CelsModel) {
        if image_error(cels, self.layer, self.frame) is None {
            let c = cels[(self.layer, self.frame)];
            let b = image_buf(c);
            (
                doc,
                with_image_data(
                    cels,
                    (self.layer, self.frame),
                    undo_writes(b.data, c.position, b.width, b.height, self.writes@),
                ),
            )
        } else {
            (doc, cels)
        }
    }

    open spec fn fails_with(&self, doc: SpriteModel, cels: CelsModel, e: CommandError) -> bool {
        let c = cels[(self.layer, self.frame)];
        let b = image_buf(c);
        let ws = self.writes@;
        match image_error(cels, self.layer, self.frame) {
            Some(e0) => e == e0,
            None => exists|k: int|
                0 <= k < ws.len() && !write_fits(#[trigger] ws[k], c.position, b.width, b.height)
                    && (forall|j: int| 0 <= j < k ==> write_fits(#[trigger] ws[j], c.position, b.width, b.height))
                    && e == (CommandError::PixelOutOfBounds {
                    x: ws[k].sprite_x,
                    y: ws[k].sprite_y,
                    width: b.width,
                    height: b.height,
                    position: c.position,
                }),
        }
    }

    open spec fn outcome(&self, doc: SpriteModel, cels: CelsModel) -> (SpriteModel, CelsModel) {
        {
            let key = (self.layer, self.frame);
            let c = cels[key];
            let b = image_buf(c);
            (doc, with_image_data(cels, key, paint_writes(b.data, c.position, b.width, self.writes@)))
        }
    }

    open spec fn reverts_to(&self, back: Self, doc: SpriteModel, cels: CelsModel) -> bool {
        &&& back.layer == self.layer
        &&& back.frame == self.frame
        &&& back.writes@.len() == self.writes@.len()
        &&& forall|j: int|
            0 <= j < self.writes@.len() ==> #[trigger] back.writes@[j] == (PixelWrite {
                previous: None,
                ..self.writes@[j]
            })
    }

    open spec fn succeeds_on(&self, doc: SpriteModel, cels: CelsModel) -> bool {
        let c = cels[(self.layer, self.frame)];
        let b = image_buf(c);
        &&& image_error(cels, self.layer, self.frame) is None
        &&& forall|j: int|
            0 <= j < self.writes@.len() ==> write_fits(
                #[trigger] self.writes@[j],
                c.position,
                b.width,
                b.height,
            )
    }

    #[verifier::loop_isolation(false)]
    fn apply(&mut self, doc: &mut Sprite, cels: &mut CelMap) -> (r: Result<(), CommandError>)
        ensures
            final(doc)@ == old(doc)@,
            final(self).layer == old(self).layer,
            final(self).frame == old(self).frame,
            final(self).applied == (old(self).applied || r is Ok),
            ({
                let key = (old(self).layer, old(self).frame);
                let c = old(cels)@[key];
                let b = image_buf(c);
                let ws = old(self).writes@;
                match r {
                    Ok(_) => image_error(old(cels)@, old(self).layer, old(self).frame) is None
                        && (forall|j: int|
                        0 <= j < ws.len() ==> write_fits(
                            #[trigger] ws[j],
                            c.position,
                            b.width,
                            b.height,
                        )) && final(cels)@ == with_image_data(
                        old(cels)@,
                        key,
                        paint_writes(b.data, c.position, b.width, ws),
                    ),
                    Err(e) => match image_error(old(cels)@, old(self).layer, old(self).frame) {
                        Some(e0) => e == e0,
                        None => exists|k: int|
                            0 <= k < ws.len() && !write_fits(
                                #[trigger] ws[k],
                                c.position,
                                b.width,
                                b.height,
                            ) && (forall|j: int|
                                0 <= j < k ==> write_fits(
                                    #[trigger] ws[j],
                                    c.position,
                                    b.width,
                                    b.height,
                                )) && e == (CommandError::PixelOutOfBounds {
                                x: ws[k].sprite_x,
                                y: ws[k].sprite_y,
                                width: b.width,
                                height: b.height,
                                position: c.position,
                            }),
                    },
                }
            }),
    {
        let layer = self.layer;
        let frame = self.frame;
        let ghost c0 = cels@;
        let cel = image_target(cels, layer, frame)?;
        let position = cel.position;
        let buffer = image_mut(cel);
        let ghost d0 = buffer.data@;
        let ghost w0 = self.writes@;
        let width = buffer.width;
        let height = buffer.height;
        let n = self.writes.len();
        let mut i: usize = 0;
        // Apply in order; on failure roll back the writes already applied
        // (in reverse) so a failed apply leaves the document unchanged.
        while i < n
            invariant
                n == w0.len(),
                i <= n,
                self.writes@.len() == n,
                self.layer == layer,
                self.frame == frame,
                self.applied == old(self).applied,
                buffer.width == width,
                buffer.height == height,
                buffer.color_mode == crate::document::ColorMode::Rgba,
                rgba_wf(buffer@),
                d0.len() == width * height * 4,
                forall|j: int| 0 <= j < i ==> write_fits(#[trigger] w0[j], position, width, height),
                buffer.data@ == paint_writes(d0, position, width, w0.take(i as int)),
                forall|j: int|
                    0 <= j < n ==> (#[trigger] self.writes@[j]).sprite_x == w0[j].sprite_x
                        && self.writes@[j].sprite_y == w0[j].sprite_y && self.writes@[j].new_color
                        == w0[j].new_color,
                forall|j: int| i <= j < n ==> #[trigger] self.writes@[j] == w0[j],
                undo_writes(buffer.data@, position, width, height, self.writes@.take(i as int))
                    == d0,
            decreases n - i,
        {
            let w = self.writes[i];
            assert(w == w0[i as int]);
            let fits = match local_coords(w.sprite_x, w.sprite_y, position) {
                Some((lx, ly)) => lx < width && ly < height,
                None => false,
            };
            if !fits {
                undo_range(buffer, position, &mut self.writes, i);
                return Err(
                    CommandError::PixelOutOfBounds {
                        x: w.sprite_x,
                        y: w.sprite_y,
                        width,
                        height,
                        position,
                    },
                );
            }
            let (lx, ly) = local_coords(w.sprite_x, w.sprite_y, position).unwrap();
            let ghost before = buffer.data@;
            let prior = buffer.read_pixel(lx, ly);
            buffer.write_pixel(lx, ly, w.new_color);
            let ghost ws_before = self.writes@;
            self.writes.set(i, PixelWrite { previous: Some(prior), ..w });
            proof {
                lemma_pixel_in_bounds(width as int, height as int, lx as int, ly as int);
                lemma_with_pixel_undo(before, width as int, lx as int, ly as int, w.new_color);
                assert(w0.take(i + 1 as int).drop_last() =~= w0.take(i as int));
                assert(w0.take(i + 1 as int).last() == w);
                assert(self.writes@.take(i + 1 as int).drop_last() =~= ws_before.take(i as int));
                assert(self.writes@.take(i + 1 as int).last() == PixelWrite {
                    previous: Some(prior),
                    ..w
                });
            }
            i = i + 1;
        }
        proof {
            assert(w0.take(n as int) =~= w0);
            assert(self.writes@.take(n as int) =~= self.writes@);
        }
        proof {
            let key = (layer, frame);
            assert(with_image_data(c0, key, d0) =~= c0);
            assert(with_image_data(cels@, key, d0) =~= c0);
            assert(crate::command::cel_wf(cels@[key]));
        }
        self.applied = true;
        proof {
            let key = (layer, frame);
            let c = c0[key];
            let b = image_buf(c);
            assert forall|bk: SetPixel| #[trigger] self.reverts_to(bk, doc@, cels@) implies {
                &&& bk.outcome(old(doc)@, c0) == (doc@, cels@)
                &&& bk.succeeds_on(old(doc)@, c0)
            } by {
                lemma_paint_writes_same(b.data, c.position, b.width, bk.writes@, w0);
                assert forall|j: int| 0 <= j < bk.writes@.len() implies write_fits(
                    #[trigger] bk.writes@[j],
                    c.position,
                    b.width,
                    b.height,
                ) by {
                    assert(write_fits(w0[j], position, width, height));
                }
            }
        }
        Ok(())
    }

    fn revert(&mut self, _doc: &mut Sprite, cels: &mut CelMap)
        ensures
            final(self).applied == old(self).applied,
            forall|d: SpriteModel, c: CelsModel| #[trigger] final(self).reverted(d, c) == (d, c),
    {
        // Reverse order is load-bearing: a stroke that crosses the same
        // pixel twice must restore the value from before the *first* write.
        let layer = self.layer;
        let frame = self.frame;
        match image_target(cels, layer, frame) {
            Ok(cel) => {
                let position = cel.position;
                let buffer = image_mut(cel);
                let n = self.writes.len();
                let ghost w0 = self.writes@;
                undo_range(buffer, position, &mut self.writes, n);
                proof {
                    assert(w0.take(n as int) =~= w0);
                }
            },
            Err(_) => {
                forget_previous(&mut self.writes);
            },
        }
        proof {
            assert forall|d: SpriteModel, c: CelsModel| #[trigger] self.reverted(d, c) == (d, c) by {
                if image_error(c, self.layer, self.frame) is None {
                    let key = (self.layer, self.frame);
                    let b = image_buf(c[key]);
                    lemma_undo_unrecorded(b.data, c[key].position, b.width, b.height, self.writes@);
                    assert(with_image_data(c, key, b.data) =~= c);
                }
            }
        }
    }

    open spec fn merges_with(&self, next: &Self) -> bool {
        self.layer == next.layer && self.frame == next.frame
    }

    fn merge(&mut self, next: &Self) -> (r: bool)
        ensures
            r == old(self).merges_with(next),
            r ==> final(self).writes@ == old(self).writes@ + next.writes@ && final(self).layer
                == old(self).layer && final(self).frame == old(self).frame,
            final(self).applied == old(self).applied,
    {
        if self.layer != next.layer || self.frame != next.frame {
            return false;
        }
        let n = next.writes.len();
        let ghost w0 = self.writes@;
        let mut k: usize = 0;
        while k < n
            invariant
                n == next.writes@.len(),
                k <= n,
                self.applied == old(self).applied,
                self.writes@ == w0 + next.writes@.take(k as int),
                self.layer == old(self).layer,
                self.frame == old(self).frame,
            decreases n - k,
        {
            self.writes.push(next.writes[k]);
            proof {
                assert(next.writes@.take(k + 1 as int) =~= next.writes@.take(k as int).push(
                    next.writes@[k as int],
                ));
            }
            k = k + 1;
        }
        proof {
            assert(next.writes@.take(n as int) =~= next.writes@);
            assert forall|d1: SpriteModel, c1: CelsModel, d2: SpriteModel, c2: CelsModel|
                old(self).applied_on(d1, c1) && next.applied_on(d2, c2) && next.reverted(d2, c2)
                    == (d1, c1) implies {
                &&& self.applied_on(d2, c2)
                &&& self.reverted(d2, c2) == old(self).reverted(d1, c1)
            } by {
                let key = (self.layer, self.frame);
                let c = c2[key];
                let b = image_buf(c);
                lemma_undo_append(b.data, c.position, b.width, b.height, w0, next.writes@);
                let mid = undo_writes(b.data, c.position, b.width, b.height, next.writes@);
                let fin = undo_writes(mid, c.position, b.width, b.height, w0);
                assert(with_image_data(c1, key, fin) =~= with_image_data(c2, key, fin));
            }
        }
        true
    }

    open spec fn dirty(&self) -> DirtyRegion {
        if !self.applied || self.writes@.len() == 0 {
            DirtyRegion::NoChange
        } else {
            let b = writes_bounds(self.writes@);
            bbox_region(self.layer, self.frame, b.0, b.1, b.2, b.3)
        }
    }

    fn dirty_region(&self) -> (d: DirtyRegion)
        ensures
            d == self.dirty(),
    {
        let n = self.writes.len();
        if !self.applied || n == 0 {
            return DirtyRegion::NoChange;
        }
        let first = self.writes[0];
        let mut min_x = first.sprite_x;
        let mut min_y = first.sprite_y;
        let mut max_x = first.sprite_x;
        let mut max_y = first.sprite_y;
        let mut k: usize = 1;
        proof {
            assert(self.writes@.take(1) =~= seq![first]);
        }
        while k < n
            invariant
                1 <= k <= n,
                n == self.writes@.len(),
                (min_x, min_y, max_x, max_y) == writes_bounds(self.writes@.take(k as int)),
            decreases n - k,
        {
            let w = self.writes[k];
            if w.sprite_x < min_x {
                min_x = w.sprite_x;
            }
            if w.sprite_y < min_y {
                min_y = w.sprite_y;
            }
            if w.sprite_x > max_x {
                max_x = w.sprite_x;
            }
            if w.sprite_y > max_y {
                max_y = w.sprite_y;
            }
            proof {
                assert(self.writes@.take(k + 1 as int).drop_last() =~= self.writes@.take(k as int));
            }
            k = k + 1;
        }
        proof {
            assert(self.writes@.take(n as int) =~= self.writes@);
            lemma_bounds_ordered(self.writes@);
        }
        DirtyRegion::bbox(self.layer, self.frame, min_x, min_y, max_x, max_y)
    }
}

} // verus!
