//! `MoveSelectionContent` command — move the pixels under the marquee
//! selection by an offset, within one image cel.
//!
//! The source region (selection ∩ cel) is cleared to transparent, then each
//! source pixel is written at its offset position; pixels that land outside
//! the cel are dropped. The selection moves with the content.
use vstd::prelude::*;

use super::error::CommandError;
use super::pixels::{
    image_buf, image_error, image_mut, image_target, intersect_with_cel, lemma_painted_agree,
    lemma_painted_none, lemma_pixel_after_write, paint_local, paint_local_row, painted,
    restore_log, restore_pixels, with_image_data, PriorPixel,
};
use super::{cel_wf, CelsModel, Command};
use crate::document::cel::{pixel_at, rgba_wf, PixelBufferModel};
use crate::document::color::transparent_spec;
use crate::document::sprite::SpriteModel;
use crate::document::{CelMap, FrameIndex, LayerId, PixelBuffer, Rgba, Sprite};
use crate::geometry::{max_int, min_int, rect_has_point, rect_is_empty, Rect};

verus! {

/// What `apply` recorded for `revert`.
#[derive(Debug, Clone, PartialEq, Eq)]
pub struct AppliedState {
    /// The selection before the move.
    pub prior_selection: Option<Rect>,
    /// Every source pixel, as it was before it was cleared.
    pub cleared_source: Vec<PriorPixel>,
    /// Every destination pixel, as it was before the moved pixel landed.
    pub overwritten_dest: Vec<PriorPixel>,
}

/// Move the selected pixels of the cel at `(layer, frame)` by
/// `(delta_x, delta_y)`.
#[derive(Debug, Clone, PartialEq, Eq)]
pub struct MoveSelectionContent {
    pub layer: LayerId,
    pub frame: FrameIndex,
    pub delta_x: i32,
    pub delta_y: i32,
    /// `Some` after a successful `apply`; consumed on `revert`.
    pub state: Option<AppliedState>,
}

/// Cel-local `(x, y)` is inside the cel and under the selection.
pub open spec fn in_source(sel: Rect, position: (i32, i32), w: u32, h: u32, x: int, y: int) -> bool {
    &&& 0 <= x < w
    &&& 0 <= y < h
    &&& rect_has_point(sel, x + position.0, y + position.1)
}

/// The pixel at cel-local `(x, y)` after the move: the source pixel that
/// lands there, else transparent where the source was, else unchanged.
pub open spec fn moved_pixel(
    b: PixelBufferModel,
    position: (i32, i32),
    sel: Rect,
    dx: int,
    dy: int,
    x: int,
    y: int,
) -> Rgba {
    if in_source(sel, position, b.width, b.height, x - dx, y - dy) {
        pixel_at(b.data, b.width as int, x - dx, y - dy)
    } else if in_source(sel, position, b.width, b.height, x, y) {
        transparent_spec()
    } else {
        pixel_at(b.data, b.width as int, x, y)
    }
}

/// The number of cel pixels under the selection: the area of `sel`
/// intersected with the `w × h` cel at `position`.
pub open spec fn source_count(sel: Rect, position: (i32, i32), w: u32, h: u32) -> int {
    let x0 = max_int(sel.x as int, position.0 as int);
    let x1 = min_int(sel.x + sel.width, position.0 + w);
    let y0 = max_int(sel.y as int, position.1 as int);
    let y1 = min_int(sel.y + sel.height, position.1 + h);
    if x0 < x1 && y0 < y1 {
        (x1 - x0) * (y1 - y0)
    } else {
        0
    }
}

/// The pixel bytes of image `b` at `position` after the selection `sel`
/// moves by `(dx, dy)`: the buffer of `b`'s size whose every pixel is the
/// [`moved_pixel`].
pub open spec fn moved_data(b: PixelBufferModel, position: (i32, i32), sel: Rect, dx: int, dy: int) -> Seq<u8> {
    choose|nd: Seq<u8>| #[trigger] holds_moved(b, position, sel, dx, dy, nd)
}

/// `nd` is a buffer of `b`'s size whose every pixel is the [`moved_pixel`].
pub open spec fn holds_moved(b: PixelBufferModel, position: (i32, i32), sel: Rect, dx: int, dy: int, nd: Seq<u8>) -> bool {
    &&& nd.len() == b.data.len()
    &&& forall|x: int, y: int|
        0 <= x < b.width && 0 <= y < b.height ==> #[trigger] pixel_at(nd, b.width as int, x, y)
            == moved_pixel(b, position, sel, dx, dy, x, y)
}

/// [`moved_data`] names the one buffer with those pixels.
pub proof fn lemma_moved_data(
    b: PixelBufferModel,
    position: (i32, i32),
    sel: Rect,
    dx: int,
    dy: int,
    nd: Seq<u8>,
)
    requires
        rgba_wf(b),
        nd.len() == b.data.len(),
        forall|x: int, y: int|
            0 <= x < b.width && 0 <= y < b.height ==> #[trigger] pixel_at(nd, b.width as int, x, y)
                == moved_pixel(b, position, sel, dx, dy, x, y),
    ensures
        moved_data(b, position, sel, dx, dy) == nd,
{
    let m = moved_data(b, position, sel, dx, dy);
    assert(holds_moved(b, position, sel, dx, dy, nd));
    assert(holds_moved(b, position, sel, dx, dy, m));
    assert forall|x: int, y: int| 0 <= x < b.width && 0 <= y < b.height implies #[trigger] pixel_at(
        m,
        b.width as int,
        x,
        y,
    ) == pixel_at(nd, b.width as int, x, y) by {}
    crate::document::cel::lemma_pixels_determine(m, nd, b.width as int, b.height as int);
}

/// `a + b` clamped to the range of `i32`.
pub open spec fn saturating(v: int) -> i32 {
    if v < i32::MIN {
        i32::MIN
    } else if v > i32::MAX {
        i32::MAX
    } else {
        v as i32
    }
}

/// The selection moved by `(dx, dy)`, its origin saturating at the `i32`
/// range.
pub open spec fn translated(sel: Rect, dx: i32, dy: i32) -> Rect {
    Rect { x: saturating(sel.x + dx), y: saturating(sel.y + dy), ..sel }
}

/// `a + b`, saturating at the bounds of `i32`.
fn saturating_add(a: i32, b: i32) -> (r: i32)
    ensures
        r == saturating(a + b),
{
    let v = a as i64 + b as i64;
    if v < i32::MIN as i64 {
        i32::MIN
    } else if v > i32::MAX as i64 {
        i32::MAX
    } else {
        v as i32
    }
}

/// The RGBA pixel at cel-local `(x, y)`.
pub fn read_pixel(buf: &PixelBuffer, x: u32, y: u32) -> (c: Rgba)
    requires
        rgba_wf(buf@),
        x < buf.width,
        y < buf.height,
    ensures
        c == pixel_at(buf.data@, buf.width as int, x as int, y as int),
{
    buf.read_pixel(x, y)
}

/// Overwrite the RGBA pixel at cel-local `(x, y)`.
pub fn write_pixel(buf: &mut PixelBuffer, x: u32, y: u32, c: Rgba)
    requires
        rgba_wf(old(buf)@),
        x < old(buf).width,
        y < old(buf).height,
    ensures
        final(buf).width == old(buf).width,
        final(buf).height == old(buf).height,
        final(buf).color_mode == old(buf).color_mode,
        final(buf).data@ == crate::document::cel::with_pixel(
            old(buf).data@,
            old(buf).width as int,
            x as int,
            y as int,
            c,
        ),
{
    buf.write_pixel(x, y, c)
}

impl MoveSelectionContent {
    pub fn new(layer: LayerId, frame: FrameIndex, delta_x: i32, delta_y: i32) -> (c: Self)
        ensures
            c == (MoveSelectionContent { layer, frame, delta_x, delta_y, state: None }),
    {
        MoveSelectionContent { layer, frame, delta_x, delta_y, state: None }
    }

    /// Number of source pixels moved by the most recent `apply`: every cel
    /// pixel under the selection, whether or not its destination lands on the
    /// cel (0 before `apply` or after `revert`).
    pub fn moved_count(&self) -> (n: usize)
        ensures
            n == match self.state {
                Some(s) => s.cleared_source@.len(),
                None => 0,
            },
    {
        match &self.state {
            Some(s) => s.cleared_source.len(),
            None => 0,
        }
    }
}

impl Command for MoveSelectionContent {
    fn fits_doc(&self, doc: &Sprite) -> (b: bool) {
        true
    }

    open spec fn ready(&self) -> bool {
        true
    }

    fn is_ready(&self) -> (b: bool) {
        true
    }

    open spec fn applied_on(&self, doc: SpriteModel, cels: CelsModel) -> bool {
        self.state is Some
    }

    open spec fn reverted(&self, doc: SpriteModel, cels: CelsModel) -> (SpriteModel, CelsModel) {
        match self.state {
            Some(st) => if image_error(cels, self.layer, self.frame) is None {
                let b = image_buf(cels[(self.layer, self.frame)]);
                (
                    SpriteModel { selection: st.prior_selection, ..doc },
                    with_image_data(
                        cels,
                        (self.layer, self.frame),
                        restore_log(
                            restore_log(b.data, b.width, b.height, st.overwritten_dest@),
                            b.width,
                            b.height,
                            st.cleared_source@,
                        ),
                    ),
                )
            } else {
                (doc, cels)
            },
            None => (doc, cels),
        }
    }

    open spec fn fails_with(&self, doc: SpriteModel, cels: CelsModel, e: CommandError) -> bool {
        match doc.selection {
            Some(sel) => if rect_is_empty(sel) {
                e == CommandError::NoSelection
            } else {
                image_error(cels, self.layer, self.frame) == Some(e)
            },
            None => e == CommandError::NoSelection,
        }
    }

    open spec fn outcome(&self, doc: SpriteModel, cels: CelsModel) -> (SpriteModel, CelsModel) {
        let key = (self.layer, self.frame);
        let sel = doc.selection->Some_0;
        let c0 = cels[key];
        (
            SpriteModel { selection: Some(translated(sel, self.delta_x, self.delta_y)), ..doc },
            with_image_data(
                cels,
                key,
                moved_data(image_buf(c0), c0.position, sel, self.delta_x as int, self.delta_y as int),
            ),
        )
    }

    open spec fn reverts_to(&self, back: Self, doc: SpriteModel, cels: CelsModel) -> bool {
        back.layer == self.layer && back.frame == self.frame && back.delta_x == self.delta_x && back.delta_y == self.delta_y
    }

    open spec fn succeeds_on(&self, doc: SpriteModel, cels: CelsModel) -> bool {
        &&& doc.selection matches Some(sel) && !rect_is_empty(sel)
        &&& image_error(cels, self.layer, self.frame) is None
    }

    fn apply(&mut self, doc: &mut Sprite, cels: &mut CelMap) -> (r: Result<(), CommandError>)
        ensures
            r is Err ==> *final(self) == *old(self),
            final(self).layer == old(self).layer,
            final(self).frame == old(self).frame,
            final(self).delta_x == old(self).delta_x,
            final(self).delta_y == old(self).delta_y,
            r is Err ==> final(self).state == old(self).state,
            ({
                let key = (old(self).layer, old(self).frame);
                match old(doc)@.selection {
                    None => r == Err::<(), CommandError>(CommandError::NoSelection),
                    Some(sel) => if rect_is_empty(sel) {
                        r == Err::<(), CommandError>(CommandError::NoSelection)
                    } else {
                        match image_error(old(cels)@, old(self).layer, old(self).frame) {
                            Some(e) => r == Err::<(), CommandError>(e),
                            None => {
                                let c0 = old(cels)@[key];
                                let b = image_buf(c0);
                                let nd = image_buf(final(cels)@[key]).data;
                                &&& r is Ok
                                &&& final(self).state matches Some(st) && st.cleared_source@.len()
                                    == source_count(sel, c0.position, b.width, b.height)
                                &&& final(doc)@ == (SpriteModel {
                                    selection: Some(
                                        translated(sel, old(self).delta_x, old(self).delta_y),
                                    ),
                                    ..old(doc)@
                                })
                                &&& final(cels)@ == with_image_data(old(cels)@, key, nd)
                                &&& nd.len() == b.data.len()
                                &&& forall|x: int, y: int|
                                    0 <= x < b.width && 0 <= y < b.height ==> #[trigger] pixel_at(
                                        nd,
                                        b.width as int,
                                        x,
                                        y,
                                    ) == moved_pixel(
                                        b,
                                        c0.position,
                                        sel,
                                        old(self).delta_x as int,
                                        old(self).delta_y as int,
                                        x,
                                        y,
                                    )
                            },
                        }
                    },
                }
            }),
    {
        let selection = match doc.selection {
            Some(s) => s,
            None => {
                return Err(CommandError::NoSelection);
            },
        };
        if selection.is_empty() {
            return Err(CommandError::NoSelection);
        }
        let layer = self.layer;
        let frame = self.frame;
        let ddx = self.delta_x;
        let ddy = self.delta_y;
        let ghost c0 = cels@;
        let ghost key = (layer, frame);
        let cel = image_target(cels, layer, frame)?;
        let cel_pos = cel.position;
        let buffer = image_mut(cel);
        let ghost b0 = buffer@;
        let cel_w = buffer.width;
        let cel_h = buffer.height;
        let clear = Rgba::transparent();
        let mut cleared_source: Vec<PriorPixel> = Vec::new();
        let mut overwritten_dest: Vec<PriorPixel> = Vec::new();
        // Where every source pixel lands, with its color; destinations in
        // increasing row-major order.
        let mut moved: Vec<(u32, u32, Rgba)> = Vec::new();
        let ghost in_src = |x: int, y: int| in_source(selection, cel_pos, cel_w, cel_h, x, y);
        proof {
            lemma_painted_none(b0, cel_pos, clear);
        }
        match intersect_with_cel(selection, cel_pos, cel_w, cel_h) {
            Some((sx, sy, sw, sh)) => {
                let mut ly = sy;
                while ly < sy + sh
                    invariant
                        sy <= ly <= sy + sh,
                        sx + sw <= cel_w,
                        sy + sh <= cel_h,
                        cel_w == b0.width,
                        cel_h == b0.height,
                        buffer@ == b0,
                        rgba_wf(b0),
                        forall|px: int, py: int|
                            0 <= px < cel_w && 0 <= py < cel_h ==> (#[trigger] rect_has_point(
                                selection,
                                px + cel_pos.0,
                                py + cel_pos.1,
                            ) <==> (sx <= px < sx + sw && sy <= py < sy + sh)),
                        forall|j: int|
                            0 <= j < moved@.len() ==> {
                                let m = #[trigger] moved@[j];
                                &&& m.0 < cel_w && m.1 < cel_h
                                &&& in_source(selection, cel_pos, cel_w, cel_h, m.0 - ddx, m.1 - ddy)
                                &&& m.2 == pixel_at(b0.data, cel_w as int, m.0 - ddx, m.1 - ddy)
                            },
                        forall|j1: int, j2: int|
                            0 <= j1 < j2 < moved@.len() ==> (#[trigger] moved@[j1]).1 * cel_w
                                + moved@[j1].0 < (#[trigger] moved@[j2]).1 * cel_w + moved@[j2].0,
                        forall|j: int|
                            0 <= j < moved@.len() ==> (#[trigger] moved@[j]).1 - ddy < ly,
                        forall|px: int, py: int|
                            in_source(selection, cel_pos, cel_w, cel_h, px, py) && py < ly && 0
                                <= px + ddx < cel_w && 0 <= py + ddy < cel_h ==> exists|j: int|
                                0 <= j < moved@.len() && (#[trigger] moved@[j]).0 == px + ddx
                                    && moved@[j].1 == py + ddy,
                    decreases sy + sh - ly,
                {
                    let mut lx = sx;
                    while lx < sx + sw
                        invariant
                            sy <= ly < sy + sh,
                            sx <= lx <= sx + sw,
                            sx + sw <= cel_w,
                            sy + sh <= cel_h,
                            cel_w == b0.width,
                            cel_h == b0.height,
                            buffer@ == b0,
                            rgba_wf(b0),
                            forall|px: int, py: int|
                                0 <= px < cel_w && 0 <= py < cel_h ==> (#[trigger] rect_has_point(
                                    selection,
                                    px + cel_pos.0,
                                    py + cel_pos.1,
                                ) <==> (sx <= px < sx + sw && sy <= py < sy + sh)),
                            forall|j: int|
                                0 <= j < moved@.len() ==> {
                                    let m = #[trigger] moved@[j];
                                    &&& m.0 < cel_w && m.1 < cel_h
                                    &&& in_source(
                                        selection,
                                        cel_pos,
                                        cel_w,
                                        cel_h,
                                        m.0 - ddx,
                                        m.1 - ddy,
                                    )
                                    &&& m.2 == pixel_at(b0.data, cel_w as int, m.0 - ddx, m.1 - ddy)
                                },
                            forall|j1: int, j2: int|
                                0 <= j1 < j2 < moved@.len() ==> (#[trigger] moved@[j1]).1 * cel_w
                                    + moved@[j1].0 < (#[trigger] moved@[j2]).1 * cel_w
                                    + moved@[j2].0,
                            forall|j: int|
                                0 <= j < moved@.len() ==> (#[trigger] moved@[j]).1 - ddy < ly || ((
                                moved@[j]).1 - ddy == ly && moved@[j].0 - ddx < lx),
                            forall|px: int, py: int|
                                in_source(selection, cel_pos, cel_w, cel_h, px, py) && (py < ly || (
                                py == ly && px < lx)) && 0 <= px + ddx < cel_w && 0 <= py + ddy
                                    < cel_h ==> exists|j: int|
                                    0 <= j < moved@.len() && (#[trigger] moved@[j]).0 == px + ddx
                                        && moved@[j].1 == py + ddy,
                        decreases sx + sw - lx,
                    {
                        let dx_i = lx as i64 + ddx as i64;
                        let dy_i = ly as i64 + ddy as i64;
                        if dx_i >= 0 && dy_i >= 0 && dx_i < cel_w as i64 && dy_i < cel_h as i64 {
                            let c = buffer.read_pixel(lx, ly);
                            let ghost m0 = moved@;
                            moved.push((dx_i as u32, dy_i as u32, c));
                            proof {
                                assert(rect_has_point(selection, lx + cel_pos.0, ly + cel_pos.1));
                                assert forall|j1: int, j2: int|
                                    0 <= j1 < j2 < moved@.len() implies (#[trigger] moved@[j1]).1
                                    * cel_w + moved@[j1].0 < (#[trigger] moved@[j2]).1 * cel_w
                                    + moved@[j2].0 by {
                                    if j2 == m0.len() {
                                        let a = moved@[j1];
                                        assert(a.1 - ddy < ly || (a.1 - ddy == ly && a.0 - ddx < lx));
                                        if a.1 < dy_i {
                                            assert(a.1 * cel_w + a.0 < dy_i * cel_w + dx_i)
                                                by (nonlinear_arith)
                                                requires
                                                    a.1 < dy_i,
                                                    0 <= a.0 < cel_w,
                                                    0 <= dx_i,
                                            ;
                                        }
                                    }
                                }
                                assert forall|px: int, py: int|
                                    in_source(selection, cel_pos, cel_w, cel_h, px, py) && (py < ly
                                        || (py == ly && px < lx + 1)) && 0 <= px + ddx < cel_w && 0
                                        <= py + ddy < cel_h implies exists|j: int|
                                    0 <= j < moved@.len() && (#[trigger] moved@[j]).0 == px + ddx
                                        && moved@[j].1 == py + ddy by {
                                    if py == ly && px == lx {
                                        assert(moved@[m0.len() as int].0 == px + ddx);
                                    } else {
                                        let j = choose|j: int|
                                            0 <= j < m0.len() && (#[trigger] m0[j]).0 == px + ddx
                                                && m0[j].1 == py + ddy;
                                        assert(moved@[j] == m0[j]);
                                    }
                                }
                            }
                        } else {
                            proof {
                                assert forall|px: int, py: int|
                                    in_source(selection, cel_pos, cel_w, cel_h, px, py) && (py < ly
                                        || (py == ly && px < lx + 1)) && 0 <= px + ddx < cel_w && 0
                                        <= py + ddy < cel_h implies exists|j: int|
                                    0 <= j < moved@.len() && (#[trigger] moved@[j]).0 == px + ddx
                                        && moved@[j].1 == py + ddy by {
                                    if py == ly && px == lx {
                                        assert(false);
                                    }
                                }
                            }
                        }
                        lx = lx + 1;
                    }
                    proof {
                        assert forall|px: int, py: int|
                            in_source(selection, cel_pos, cel_w, cel_h, px, py) && py < ly + 1 && 0
                                <= px + ddx < cel_w && 0 <= py + ddy < cel_h implies exists|j: int|
                            0 <= j < moved@.len() && (#[trigger] moved@[j]).0 == px + ddx
                                && moved@[j].1 == py + ddy by {
                            if py == ly {
                                assert(rect_has_point(selection, px + cel_pos.0, py + cel_pos.1));
                            }
                        }
                    }
                    ly = ly + 1;
                }
                // Clear the source region.
                let mut ly = sy;
                proof {
                    lemma_painted_agree(
                        b0,
                        b0.data,
                        cel_pos,
                        |x: int, y: int| false,
                        |x: int, y: int| rect_has_point(selection, x, y) && y < sy + cel_pos.1,
                        clear,
                    );
                }
                while ly < sy + sh
                    invariant
                        sy <= ly <= sy + sh,
                        sx + sw <= b0.width,
                        sy + sh <= b0.height,
                        sw > 0,
                        forall|px: int, py: int|
                            0 <= px < b0.width && 0 <= py < b0.height ==> (#[trigger] rect_has_point(
                                selection,
                                px + cel_pos.0,
                                py + cel_pos.1,
                            ) <==> (sx <= px < sx + sw && sy <= py < sy + sh)),
                        rgba_wf(b0),
                        buffer.width == b0.width,
                        buffer.height == b0.height,
                        buffer.color_mode == b0.color_mode,
                        painted(
                            b0,
                            buffer.data@,
                            cel_pos,
                            |x: int, y: int| rect_has_point(selection, x, y) && y < ly + cel_pos.1,
                            clear,
                        ),
                        restore_log(buffer.data@, b0.width, b0.height, cleared_source@) == b0.data,
                        cleared_source@.len() == (ly - sy) * sw,
                    decreases sy + sh - ly,
                {
                    paint_local_row(
                        buffer,
                        cel_pos,
                        sx,
                        sx + sw,
                        ly,
                        clear,
                        false,
                        &mut cleared_source,
                        Ghost(b0),
                        Ghost(|x: int, y: int| rect_has_point(selection, x, y) && y < ly + cel_pos.1),
                    );
                    proof {
                        assert forall|x: int, y: int|
                            crate::command::pixels::in_cel(
                                x,
                                y,
                                cel_pos,
                                b0.width,
                                b0.height,
                            ) implies #[trigger] rect_has_point(selection, x, y) == (sx <= x
                            - cel_pos.0 < sx + sw && sy <= y - cel_pos.1 < sy + sh) by {
                            assert(rect_has_point(
                                selection,
                                (x - cel_pos.0) + cel_pos.0,
                                (y - cel_pos.1) + cel_pos.1,
                            ) <==> (sx <= x - cel_pos.0 < sx + sw && sy <= y - cel_pos.1 < sy
                                + sh));
                        }
                        lemma_painted_agree(
                            b0,
                            buffer.data@,
                            cel_pos,
                            |px: int, py: int|
                                (rect_has_point(selection, px, py) && py < ly + cel_pos.1) || (py
                                    == ly + cel_pos.1 && sx + cel_pos.0 <= px < sx + sw
                                    + cel_pos.0),
                            |x: int, y: int| rect_has_point(selection, x, y) && y < ly + 1 + cel_pos.1,
                            clear,
                        );
                        assert((ly + 1 - sy) * sw == (ly - sy) * sw + sw) by (nonlinear_arith);
                    }
                    ly = ly + 1;
                }
                proof {
                    lemma_painted_agree(
                        b0,
                        buffer.data@,
                        cel_pos,
                        |x: int, y: int| rect_has_point(selection, x, y) && y < ly + cel_pos.1,
                        |x: int, y: int| rect_has_point(selection, x, y),
                        clear,
                    );
                    assert(cleared_source@.len() == sw * sh) by (nonlinear_arith)
                        requires
                            cleared_source@.len() == (ly - sy) * sw,
                            ly == sy + sh,
                    ;
                    assert(cleared_source@.len() == source_count(selection, cel_pos, cel_w, cel_h));
                }
            },
            None => {
                proof {
                    lemma_painted_agree(
                        b0,
                        b0.data,
                        cel_pos,
                        |x: int, y: int| false,
                        |x: int, y: int| rect_has_point(selection, x, y),
                        clear,
                    );
                    assert(moved@.len() == 0);
                    assert(cleared_source@.len() == source_count(selection, cel_pos, cel_w, cel_h));
                    assert forall|px: int, py: int|
                        !in_source(selection, cel_pos, cel_w, cel_h, px, py) by {
                        if 0 <= px < cel_w && 0 <= py < cel_h {
                            assert(!rect_has_point(selection, px + cel_pos.0, py + cel_pos.1));
                        }
                    }
                }
            },
        }
        // Land every moved pixel at its destination.
        let ghost cleared = buffer.data@;
        let nm = moved.len();
        let mut k: usize = 0;
        while k < nm
            invariant
                nm == moved@.len(),
                k <= nm,
                cel_w == b0.width,
                cel_h == b0.height,
                rgba_wf(b0),
                buffer.width == b0.width,
                buffer.height == b0.height,
                buffer.color_mode == b0.color_mode,
                rgba_wf(buffer@),
                cleared.len() == b0.data.len(),
                forall|j: int| 0 <= j < nm ==> (#[trigger] moved@[j]).0 < cel_w && moved@[j].1 < cel_h,
                forall|j1: int, j2: int|
                    0 <= j1 < j2 < nm ==> (#[trigger] moved@[j1]).1 * cel_w + moved@[j1].0 < (
                    #[trigger] moved@[j2]).1 * cel_w + moved@[j2].0,
                buffer.data@.len() == b0.data.len(),
                forall|x: int, y: int|
                    0 <= x < cel_w && 0 <= y < cel_h ==> #[trigger] pixel_at(
                        buffer.data@,
                        cel_w as int,
                        x,
                        y,
                    ) == {
                        if exists|j: int| 0 <= j < k && (#[trigger] moved@[j]).0 == x && moved@[j].1 == y {
                            moved@[choose|j: int|
                                0 <= j < k && (#[trigger] moved@[j]).0 == x && moved@[j].1 == y].2
                        } else {
                            pixel_at(cleared, cel_w as int, x, y)
                        }
                    },
                restore_log(buffer.data@, b0.width, b0.height, overwritten_dest@) == cleared,
            decreases nm - k,
        {
            let (qx, qy, c) = moved[k];
            let ghost d = buffer.data@;
            paint_local(buffer, qx, qy, c, false, &mut overwritten_dest);
            proof {
                assert forall|x: int, y: int| 0 <= x < cel_w && 0 <= y < cel_h implies #[trigger] pixel_at(
                    buffer.data@,
                    cel_w as int,
                    x,
                    y,
                ) == {
                    if exists|j: int| 0 <= j < k + 1 && (#[trigger] moved@[j]).0 == x && moved@[j].1 == y {
                        moved@[choose|j: int|
                            0 <= j < k + 1 && (#[trigger] moved@[j]).0 == x && moved@[j].1 == y].2
                    } else {
                        pixel_at(cleared, cel_w as int, x, y)
                    }
                } by {
                    lemma_pixel_after_write(
                        d,
                        cel_w as int,
                        cel_h as int,
                        qx as int,
                        qy as int,
                        c,
                        x,
                        y,
                    );
                    if exists|j: int| 0 <= j < k + 1 && (#[trigger] moved@[j]).0 == x && moved@[j].1 == y {
                        let j = choose|j: int|
                            0 <= j < k + 1 && (#[trigger] moved@[j]).0 == x && moved@[j].1 == y;
                        if x == qx && y == qy {
                            if j < k {
                                assert(moved@[j].1 * cel_w + moved@[j].0 < moved@[k as int].1 * cel_w
                                    + moved@[k as int].0);
                            }
                        } else {
                            assert(j != k);
                        }
                    }
                }
            }
            k = k + 1;
        }
        proof {
            assert forall|x: int, y: int| 0 <= x < cel_w && 0 <= y < cel_h implies #[trigger] pixel_at(
                buffer.data@,
                cel_w as int,
                x,
                y,
            ) == moved_pixel(b0, cel_pos, selection, ddx as int, ddy as int, x, y) by {
                assert(pixel_at(cleared, cel_w as int, x, y) == if rect_has_point(
                    selection,
                    x + cel_pos.0,
                    y + cel_pos.1,
                ) {
                    clear
                } else {
                    pixel_at(b0.data, cel_w as int, x, y)
                });
                if in_source(selection, cel_pos, cel_w, cel_h, x - ddx, y - ddy) {
                    let px = x - ddx;
                    let py = y - ddy;
                    assert(exists|j: int|
                        0 <= j < moved@.len() && (#[trigger] moved@[j]).0 == px + ddx && moved@[j].1
                            == py + ddy);
                }
            }
        }
        let ghost nd = buffer.data@;
        proof {
            lemma_moved_data(b0, cel_pos, selection, ddx as int, ddy as int, nd);
        }
        let prior_selection = doc.selection;
        let tx = saturating_add(selection.x, ddx);
        let ty = saturating_add(selection.y, ddy);
        doc.set_selection(Rect::new(tx, ty, selection.width, selection.height));
        self.state = Some(AppliedState { prior_selection, cleared_source, overwritten_dest });
        proof {
            assert(cel_wf(cels@[key]));
            assert(with_image_data(c0, key, nd) =~= cels@);
            assert(with_image_data(cels@, key, b0.data) =~= c0);
        }
        assert(doc@.tilesets == old(doc)@.tilesets);
        Ok(())
    }

    fn revert(&mut self, doc: &mut Sprite, cels: &mut CelMap)
        ensures
            *final(self) == (MoveSelectionContent { state: None, ..*old(self) }),
            forall|d: SpriteModel, c: CelsModel| #[trigger] final(self).reverted(d, c) == (d, c),
    {
        let state = match self.state.take() {
            Some(s) => s,
            None => {
                return ;
            },
        };
        let ghost c0 = cels@;
        match image_target(cels, self.layer, self.frame) {
            Ok(cel) => {
                let buffer = image_mut(cel);
                restore_pixels(buffer, &state.overwritten_dest);
                restore_pixels(buffer, &state.cleared_source);
            },
            Err(_) => {
                return ;
            },
        }
        proof {
            let key = (self.layer, self.frame);
            assert(cel_wf(cels@[key]));
            assert forall|k: (LayerId, FrameIndex)| #[trigger] cels@.contains_key(k) implies cel_wf(
                cels@[k],
            ) && cels@[k].layer == k.0 && cels@[k].frame == k.1 by {
                if k != key {
                    assert(cel_wf(c0[k]));
                }
            }
        }
        doc.selection = state.prior_selection;
        assert(doc@.tilesets == old(doc)@.tilesets);
    }
}

} // verus!
