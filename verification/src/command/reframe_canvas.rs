//! `ReframeCanvas` command — make a sprite-space rect of the old canvas the
//! new canvas. Backs both "resize canvas with anchor" (the rect extends past
//! or inside the old canvas) and "crop to selection" (the rect is the
//! selection).
//!
//! Image cels are re-rendered canvas-sized at `(0, 0)` so painting keeps
//! working everywhere; pixels outside the new frame are dropped (undo
//! restores them). Other cels keep their data and are shifted by the frame
//! offset. Slice keys shift with the content; the selection is cleared.
use vstd::prelude::*;
use vstd::string::StringSliceAdditionalSpecFns;

use super::error::CommandError;
use super::transform_canvas::{restored, Prior};
use super::transform_support::{
    canvas_px, cel_to_canvas, half_toward_zero, raster_to_cel, rgba_buffer, rgba_cel, Raster,
};
use super::{cel_wf, cels_wf, CelsModel, Command};
use crate::document::cel::{pixel_at, rgba_wf, CelModel};
use crate::document::cel_map::{has_key, CelKey};
use crate::document::color::transparent_spec;
use crate::document::slice::{SliceKey, SliceModel};
use crate::document::sprite::SpriteModel;
use crate::document::{Cel, CelMap, ColorMode, Slice, Sprite};
use crate::geometry::{rect_is_empty, Rect};
use crate::text::str_eq;

verus! {

/// Where the existing content sits inside a resized canvas.
#[derive(Debug, Clone, Copy, PartialEq, Eq, Structural)]
pub enum Anchor {
    TopLeft,
    Top,
    TopRight,
    Left,
    Center,
    Right,
    BottomLeft,
    Bottom,
    BottomRight,
}

/// The stable wire name of each [`Anchor`].
pub open spec fn anchor_name(v: Anchor) -> &'static str {
    match v {
        Anchor::TopLeft => "top_left",
        Anchor::Top => "top",
        Anchor::TopRight => "top_right",
        Anchor::Left => "left",
        Anchor::Center => "center",
        Anchor::Right => "right",
        Anchor::BottomLeft => "bottom_left",
        Anchor::Bottom => "bottom",
        Anchor::BottomRight => "bottom_right",
    }
}

/// Distinct anchors have distinct wire names, so
/// [`Anchor::from_name`] gives back the value whose name it is handed.
pub proof fn lemma_anchor_name_injective(a: Anchor, b: Anchor)
    requires
        anchor_name(a).spec_bytes() == anchor_name(b).spec_bytes(),
    ensures
        a == b,
{
    reveal_strlit("top_left");
    reveal_strlit("top");
    reveal_strlit("top_right");
    reveal_strlit("left");
    reveal_strlit("center");
    reveal_strlit("right");
    reveal_strlit("bottom_left");
    reveal_strlit("bottom");
    reveal_strlit("bottom_right");
    vstd::string::is_ascii_spec_bytes(anchor_name(a));
    vstd::string::is_ascii_spec_bytes(anchor_name(b));
    assert(vstd::string::is_ascii(anchor_name(a)));
    assert(vstd::string::is_ascii(anchor_name(b)));
    assert(anchor_name(a)@ =~= anchor_name(b)@) by {
        assert forall|i: int| 0 <= i < anchor_name(a)@.len() implies anchor_name(a)@[i] == anchor_name(b)@[i] by {
            assert(anchor_name(a).spec_bytes()[i] == anchor_name(b).spec_bytes()[i]);
            let ca = anchor_name(a)@[i];
            let cb = anchor_name(b)@[i];
            assert('\0' <= ca <= '\u{7f}');
            assert('\0' <= cb <= '\u{7f}');
            assert((ca as u8) as u32 == ca as u32);
            assert((cb as u8) as u32 == cb as u32);
            assert(anchor_name(a).spec_bytes().len() == anchor_name(a)@.len());
            assert(anchor_name(b).spec_bytes().len() == anchor_name(b)@.len());
            assert(anchor_name(a).spec_bytes()[i] == ca as u8);
            assert(anchor_name(b).spec_bytes()[i] == cb as u8);
            assert(ca as u32 == cb as u32);
        }
    }
}

impl Anchor {
    /// Stable wire name (used by the host API).
    pub fn name(self) -> (s: &'static str)
        ensures
            s == anchor_name(self),
    {
        match self {
            Anchor::TopLeft => "top_left",
            Anchor::Top => "top",
            Anchor::TopRight => "top_right",
            Anchor::Left => "left",
            Anchor::Center => "center",
            Anchor::Right => "right",
            Anchor::BottomLeft => "bottom_left",
            Anchor::Bottom => "bottom",
            Anchor::BottomRight => "bottom_right",
        }
    }

    /// Parse a wire name produced by [`Anchor::name`].
    pub fn from_name(name: &str) -> (r: Option<Self>)
        ensures
            match r {
                Some(v) => name.spec_bytes() == anchor_name(v).spec_bytes(),
                None => forall|v: Anchor| name.spec_bytes() != #[trigger] anchor_name(v).spec_bytes(),
            },
    {
        if str_eq(name, "top_left") {
            return Some(Anchor::TopLeft);
        }
        if str_eq(name, "top") {
            return Some(Anchor::Top);
        }
        if str_eq(name, "top_right") {
            return Some(Anchor::TopRight);
        }
        if str_eq(name, "left") {
            return Some(Anchor::Left);
        }
        if str_eq(name, "center") {
            return Some(Anchor::Center);
        }
        if str_eq(name, "right") {
            return Some(Anchor::Right);
        }
        if str_eq(name, "bottom_left") {
            return Some(Anchor::BottomLeft);
        }
        if str_eq(name, "bottom") {
            return Some(Anchor::Bottom);
        }
        if str_eq(name, "bottom_right") {
            return Some(Anchor::BottomRight);
        }
        proof {
            assert forall|v: Anchor| name.spec_bytes() != #[trigger] anchor_name(v).spec_bytes() by {
                match v {
                    Anchor::TopLeft => {},
                    Anchor::Top => {},
                    Anchor::TopRight => {},
                    Anchor::Left => {},
                    Anchor::Center => {},
                    Anchor::Right => {},
                    Anchor::BottomLeft => {},
                    Anchor::Bottom => {},
                    Anchor::BottomRight => {},
                }
            }
        }
        None
    }
}

impl Default for Anchor {
    fn default() -> (v: Self)
        ensures
            v == Anchor::Center,
    {
        Anchor::Center
    }
}

/// Horizontal and vertical placement of an [`Anchor`] as thirds: `0` =
/// start, `1` = middle, `2` = end.
pub open spec fn anchor_thirds(a: Anchor) -> (i64, i64) {
    match a {
        Anchor::TopLeft => (0, 0),
        Anchor::Top => (1, 0),
        Anchor::TopRight => (2, 0),
        Anchor::Left => (0, 1),
        Anchor::Center => (1, 1),
        Anchor::Right => (2, 1),
        Anchor::BottomLeft => (0, 2),
        Anchor::Bottom => (1, 2),
        Anchor::BottomRight => (2, 2),
    }
}

impl Anchor {
    /// Horizontal / vertical placement as thirds: `0` = start, `1` =
    /// middle, `2` = end.
    fn thirds(self) -> (t: (i64, i64))
        ensures
            t == anchor_thirds(self),
    {
        match self {
            Anchor::TopLeft => (0, 0),
            Anchor::Top => (1, 0),
            Anchor::TopRight => (2, 0),
            Anchor::Left => (0, 1),
            Anchor::Center => (1, 1),
            Anchor::Right => (2, 1),
            Anchor::BottomLeft => (0, 2),
            Anchor::Bottom => (1, 2),
            Anchor::BottomRight => (2, 2),
        }
    }
}

/// `v` clamped to the `i32` range.
pub open spec fn clamp_i32(v: int) -> i32 {
    if v < i32::MIN {
        i32::MIN
    } else if v > i32::MAX {
        i32::MAX
    } else {
        v as i32
    }
}

/// The new canvas rect that resizes an `old_w × old_h` canvas to
/// `width × height` with the old content pinned at `anchor`.
pub open spec fn resize_rect(old_w: u32, old_h: u32, width: u32, height: u32, anchor: Anchor) -> Rect {
    let t = anchor_thirds(anchor);
    let dx = half_toward_zero((width - old_w) * t.0);
    let dy = half_toward_zero((height - old_h) * t.1);
    Rect { x: clamp_i32(-dx), y: clamp_i32(-dy), width, height }
}

/// Where a resize pins the old content: the first word of an anchor's name
/// places it vertically and the last horizontally. Top anchors keep the old
/// top edge at the new top (`y == 0`), bottom anchors the old bottom edge at
/// the new bottom (`y == old_h - height`, where that fits in `i32`), and the
/// middle row centres it, half the difference in height rounded toward
/// zero; left, right and centre columns do the same horizontally. The new
/// canvas has the requested size.
pub proof fn lemma_resize_pins_content(old_w: u32, old_h: u32, width: u32, height: u32, anchor: Anchor)
    ensures
        resize_rect(old_w, old_h, width, height, anchor).width == width,
        resize_rect(old_w, old_h, width, height, anchor).height == height,
        anchor == Anchor::TopLeft || anchor == Anchor::Top || anchor == Anchor::TopRight
            ==> resize_rect(old_w, old_h, width, height, anchor).y == 0,
        anchor == Anchor::Left || anchor == Anchor::Center || anchor == Anchor::Right
            ==> resize_rect(old_w, old_h, width, height, anchor).y == if height >= old_h {
            -((height - old_h) / 2)
        } else {
            (old_h - height) / 2
        },
        anchor == Anchor::BottomLeft || anchor == Anchor::Bottom || anchor == Anchor::BottomRight
            ==> (i32::MIN <= old_h - height <= i32::MAX ==> resize_rect(
            old_w,
            old_h,
            width,
            height,
            anchor,
        ).y == old_h - height),
        anchor == Anchor::TopLeft || anchor == Anchor::Left || anchor == Anchor::BottomLeft
            ==> resize_rect(old_w, old_h, width, height, anchor).x == 0,
        anchor == Anchor::Top || anchor == Anchor::Center || anchor == Anchor::Bottom
            ==> resize_rect(old_w, old_h, width, height, anchor).x == if width >= old_w {
            -((width - old_w) / 2)
        } else {
            (old_w - width) / 2
        },
        anchor == Anchor::TopRight || anchor == Anchor::Right || anchor == Anchor::BottomRight
            ==> (i32::MIN <= old_w - width <= i32::MAX ==> resize_rect(
            old_w,
            old_h,
            width,
            height,
            anchor,
        ).x == old_w - width),
{
    let dw = width - old_w;
    let dh = height - old_h;
    assert(dw * 0 == 0 && dh * 0 == 0 && dw * 1 == dw && dh * 1 == dh && dw * 2 == 2 * dw && dh * 2
        == 2 * dh) by (nonlinear_arith);
    assert(half_toward_zero(0) == 0);
    assert(half_toward_zero(2 * dw) == dw);
    assert(half_toward_zero(2 * dh) == dh);
}

/// Re-frame the canvas to `rect` (old sprite coordinates).
#[derive(Debug)]
pub struct ReframeCanvas {
    pub rect: Rect,
    /// What a successful `apply` replaced.
    pub prior: Option<Prior>,
}

/// A rect moved by `(dx, dy)`.
pub open spec fn shifted_rect(r: Rect, dx: int, dy: int) -> Rect {
    Rect { x: (r.x + dx) as i32, y: (r.y + dy) as i32, width: r.width, height: r.height }
}

/// A slice key moved by `(dx, dy)`.
pub open spec fn shifted_key(k: SliceKey, dx: int, dy: int) -> SliceKey {
    SliceKey {
        frame: k.frame,
        bounds: shifted_rect(k.bounds, dx, dy),
        center: match k.center {
            Some(c) => Some(shifted_rect(c, dx, dy)),
            None => None,
        },
        pivot: match k.pivot {
            Some(p) => Some(((p.0 + dx) as i32, (p.1 + dy) as i32)),
            None => None,
        },
    }
}

/// A slice with every key moved by `(dx, dy)`.
pub open spec fn shifted_slice(s: SliceModel, dx: int, dy: int) -> SliceModel {
    SliceModel {
        id: s.id,
        name: s.name,
        color: s.color,
        keys: s.keys.map_values(|k: SliceKey| shifted_key(k, dx, dy)),
    }
}

/// `out` is the cel `c` of a `w × h` canvas re-framed to `rect`: an RGBA
/// image becomes a `rect`-sized image at the origin (keeping its opacity)
/// showing the part of the old canvas under `rect`; any other cel keeps its
/// data and moves by the frame offset.
pub open spec fn is_reframed_cel(c: CelModel, w: u32, h: u32, rect: Rect, out: CelModel) -> bool {
    if rgba_cel(c) {
        &&& out.layer == c.layer
        &&& out.frame == c.frame
        &&& out.position == (0i32, 0i32)
        &&& out.opacity == c.opacity
        &&& out.data is Image
        &&& out.data->Image_0.width == rect.width
        &&& out.data->Image_0.height == rect.height
        &&& out.data->Image_0.color_mode == ColorMode::Rgba
        &&& out.data->Image_0.data.len() == rect.width * rect.height * 4
        &&& forall|x: int, y: int|
            0 <= x < rect.width && 0 <= y < rect.height ==> #[trigger] pixel_at(
                out.data->Image_0.data,
                rect.width as int,
                x,
                y,
            ) == if 0 <= x + rect.x < w && 0 <= y + rect.y < h {
                canvas_px(c.position, c.data->Image_0, x + rect.x, y + rect.y)
            } else {
                transparent_spec()
            }
    } else {
        out == CelModel {
            position: (clamp_i32(c.position.0 - rect.x), clamp_i32(c.position.1 - rect.y)),
            ..c
        }
    }
}

/// The cel [`is_reframed_cel`] describes: it is unique.
pub open spec fn reframed_cel(c: CelModel, w: u32, h: u32, rect: Rect) -> CelModel {
    choose|o: CelModel| is_reframed_cel(c, w, h, rect, o)
}

/// The cels of a reframe.
pub open spec fn reframed_cels(cels: CelsModel, w: u32, h: u32, rect: Rect) -> CelsModel {
    Map::new(|k: CelKey| cels.contains_key(k), |k: CelKey| reframed_cel(cels[k], w, h, rect))
}

/// [`reframed_cel`] names the one cel [`is_reframed_cel`] allows.
pub proof fn lemma_reframed_cel(c: CelModel, w: u32, h: u32, rect: Rect, o: CelModel)
    requires
        is_reframed_cel(c, w, h, rect, o),
    ensures
        reframed_cel(c, w, h, rect) == o,
{
    let m = reframed_cel(c, w, h, rect);
    assert(is_reframed_cel(c, w, h, rect, m));
    if rgba_cel(c) {
        assert forall|x: int, y: int| 0 <= x < rect.width && 0 <= y < rect.height implies #[trigger] pixel_at(
            m.data->Image_0.data,
            rect.width as int,
            x,
            y,
        ) == pixel_at(o.data->Image_0.data, rect.width as int, x, y) by {}
        super::pixels::lemma_image_cel_unique(m, o, rect.width as int, rect.height as int);
    }
}

/// Cels that each are the reframe of the cel under the same key are
/// [`reframed_cels`].
pub proof fn lemma_reframed_cels(cels: CelsModel, out: CelsModel, w: u32, h: u32, rect: Rect)
    requires
        out.dom() == cels.dom(),
        forall|k: CelKey| #[trigger] cels.contains_key(k) ==> is_reframed_cel(cels[k], w, h, rect, out[k]),
    ensures
        reframed_cels(cels, w, h, rect) == out,
{
    assert forall|k: CelKey| #[trigger] cels.contains_key(k) implies reframed_cel(cels[k], w, h, rect) == out[k] by {
        lemma_reframed_cel(cels[k], w, h, rect, out[k]);
    }
    assert(reframed_cels(cels, w, h, rect) =~= out);
}

/// Move a slice's keys by `(dx, dy)`.
fn shift_slice(s: &Slice, dx: i64, dy: i64) -> (o: Slice)
    requires
        i32::MIN <= -dx <= i32::MAX,
        i32::MIN <= -dy <= i32::MAX,
    ensures
        o@ == shifted_slice(s@, dx as int, dy as int),
{
    let mut o = s.clone();
    let ghost s0 = s@;
    let mut ki: usize = 0;
    while ki < o.keys.len()
        invariant
            ki <= o.keys@.len(),
            i32::MIN <= -dx <= i32::MAX,
            i32::MIN <= -dy <= i32::MAX,
            o@.id == s0.id,
            o@.name == s0.name,
            o@.color == s0.color,
            o.keys@.len() == s0.keys.len(),
            forall|j: int| 0 <= j < ki ==> #[trigger] o.keys@[j] == shifted_key(s0.keys[j], dx as int, dy as int),
            forall|j: int| ki <= j < o.keys@.len() ==> #[trigger] o.keys@[j] == s0.keys[j],
        decreases o.keys@.len() - ki,
    {
        let k = o.keys[ki];
        let bounds = Rect::new((k.bounds.x as i64 + dx) as i32, (k.bounds.y as i64 + dy) as i32, k.bounds.width, k.bounds.height);
        let center = match k.center {
            Some(c) => Some(Rect::new((c.x as i64 + dx) as i32, (c.y as i64 + dy) as i32, c.width, c.height)),
            None => None,
        };
        let pivot = match k.pivot {
            Some(p) => Some(((p.0 as i64 + dx) as i32, (p.1 as i64 + dy) as i32)),
            None => None,
        };
        o.keys.set(ki, SliceKey { frame: k.frame, bounds, center, pivot });
        ki = ki + 1;
    }
    proof {
        assert(o.keys@ =~= s0.keys.map_values(|k: SliceKey| shifted_key(k, dx as int, dy as int)));
    }
    o
}

impl ReframeCanvas {
    /// The new canvas is `rect` of the old one.
    pub fn new(rect: Rect) -> (c: Self)
        ensures
            c.rect == rect,
            c.prior is None,
    {
        ReframeCanvas { rect, prior: None }
    }

    /// Resize the canvas to `width × height`, keeping the old content pinned
    /// at `anchor`.
    pub fn resize(old_w: u32, old_h: u32, width: u32, height: u32, anchor: Anchor) -> (c: Self)
        ensures
            c.rect == resize_rect(old_w, old_h, width, height, anchor),
            c.prior is None,
    {
        let (tx, ty) = anchor.thirds();
        let ddx = (width as i64 - old_w as i64) * tx;
        let ddy = (height as i64 - old_h as i64) * ty;
        let dx: i64 = if ddx >= 0 {
            ddx / 2
        } else {
            -((-ddx) / 2)
        };
        let dy: i64 = if ddy >= 0 {
            ddy / 2
        } else {
            -((-ddy) / 2)
        };
        let x: i32 = if -dx < i32::MIN as i64 {
            i32::MIN
        } else if -dx > i32::MAX as i64 {
            i32::MAX
        } else {
            (-dx) as i32
        };
        let y: i32 = if -dy < i32::MIN as i64 {
            i32::MIN
        } else if -dy > i32::MAX as i64 {
            i32::MAX
        } else {
            (-dy) as i32
        };
        ReframeCanvas::new(Rect::new(x, y, width, height))
    }
}

/// Whether a `w × h` RGBA raster fits in memory.
fn raster_fits(w: u32, h: u32) -> (b: bool)
    ensures
        b == (w * h * 4 <= usize::MAX),
{
    let w64 = w as u64;
    let h64 = h as u64;
    assert(w64 * h64 <= u64::MAX) by (nonlinear_arith)
        requires
            w64 <= u32::MAX,
            h64 <= u32::MAX,
    ;
    match (w64 * h64).checked_mul(4) {
        Some(n) => n <= usize::MAX as u64,
        None => false,
    }
}

/// `v` clamped to the `i32` range.
fn clamp_to_i32(v: i64) -> (r: i32)
    ensures
        r == clamp_i32(v as int),
{
    if v < i32::MIN as i64 {
        i32::MIN
    } else if v > i32::MAX as i64 {
        i32::MAX
    } else {
        v as i32
    }
}

impl Command for ReframeCanvas {
    open spec fn fits(&self, doc: SpriteModel) -> bool {
        &&& doc.width * doc.height * 4 <= usize::MAX
        &&& self.rect.width * self.rect.height * 4 <= usize::MAX
    }

    fn fits_doc(&self, doc: &Sprite) -> (b: bool) {
        raster_fits(doc.width, doc.height) && raster_fits(self.rect.width, self.rect.height)
    }

    open spec fn inv(&self) -> bool {
        match self.prior {
            Some(p) => p.cels.wf() && cels_wf(p.cels@),
            None => true,
        }
    }

    open spec fn ready(&self) -> bool {
        true
    }

    fn is_ready(&self) -> (b: bool) {
        true
    }

    open spec fn applied_on(&self, doc: SpriteModel, cels: CelsModel) -> bool {
        self.prior is Some
    }

    open spec fn reverted(&self, doc: SpriteModel, cels: CelsModel) -> (SpriteModel, CelsModel) {
        match self.prior {
            Some(p) => (restored(doc, p), p.cels@),
            None => (doc, cels),
        }
    }

    open spec fn fails_with(&self, doc: SpriteModel, cels: CelsModel, e: CommandError) -> bool {
        e == CommandError::EmptyRegion
    }

    open spec fn outcome(&self, doc: SpriteModel, cels: CelsModel) -> (SpriteModel, CelsModel) {
        let rect = self.rect;
        (
            SpriteModel {
                width: rect.width,
                height: rect.height,
                slices: doc.slices.map_values(|s: SliceModel| shifted_slice(s, -rect.x, -rect.y)),
                selection: None,
                ..doc
            },
            reframed_cels(cels, doc.width, doc.height, rect),
        )
    }

    open spec fn reverts_to(&self, back: Self, doc: SpriteModel, cels: CelsModel) -> bool {
        back.rect == self.rect
    }

    open spec fn succeeds_on(&self, doc: SpriteModel, cels: CelsModel) -> bool {
        !rect_is_empty(self.rect)
    }

    fn apply(&mut self, doc: &mut Sprite, cels: &mut CelMap) -> (r: Result<(), CommandError>)
        ensures
            r is Err ==> *final(self) == *old(self),
            match r {
                Ok(_) => {
                    let w = old(doc)@.width;
                    let h = old(doc)@.height;
                    let rect = old(self).rect;
                    &&& !rect_is_empty(rect)
                    &&& final(doc)@ == SpriteModel {
                        width: rect.width,
                        height: rect.height,
                        slices: old(doc)@.slices.map_values(
                            |s: SliceModel| shifted_slice(s, -rect.x, -rect.y),
                        ),
                        selection: None,
                        ..old(doc)@
                    }
                    &&& final(cels)@.dom() == old(cels)@.dom()
                    &&& forall|k: CelKey| #[trigger]
                        old(cels)@.contains_key(k) ==> is_reframed_cel(
                            old(cels)@[k],
                            w,
                            h,
                            rect,
                            final(cels)@[k],
                        )
                },
                Err(e) => rect_is_empty(old(self).rect) && e == CommandError::EmptyRegion,
            },
    {
        let rect = self.rect;
        if rect.is_empty() {
            return Err(CommandError::EmptyRegion);
        }
        let ghost d0 = doc@;
        let ghost c0 = cels@;
        let w = doc.width;
        let h = doc.height;
        let dx = -(rect.x as i64);
        let dy = -(rect.y as i64);
        let entries = cels.iter();
        proof {
            assert forall|j: int| 0 <= j < entries@.len() implies c0.contains_key(
                (#[trigger] entries@[j]).0,
            ) && c0[entries@[j].0] == entries@[j].1@ by {
                assert(cels@.contains_key(entries@[j].0));
            }
        }
        let mut new_cels = CelMap::new();
        let mut i: usize = 0;
        while i < entries.len()
            invariant
                i <= entries@.len(),
                cels@ == c0,
                doc@ == d0,
                w == d0.width,
                h == d0.height,
                dx == -rect.x,
                dy == -rect.y,
                super::doc_wf(d0, c0),
                w * h * 4 <= usize::MAX,
                rect.width * rect.height * 4 <= usize::MAX,
                forall|j: int|
                    0 <= j < entries@.len() ==> c0.contains_key((#[trigger] entries@[j]).0)
                        && c0[entries@[j].0] == entries@[j].1@,
                forall|k: CelKey| #[trigger] c0.contains_key(k) ==> has_key(entries@, k),
                new_cels.wf(),
                forall|k: CelKey|
                    #[trigger] new_cels@.contains_key(k) <==> exists|j: int|
                        0 <= j < i && (#[trigger] entries@[j]).0 == k,
                forall|k: CelKey| #[trigger]
                    new_cels@.contains_key(k) ==> is_reframed_cel(c0[k], w, h, rect, new_cels@[k]),
            decreases entries@.len() - i,
        {
            let entry = &entries[i];
            let cel = &entry.1;
            proof {
                assert(cel_wf(c0[entry.0]));
                assert(c0[entry.0] == cel@);
            }
            let out = match rgba_buffer(cel) {
                Some(buffer) => {
                    let src = cel_to_canvas(cel, buffer, w, h);
                    let mut raster = Raster::transparent(rect.width, rect.height);
                    let ghost r0 = raster;
                    raster.blit(&src, dx, dy);
                    let ghost r1 = raster;
                    let mut c = raster_to_cel(entry.0.0, entry.0.1, raster);
                    c.opacity = cel.opacity;
                    proof {
                        assert forall|x: int, y: int|
                            0 <= x < rect.width && 0 <= y < rect.height implies #[trigger] pixel_at(
                            r1.data@,
                            rect.width as int,
                            x,
                            y,
                        ) == if 0 <= x + rect.x < w && 0 <= y + rect.y < h {
                            canvas_px(cel@.position, cel@.data->Image_0, x + rect.x, y + rect.y)
                        } else {
                            transparent_spec()
                        } by {
                            assert(r1.px(x, y) == if 0 <= x - dx < src.width && 0 <= y - dy
                                < src.height {
                                src.px(x - dx, y - dy)
                            } else {
                                r0.px(x, y)
                            });
                        }
                    }
                    c
                },
                None => {
                    let mut c = cel.clone();
                    c.position = (
                        clamp_to_i32(cel.position.0 as i64 + dx),
                        clamp_to_i32(cel.position.1 as i64 + dy),
                    );
                    proof {
                        assert(c@ == CelModel {
                            position: (
                                clamp_i32(cel@.position.0 - rect.x),
                                clamp_i32(cel@.position.1 - rect.y),
                            ),
                            ..cel@
                        });
                    }
                    c
                },
            };
            let ghost n0 = new_cels@;
            new_cels.insert(out);
            proof {
                let k = entry.0;
                assert(k == (k.0, k.1));
                assert(out@.layer == k.0 && out@.frame == k.1);
                assert forall|k2: CelKey|
                    #[trigger] new_cels@.contains_key(k2) <==> exists|j: int|
                        0 <= j < i + 1 && (#[trigger] entries@[j]).0 == k2 by {
                    if new_cels@.contains_key(k2) && k2 != k {
                        assert(n0.contains_key(k2));
                    }
                    if exists|j: int| 0 <= j < i + 1 && (#[trigger] entries@[j]).0 == k2 {
                        let j = choose|j: int| 0 <= j < i + 1 && (#[trigger] entries@[j]).0 == k2;
                        if j < i {
                            assert(n0.contains_key(k2));
                        }
                    }
                }
                assert forall|k2: CelKey| #[trigger]
                    new_cels@.contains_key(k2) implies is_reframed_cel(
                    c0[k2],
                    w,
                    h,
                    rect,
                    new_cels@[k2],
                ) by {
                    if k2 != k {
                        assert(n0.contains_key(k2));
                    }
                }
            }
            i = i + 1;
        }
        proof {
            assert forall|k: CelKey| new_cels@.dom().contains(k) <==> c0.dom().contains(k) by {
                if c0.contains_key(k) {
                    assert(has_key(entries@, k));
                    let j = choose|j: int| 0 <= j < entries@.len() && #[trigger] entries@[j].0 == k;
                    assert(new_cels@.contains_key(k));
                }
                if new_cels@.contains_key(k) {
                    let j = choose|j: int| 0 <= j < i && (#[trigger] entries@[j]).0 == k;
                    assert(c0.contains_key(entries@[j].0));
                }
            }
            assert(new_cels@.dom() =~= c0.dom());
            assert forall|k: CelKey| #[trigger] new_cels@.contains_key(k) implies cel_wf(new_cels@[k])
                && new_cels@[k].layer == k.0 && new_cels@[k].frame == k.1 by {
                assert(is_reframed_cel(c0[k], w, h, rect, new_cels@[k]));
                assert(cel_wf(c0[k]));
            }
        }
        let mut new_slices: Vec<Slice> = Vec::new();
        let mut si: usize = 0;
        while si < doc.slices.len()
            invariant
                si <= doc.slices@.len(),
                doc@ == d0,
                dx == -rect.x,
                dy == -rect.y,
                new_slices@.len() == si,
                forall|j: int|
                    0 <= j < si ==> (#[trigger] new_slices@[j])@ == shifted_slice(
                        d0.slices[j],
                        -rect.x,
                        -rect.y,
                    ),
            decreases doc.slices@.len() - si,
        {
            let s = shift_slice(&doc.slices[si], dx, dy);
            new_slices.push(s);
            si = si + 1;
        }
        std::mem::swap(cels, &mut new_cels);
        std::mem::swap(&mut doc.slices, &mut new_slices);
        let selection = doc.selection.take();
        self.prior = Some(Prior { width: w, height: h, cels: new_cels, slices: new_slices, selection });
        doc.width = rect.width;
        doc.height = rect.height;
        proof {
            assert(doc@.slices =~= d0.slices.map_values(
                |s: SliceModel| shifted_slice(s, -rect.x, -rect.y),
            ));
            assert(new_slices@.map_values(|s: Slice| s@) =~= d0.slices);
            lemma_reframed_cels(old(cels)@, cels@, w, h, rect);
        }
        Ok(())
    }

    fn revert(&mut self, doc: &mut Sprite, cels: &mut CelMap)
        ensures
            forall|d: SpriteModel, c: CelsModel| #[trigger] final(self).reverted(d, c) == (d, c),
    {
        let p = match self.prior.take() {
            Some(p) => p,
            None => {
                return ;
            },
        };
        doc.width = p.width;
        doc.height = p.height;
        *cels = p.cels;
        doc.slices = p.slices;
        doc.selection = p.selection;
        proof {
            assert(doc@.tilesets == old(doc)@.tilesets);
        }
    }
}

} // verus!
