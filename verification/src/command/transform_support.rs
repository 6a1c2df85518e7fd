//! Shared pieces of the transform commands: the orientation and
//! interpolation choices, and the RGBA raster they operate on.
use vstd::prelude::*;
use vstd::string::StringSliceAdditionalSpecFns;

use super::pixels::lemma_pixel_after_write;
use super::pixels::in_cel;
use crate::document::cel::{
    lemma_pixel_in_bounds, pixel_at, pixel_offset, rgba_wf, with_pixel, CelDataModel, CelModel,
    PixelBufferModel,
};
use crate::document::{Cel, CelData, ColorMode, FrameIndex, LayerId, PixelBuffer};
use crate::document::color::transparent_spec;
use crate::document::Rgba;
use crate::geometry::{rect_has_point, rect_intersection, Rect};
use crate::text::str_eq;

verus! {

/// A lossless orientation change: a flip or a 90/180 rotation.
#[derive(Debug, Clone, Copy, PartialEq, Eq, Structural)]
pub enum Orientation {
    /// Mirror left-right.
    FlipHorizontal,
    /// Mirror top-bottom.
    FlipVertical,
    /// Rotate a quarter turn clockwise.
    Rotate90Cw,
    /// Rotate a quarter turn counter-clockwise.
    Rotate90Ccw,
    /// Rotate a half turn.
    Rotate180,
}

/// The stable wire name of each [`Orientation`].
pub open spec fn orientation_name(v: Orientation) -> &'static str {
    match v {
        Orientation::FlipHorizontal => "flip_horizontal",
        Orientation::FlipVertical => "flip_vertical",
        Orientation::Rotate90Cw => "rotate_90_cw",
        Orientation::Rotate90Ccw => "rotate_90_ccw",
        Orientation::Rotate180 => "rotate_180",
    }
}

/// Distinct orientations have distinct wire names, so
/// [`Orientation::from_name`] gives back the value whose name it is handed.
pub proof fn lemma_orientation_name_injective(a: Orientation, b: Orientation)
    requires
        orientation_name(a).spec_bytes() == orientation_name(b).spec_bytes(),
    ensures
        a == b,
{
    reveal_strlit("flip_horizontal");
    reveal_strlit("flip_vertical");
    reveal_strlit("rotate_90_cw");
    reveal_strlit("rotate_90_ccw");
    reveal_strlit("rotate_180");
    vstd::string::is_ascii_spec_bytes(orientation_name(a));
    vstd::string::is_ascii_spec_bytes(orientation_name(b));
    assert(vstd::string::is_ascii(orientation_name(a)));
    assert(vstd::string::is_ascii(orientation_name(b)));
    assert(orientation_name(a)@ =~= orientation_name(b)@) by {
        assert forall|i: int| 0 <= i < orientation_name(a)@.len() implies orientation_name(a)@[i] == orientation_name(b)@[i] by {
            assert(orientation_name(a).spec_bytes()[i] == orientation_name(b).spec_bytes()[i]);
            let ca = orientation_name(a)@[i];
            let cb = orientation_name(b)@[i];
            assert('\0' <= ca <= '\u{7f}');
            assert('\0' <= cb <= '\u{7f}');
            assert((ca as u8) as u32 == ca as u32);
            assert((cb as u8) as u32 == cb as u32);
            assert(orientation_name(a).spec_bytes().len() == orientation_name(a)@.len());
            assert(orientation_name(b).spec_bytes().len() == orientation_name(b)@.len());
            assert(orientation_name(a).spec_bytes()[i] == ca as u8);
            assert(orientation_name(b).spec_bytes()[i] == cb as u8);
            assert(ca as u32 == cb as u32);
        }
    }
}

impl Orientation {
    /// Stable wire name (used by the host API).
    pub fn name(self) -> (s: &'static str)
        ensures
            s == orientation_name(self),
    {
        match self {
            Orientation::FlipHorizontal => "flip_horizontal",
            Orientation::FlipVertical => "flip_vertical",
            Orientation::Rotate90Cw => "rotate_90_cw",
            Orientation::Rotate90Ccw => "rotate_90_ccw",
            Orientation::Rotate180 => "rotate_180",
        }
    }

    /// Parse a wire name produced by [`Orientation::name`].
    pub fn from_name(name: &str) -> (r: Option<Self>)
        ensures
            match r {
                Some(v) => name.spec_bytes() == orientation_name(v).spec_bytes(),
                None => forall|v: Orientation| name.spec_bytes() != #[trigger] orientation_name(v).spec_bytes(),
            },
    {
        if str_eq(name, "flip_horizontal") {
            return Some(Orientation::FlipHorizontal);
        }
        if str_eq(name, "flip_vertical") {
            return Some(Orientation::FlipVertical);
        }
        if str_eq(name, "rotate_90_cw") {
            return Some(Orientation::Rotate90Cw);
        }
        if str_eq(name, "rotate_90_ccw") {
            return Some(Orientation::Rotate90Ccw);
        }
        if str_eq(name, "rotate_180") {
            return Some(Orientation::Rotate180);
        }
        proof {
            assert forall|v: Orientation| name.spec_bytes() != #[trigger] orientation_name(v).spec_bytes() by {
                match v {
                    Orientation::FlipHorizontal => {},
                    Orientation::FlipVertical => {},
                    Orientation::Rotate90Cw => {},
                    Orientation::Rotate90Ccw => {},
                    Orientation::Rotate180 => {},
                }
            }
        }
        None
    }
}

/// Resampling filter used when scaling pixels.
#[derive(Debug, Clone, Copy, PartialEq, Eq, Structural)]
pub enum Interpolation {
    /// Nearest neighbour: no new colours, crisp pixel art.
    Nearest,
    /// Bilinear blend of the four nearest samples.
    Bilinear,
    /// Bicubic (Catmull-Rom) blend of the sixteen nearest samples.
    Bicubic,
}

/// The stable wire name of each [`Interpolation`].
pub open spec fn interpolation_name(v: Interpolation) -> &'static str {
    match v {
        Interpolation::Nearest => "nearest",
        Interpolation::Bilinear => "bilinear",
        Interpolation::Bicubic => "bicubic",
    }
}

/// Distinct filters have distinct wire names, so
/// [`Interpolation::from_name`] gives back the value whose name it is handed.
pub proof fn lemma_interpolation_name_injective(a: Interpolation, b: Interpolation)
    requires
        interpolation_name(a).spec_bytes() == interpolation_name(b).spec_bytes(),
    ensures
        a == b,
{
    reveal_strlit("nearest");
    reveal_strlit("bilinear");
    reveal_strlit("bicubic");
    vstd::string::is_ascii_spec_bytes(interpolation_name(a));
    vstd::string::is_ascii_spec_bytes(interpolation_name(b));
    assert(vstd::string::is_ascii(interpolation_name(a)));
    assert(vstd::string::is_ascii(interpolation_name(b)));
    assert(interpolation_name(a)@ =~= interpolation_name(b)@) by {
        assert forall|i: int| 0 <= i < interpolation_name(a)@.len() implies interpolation_name(a)@[i] == interpolation_name(b)@[i] by {
            assert(interpolation_name(a).spec_bytes()[i] == interpolation_name(b).spec_bytes()[i]);
            let ca = interpolation_name(a)@[i];
            let cb = interpolation_name(b)@[i];
            assert('\0' <= ca <= '\u{7f}');
            assert('\0' <= cb <= '\u{7f}');
            assert((ca as u8) as u32 == ca as u32);
            assert((cb as u8) as u32 == cb as u32);
            assert(interpolation_name(a).spec_bytes().len() == interpolation_name(a)@.len());
            assert(interpolation_name(b).spec_bytes().len() == interpolation_name(b)@.len());
            assert(interpolation_name(a).spec_bytes()[i] == ca as u8);
            assert(interpolation_name(b).spec_bytes()[i] == cb as u8);
            assert(ca as u32 == cb as u32);
            assert(ca as u32 == cb as u32);
        }
    }
}

impl Interpolation {
    /// Stable wire name (used by the host API).
    pub fn name(self) -> (s: &'static str)
        ensures
            s == interpolation_name(self),
    {
        match self {
            Interpolation::Nearest => "nearest",
            Interpolation::Bilinear => "bilinear",
            Interpolation::Bicubic => "bicubic",
        }
    }

    /// Parse a wire name produced by [`Interpolation::name`].
    pub fn from_name(name: &str) -> (r: Option<Self>)
        ensures
            match r {
                Some(v) => name.spec_bytes() == interpolation_name(v).spec_bytes(),
                None => forall|v: Interpolation| name.spec_bytes() != #[trigger] interpolation_name(v).spec_bytes(),
            },
    {
        if str_eq(name, "nearest") {
            return Some(Interpolation::Nearest);
        }
        if str_eq(name, "bilinear") {
            return Some(Interpolation::Bilinear);
        }
        if str_eq(name, "bicubic") {
            return Some(Interpolation::Bicubic);
        }
        proof {
            assert forall|v: Interpolation| name.spec_bytes() != #[trigger] interpolation_name(v).spec_bytes() by {
                match v {
                    Interpolation::Nearest => {},
                    Interpolation::Bilinear => {},
                    Interpolation::Bicubic => {},
                }
            }
        }
        None
    }
}

impl Default for Interpolation {
    fn default() -> (v: Self)
        ensures
            v == Interpolation::Nearest,
    {
        Interpolation::Nearest
    }
}


/// A plain `w × h` RGBA8 raster used as the transform working format.
#[derive(Debug, Clone, PartialEq, Eq)]
pub struct Raster {
    pub width: u32,
    pub height: u32,
    pub data: Vec<u8>,
}

/// The colour of a 4-byte pixel.
pub open spec fn px_rgba(p: [u8; 4]) -> Rgba {
    Rgba { r: p[0], g: p[1], b: p[2], a: p[3] }
}

/// `new` is the `w × h` raster `old` with each pixel `(x, y)` for which `f`
/// gives `Some(c)` replaced by `c`.
pub open spec fn overlaid(
    old: Seq<u8>,
    new: Seq<u8>,
    w: int,
    h: int,
    f: spec_fn(int, int) -> Option<Rgba>,
) -> bool {
    &&& new.len() == old.len()
    &&& forall|x: int, y: int|
        0 <= x < w && 0 <= y < h ==> #[trigger] pixel_at(new, w, x, y) == match f(x, y) {
            Some(c) => c,
            None => pixel_at(old, w, x, y),
        }
}

/// Nothing overlaid yet.
proof fn lemma_overlaid_none(old: Seq<u8>, w: int, h: int)
    ensures
        overlaid(old, old, w, h, |x: int, y: int| None),
{
}

/// Writing one more pixel overlays it too.
proof fn lemma_overlaid_step(
    old: Seq<u8>,
    cur: Seq<u8>,
    w: int,
    h: int,
    f: spec_fn(int, int) -> Option<Rgba>,
    x0: int,
    y0: int,
    c: Rgba,
    g: spec_fn(int, int) -> Option<Rgba>,
)
    requires
        overlaid(old, cur, w, h, f),
        old.len() == w * h * 4,
        0 <= x0 < w,
        0 <= y0 < h,
        forall|x: int, y: int|
            #[trigger] g(x, y) == if x == x0 && y == y0 {
                Some(c)
            } else {
                f(x, y)
            },
    ensures
        overlaid(old, with_pixel(cur, w, x0, y0, c), w, h, g),
{
    lemma_pixel_in_bounds(w, h, x0, y0);
    assert forall|x: int, y: int| 0 <= x < w && 0 <= y < h implies #[trigger] pixel_at(
        with_pixel(cur, w, x0, y0, c),
        w,
        x,
        y,
    ) == match g(x, y) {
        Some(c) => c,
        None => pixel_at(old, w, x, y),
    } by {
        lemma_pixel_after_write(cur, w, h, x0, y0, c, x, y);
        assert(pixel_at(cur, w, x, y) == match f(x, y) {
            Some(c) => c,
            None => pixel_at(old, w, x, y),
        });
    }
}

/// Two overlays that agree on every in-range pixel describe the same
/// raster.
proof fn lemma_overlaid_agree(
    old: Seq<u8>,
    cur: Seq<u8>,
    w: int,
    h: int,
    f: spec_fn(int, int) -> Option<Rgba>,
    g: spec_fn(int, int) -> Option<Rgba>,
)
    requires
        overlaid(old, cur, w, h, f),
        forall|x: int, y: int| 0 <= x < w && 0 <= y < h ==> #[trigger] f(x, y) == g(x, y),
    ensures
        overlaid(old, cur, w, h, g),
{
    assert forall|x: int, y: int| 0 <= x < w && 0 <= y < h implies #[trigger] pixel_at(
        cur,
        w,
        x,
        y,
    ) == match g(x, y) {
        Some(c) => c,
        None => pixel_at(old, w, x, y),
    } by {
        assert(f(x, y) == g(x, y));
    }
}

/// `true` for the two quarter turns, which swap width and height.
pub open spec fn swaps(op: Orientation) -> bool {
    op == Orientation::Rotate90Cw || op == Orientation::Rotate90Ccw
}

/// Width of a `w × h` raster after `op`.
pub open spec fn oriented_w(op: Orientation, w: int, h: int) -> int {
    if swaps(op) {
        h
    } else {
        w
    }
}

/// Height of a `w × h` raster after `op`.
pub open spec fn oriented_h(op: Orientation, w: int, h: int) -> int {
    if swaps(op) {
        w
    } else {
        h
    }
}

/// Where pixel `(x, y)` of a `w × h` raster lands under `op`.
pub open spec fn orient_to(op: Orientation, w: int, h: int, x: int, y: int) -> (int, int) {
    match op {
        Orientation::FlipHorizontal => (w - 1 - x, y),
        Orientation::FlipVertical => (x, h - 1 - y),
        Orientation::Rotate90Cw => (h - 1 - y, x),
        Orientation::Rotate90Ccw => (y, w - 1 - x),
        Orientation::Rotate180 => (w - 1 - x, h - 1 - y),
    }
}

/// The pixel of a `w × h` raster that lands on `(nx, ny)` under `op`.
pub open spec fn orient_from(op: Orientation, w: int, h: int, nx: int, ny: int) -> (int, int) {
    match op {
        Orientation::FlipHorizontal => (w - 1 - nx, ny),
        Orientation::FlipVertical => (nx, h - 1 - ny),
        Orientation::Rotate90Cw => (ny, h - 1 - nx),
        Orientation::Rotate90Ccw => (w - 1 - ny, nx),
        Orientation::Rotate180 => (w - 1 - nx, h - 1 - ny),
    }
}

/// `out` is `src` reoriented by `op`: its dimensions follow the turn and
/// every pixel comes from the source pixel that lands on it.
pub open spec fn is_oriented(src: Raster, op: Orientation, out: Raster) -> bool {
    &&& out.width == oriented_w(op, src.width as int, src.height as int)
    &&& out.height == oriented_h(op, src.width as int, src.height as int)
    &&& out.wf()
    &&& forall|nx: int, ny: int|
        0 <= nx < out.width && 0 <= ny < out.height ==> #[trigger] out.px(nx, ny) == src.px(
            orient_from(op, src.width as int, src.height as int, nx, ny).0,
            orient_from(op, src.width as int, src.height as int, nx, ny).1,
        )
}

/// Half of `d`, rounded toward zero.
pub open spec fn half_toward_zero(d: int) -> int {
    if d >= 0 {
        d / 2
    } else {
        -((-d) / 2)
    }
}

/// `(x, y)` falls on a `w × h` raster placed at `(ox, oy)`.
pub open spec fn placed_in(w: int, h: int, ox: int, oy: int, x: int, y: int) -> bool {
    &&& 0 <= x - ox < w
    &&& 0 <= y - oy < h
}

/// The pixel at `(x, y)` of the image `src` after the part of it inside `r` is
/// reoriented by `op` about the centre of `r`: what a quarter turn of a
/// non-square `r` pushes outside `r` is dropped, and what it leaves
/// uncovered inside `r` becomes transparent.
pub open spec fn reoriented_px(
    src: spec_fn(int, int) -> Rgba,
    r: Rect,
    op: Orientation,
    x: int,
    y: int,
) -> Rgba {
    if rect_has_point(r, x, y) {
        let ow = oriented_w(op, r.width as int, r.height as int);
        let oh = oriented_h(op, r.width as int, r.height as int);
        let ox = r.x + half_toward_zero(r.width - ow);
        let oy = r.y + half_toward_zero(r.height - oh);
        if placed_in(ow, oh, ox, oy, x, y) {
            let s = orient_from(op, r.width as int, r.height as int, x - ox, y - oy);
            src(r.x + s.0, r.y + s.1)
        } else {
            transparent_spec()
        }
    } else {
        src(x, y)
    }
}

/// Byte offsets of in-range pixels fit the buffer and `usize`.
proof fn lemma_index_fits(w: int, h: int, x: int, y: int, len: int)
    requires
        0 <= x < w,
        0 <= y < h,
        len == w * h * 4,
    ensures
        0 <= y * w,
        y * w + x < w * h,
        (y * w + x) * 4 + 4 <= len,
{
    lemma_pixel_in_bounds(w, h, x, y);
    assert(0 <= y * w) by (nonlinear_arith)
        requires
            0 <= y,
            0 <= w,
    ;
}

impl Raster {
    /// The byte count matches the dimensions.
    pub open spec fn wf(&self) -> bool {
        self.data@.len() == self.width * self.height * 4
    }

    /// The pixel at `(x, y)`.
    pub open spec fn px(&self, x: int, y: int) -> Rgba {
        pixel_at(self.data@, self.width as int, x, y)
    }

    /// A fully transparent `width × height` raster.
    pub fn transparent(width: u32, height: u32) -> (r: Self)
        requires
            width * height * 4 <= usize::MAX,
        ensures
            r.width == width,
            r.height == height,
            r.wf(),
            forall|x: int, y: int|
                0 <= x < width && 0 <= y < height ==> #[trigger] r.px(x, y) == transparent_spec(),
    {
        assert(width * height <= width * height * 4) by (nonlinear_arith);
        let n = (width as usize) * (height as usize) * 4;
        let data = vec![0u8; n];
        let r = Raster { width, height, data };
        proof {
            assert forall|x: int, y: int|
                0 <= x < width && 0 <= y < height implies #[trigger] r.px(x, y)
                == transparent_spec() by {
                lemma_pixel_in_bounds(width as int, height as int, x, y);
            }
        }
        r
    }

    /// The 4 bytes of the pixel at `(x, y)`.
    pub fn get(&self, x: u32, y: u32) -> (p: [u8; 4])
        requires
            self.wf(),
            x < self.width,
            y < self.height,
        ensures
            px_rgba(p) == self.px(x as int, y as int),
    {
        let len = self.data.len();
        proof {
            lemma_index_fits(self.width as int, self.height as int, x as int, y as int, len as int);
        }
        let i = ((y as usize) * (self.width as usize) + (x as usize)) * 4;
        [self.data[i], self.data[i + 1], self.data[i + 2], self.data[i + 3]]
    }

    /// Overwrite the pixel at `(x, y)`.
    pub fn put(&mut self, x: u32, y: u32, p: [u8; 4])
        requires
            old(self).wf(),
            x < old(self).width,
            y < old(self).height,
        ensures
            final(self).width == old(self).width,
            final(self).height == old(self).height,
            final(self).wf(),
            final(self).data@ == with_pixel(
                old(self).data@,
                old(self).width as int,
                x as int,
                y as int,
                px_rgba(p),
            ),
    {
        let len = self.data.len();
        proof {
            lemma_index_fits(self.width as int, self.height as int, x as int, y as int, len as int);
        }
        let i = ((y as usize) * (self.width as usize) + (x as usize)) * 4;
        self.data.set(i, p[0]);
        self.data.set(i + 1, p[1]);
        self.data.set(i + 2, p[2]);
        self.data.set(i + 3, p[3]);
    }

    /// Copy `src` raw at `(ox, oy)`, clipped to `self`.
    pub fn blit(&mut self, src: &Raster, ox: i64, oy: i64)
        requires
            old(self).wf(),
            src.wf(),
            ox + src.width <= i64::MAX,
            oy + src.height <= i64::MAX,
        ensures
            final(self).width == old(self).width,
            final(self).height == old(self).height,
            final(self).wf(),
            forall|x: int, y: int|
                0 <= x < old(self).width && 0 <= y < old(self).height ==> #[trigger] final(self).px(
                    x,
                    y,
                ) == if 0 <= x - ox < src.width && 0 <= y - oy < src.height {
                    src.px(x - ox, y - oy)
                } else {
                    old(self).px(x, y)
                },
    {
        let ghost d0 = self.data@;
        let ghost w = self.width as int;
        let ghost h = self.height as int;
        let ghost placed = |x: int, y: int, lim: int|
            if 0 <= x - ox < src.width && 0 <= y - oy < src.height && (y - oy) * src.width + (x
                - ox) < lim {
                Some(src.px(x - ox, y - oy))
            } else {
                None
            };
        proof {
            lemma_overlaid_none(d0, w, h);
            lemma_overlaid_agree(d0, d0, w, h, |x: int, y: int| None, |x: int, y: int| placed(x, y, 0));
        }
        let mut sy: u32 = 0;
        while sy < src.height
            invariant
                sy <= src.height,
                self.width == w,
                self.height == h,
                self.wf(),
                src.wf(),
                d0.len() == w * h * 4,
                ox + src.width <= i64::MAX,
                oy + src.height <= i64::MAX,
                placed == (|x: int, y: int, lim: int|
                    if 0 <= x - ox < src.width && 0 <= y - oy < src.height && (y - oy) * src.width
                        + (x - ox) < lim {
                        Some(src.px(x - ox, y - oy))
                    } else {
                        None
                    }),
                overlaid(d0, self.data@, w, h, |x: int, y: int| placed(x, y, sy * src.width)),
            decreases src.height - sy,
        {
            let dy = oy + sy as i64;
            if 0 <= dy && dy < self.height as i64 {
                let mut sx: u32 = 0;
                while sx < src.width
                    invariant
                        sy < src.height,
                        sx <= src.width,
                        dy == oy + sy,
                        0 <= dy < h,
                        self.width == w,
                        self.height == h,
                        self.wf(),
                        src.wf(),
                        d0.len() == w * h * 4,
                        ox + src.width <= i64::MAX,
                        placed == (|x: int, y: int, lim: int|
                            if 0 <= x - ox < src.width && 0 <= y - oy < src.height && (y - oy)
                                * src.width + (x - ox) < lim {
                                Some(src.px(x - ox, y - oy))
                            } else {
                                None
                            }),
                        overlaid(
                            d0,
                            self.data@,
                            w,
                            h,
                            |x: int, y: int| placed(x, y, sy * src.width + sx),
                        ),
                    decreases src.width - sx,
                {
                    let dx = ox + sx as i64;
                    let ghost cur = self.data@;
                    let ghost f = |x: int, y: int| placed(x, y, sy * src.width + sx);
                    let ghost g = |x: int, y: int| placed(x, y, sy * src.width + sx + 1);
                    if 0 <= dx && dx < self.width as i64 {
                        let p = src.get(sx, sy);
                        self.put(dx as u32, dy as u32, p);
                        proof {
                            assert forall|x: int, y: int| #[trigger] g(x, y) == if x == dx && y == dy {
                                Some(px_rgba(p))
                            } else {
                                f(x, y)
                            } by {
                                if 0 <= x - ox < src.width && 0 <= y - oy < src.height {
                                    assert((y - oy) * src.width + (x - ox) == sy * src.width + sx
                                        <==> (x == dx && y == dy)) by (nonlinear_arith)
                                        requires
                                            0 <= x - ox < src.width,
                                            0 <= sx < src.width,
                                            0 <= y - oy,
                                            0 <= sy,
                                            dx == ox + sx,
                                            dy == oy + sy,
                                    ;
                                }
                            }
                            lemma_overlaid_step(d0, cur, w, h, f, dx as int, dy as int, px_rgba(p), g);
                        }
                    } else {
                        proof {
                            assert forall|x: int, y: int| 0 <= x < w && 0 <= y < h implies #[trigger] f(
                                x,
                                y,
                            ) == g(x, y) by {
                                if 0 <= x - ox < src.width && 0 <= y - oy < src.height {
                                    assert((y - oy) * src.width + (x - ox) == sy * src.width + sx
                                        ==> (x == dx && y == dy)) by (nonlinear_arith)
                                        requires
                                            0 <= x - ox < src.width,
                                            0 <= sx < src.width,
                                            0 <= y - oy,
                                            0 <= sy,
                                            dx == ox + sx,
                                            dy == oy + sy,
                                    ;
                                }
                            }
                            lemma_overlaid_agree(d0, cur, w, h, f, g);
                        }
                    }
                    sx = sx + 1;
                }
                proof {
                    assert(sy * src.width + src.width == (sy + 1) * src.width) by (nonlinear_arith);
                }
            } else {
                proof {
                    let f = |x: int, y: int| placed(x, y, sy * src.width);
                    let g = |x: int, y: int| placed(x, y, (sy + 1) * src.width);
                    assert forall|x: int, y: int| 0 <= x < w && 0 <= y < h implies #[trigger] f(x, y)
                        == g(x, y) by {
                        if 0 <= x - ox < src.width && 0 <= y - oy < src.height {
                            assert(y != dy);
                            assert(((y - oy) * src.width + (x - ox) < (sy + 1) * src.width)
                                == ((y - oy) * src.width + (x - ox) < sy * src.width))
                                by (nonlinear_arith)
                                requires
                                    0 <= x - ox < src.width,
                                    0 <= y - oy,
                                    y - oy != sy,
                            ;
                        }
                    }
                    lemma_overlaid_agree(d0, self.data@, w, h, f, g);
                }
            }
            sy = sy + 1;
        }
        proof {
            let f = |x: int, y: int| placed(x, y, sy * src.width);
            assert forall|x: int, y: int| 0 <= x < w && 0 <= y < h implies #[trigger] self.px(x, y)
                == if 0 <= x - ox < src.width && 0 <= y - oy < src.height {
                src.px(x - ox, y - oy)
            } else {
                pixel_at(d0, w, x, y)
            } by {
                assert(pixel_at(self.data@, w, x, y) == match f(x, y) {
                    Some(c) => c,
                    None => pixel_at(d0, w, x, y),
                });
                if 0 <= x - ox < src.width && 0 <= y - oy < src.height {
                    assert((y - oy) * src.width + (x - ox) < sy * src.width) by (nonlinear_arith)
                        requires
                            0 <= x - ox < src.width,
                            0 <= y - oy < src.height,
                            sy == src.height,
                    ;
                }
            }
        }
    }

    /// Sub-rectangle copy (`rect` must lie inside `self`).
    pub fn crop(&self, rect: Rect) -> (out: Raster)
        requires
            self.wf(),
            0 <= rect.x,
            0 <= rect.y,
            rect.x + rect.width <= self.width,
            rect.y + rect.height <= self.height,
        ensures
            out.width == rect.width,
            out.height == rect.height,
            out.wf(),
            forall|x: int, y: int|
                0 <= x < rect.width && 0 <= y < rect.height ==> #[trigger] out.px(x, y) == self.px(
                    rect.x + x,
                    rect.y + y,
                ),
    {
        let len = self.data.len();
        proof {
            assert(rect.width * rect.height * 4 <= self.width * self.height * 4) by (nonlinear_arith)
                requires
                    rect.width <= self.width,
                    rect.height <= self.height,
            ;
        }
        let mut out = Raster::transparent(rect.width, rect.height);
        let ghost o0 = out.data@;
        let ghost rw = rect.width as int;
        let ghost rh = rect.height as int;
        let ghost src = |x: int, y: int, yy: int, xx: int|
            if y < yy || (y == yy && x < xx) {
                Some(self.px(rect.x + x, rect.y + y))
            } else {
                None
            };
        proof {
            lemma_overlaid_agree(o0, o0, rw, rh, |x: int, y: int| None, |x: int, y: int| src(x, y, 0, 0));
        }
        let mut y: u32 = 0;
        while y < rect.height
            invariant
                y <= rect.height,
                self.wf(),
                0 <= rect.x,
                0 <= rect.y,
                rect.x + rect.width <= self.width,
                rect.y + rect.height <= self.height,
                rw == rect.width,
                rh == rect.height,
                out.width == rw,
                out.height == rh,
                out.wf(),
                o0.len() == rw * rh * 4,
                src == (|x: int, y: int, yy: int, xx: int|
                    if y < yy || (y == yy && x < xx) {
                        Some(self.px(rect.x + x, rect.y + y))
                    } else {
                        None
                    }),
                overlaid(o0, out.data@, rw, rh, |px: int, py: int| src(px, py, y as int, 0)),
            decreases rect.height - y,
        {
            let mut x: u32 = 0;
            while x < rect.width
                invariant
                    y < rect.height,
                    x <= rect.width,
                    self.wf(),
                    0 <= rect.x,
                    0 <= rect.y,
                    rect.x + rect.width <= self.width,
                    rect.y + rect.height <= self.height,
                    rw == rect.width,
                    rh == rect.height,
                    out.width == rw,
                    out.height == rh,
                    out.wf(),
                    o0.len() == rw * rh * 4,
                    src == (|x: int, y: int, yy: int, xx: int|
                        if y < yy || (y == yy && x < xx) {
                            Some(self.px(rect.x + x, rect.y + y))
                        } else {
                            None
                        }),
                    overlaid(o0, out.data@, rw, rh, |px: int, py: int| src(px, py, y as int, x as int)),
                decreases rect.width - x,
            {
                let p = self.get(rect.x as u32 + x, rect.y as u32 + y);
                let ghost cur = out.data@;
                out.put(x, y, p);
                proof {
                    lemma_overlaid_step(
                        o0,
                        cur,
                        rw,
                        rh,
                        |px: int, py: int| src(px, py, y as int, x as int),
                        x as int,
                        y as int,
                        px_rgba(p),
                        |px: int, py: int| src(px, py, y as int, x + 1),
                    );
                }
                x = x + 1;
            }
            proof {
                lemma_overlaid_agree(
                    o0,
                    out.data@,
                    rw,
                    rh,
                    |px: int, py: int| src(px, py, y as int, rw),
                    |px: int, py: int| src(px, py, y + 1, 0),
                );
            }
            y = y + 1;
        }
        proof {
            assert forall|x: int, y: int| 0 <= x < rect.width && 0 <= y < rect.height implies #[trigger] out.px(x, y)
                == self.px(rect.x + x, rect.y + y) by {
                assert(pixel_at(out.data@, rw, x, y) == match src(x, y, rh, 0) {
                    Some(c) => c,
                    None => pixel_at(o0, rw, x, y),
                });
            }
        }
        out
    }

    /// Fill `rect` (clipped) with transparent black.
    pub fn clear(&mut self, rect: Rect)
        requires
            old(self).wf(),
        ensures
            final(self).width == old(self).width,
            final(self).height == old(self).height,
            final(self).wf(),
            forall|x: int, y: int|
                0 <= x < old(self).width && 0 <= y < old(self).height ==> #[trigger] final(self).px(
                    x,
                    y,
                ) == if rect_has_point(rect, x, y) {
                    transparent_spec()
                } else {
                    old(self).px(x, y)
                },
    {
        let r = rect.intersect(Rect::new(0, 0, self.width, self.height));
        let ghost d0 = self.data@;
        let ghost w = self.width as int;
        let ghost h = self.height as int;
        let ghost cl = |x: int, y: int, yy: int, xx: int|
            if rect_has_point(r, x, y) && (y - r.y < yy || (y - r.y == yy && x - r.x < xx)) {
                Some(transparent_spec())
            } else {
                None
            };
        proof {
            lemma_overlaid_agree(d0, d0, w, h, |x: int, y: int| None, |x: int, y: int| cl(x, y, 0, 0));
        }
        let mut yy: u32 = 0;
        while yy < r.height
            invariant
                yy <= r.height,
                r == rect_intersection(rect, Rect { x: 0, y: 0, width: w as u32, height: h as u32 }),
                self.width == w,
                self.height == h,
                self.wf(),
                d0.len() == w * h * 4,
                cl == (|x: int, y: int, yy: int, xx: int|
                    if rect_has_point(r, x, y) && (y - r.y < yy || (y - r.y == yy && x - r.x < xx)) {
                        Some(transparent_spec())
                    } else {
                        None
                    }),
                overlaid(d0, self.data@, w, h, |px: int, py: int| cl(px, py, yy as int, 0)),
            decreases r.height - yy,
        {
            let mut xx: u32 = 0;
            while xx < r.width
                invariant
                    yy < r.height,
                    xx <= r.width,
                    r == rect_intersection(rect, Rect { x: 0, y: 0, width: w as u32, height: h as u32 }),
                    self.width == w,
                    self.height == h,
                    self.wf(),
                    d0.len() == w * h * 4,
                    cl == (|x: int, y: int, yy: int, xx: int|
                        if rect_has_point(r, x, y) && (y - r.y < yy || (y - r.y == yy && x - r.x < xx)) {
                            Some(transparent_spec())
                        } else {
                            None
                        }),
                    overlaid(d0, self.data@, w, h, |px: int, py: int| cl(px, py, yy as int, xx as int)),
                decreases r.width - xx,
            {
                let ghost cur = self.data@;
                self.put(r.x as u32 + xx, r.y as u32 + yy, [0u8, 0u8, 0u8, 0u8]);
                proof {
                    lemma_overlaid_step(
                        d0,
                        cur,
                        w,
                        h,
                        |px: int, py: int| cl(px, py, yy as int, xx as int),
                        r.x + xx,
                        r.y + yy,
                        transparent_spec(),
                        |px: int, py: int| cl(px, py, yy as int, xx + 1),
                    );
                }
                xx = xx + 1;
            }
            proof {
                lemma_overlaid_agree(
                    d0,
                    self.data@,
                    w,
                    h,
                    |px: int, py: int| cl(px, py, yy as int, r.width as int),
                    |px: int, py: int| cl(px, py, yy + 1, 0),
                );
            }
            yy = yy + 1;
        }
        proof {
            assert forall|x: int, y: int| 0 <= x < w && 0 <= y < h implies #[trigger] self.px(x, y)
                == if rect_has_point(rect, x, y) {
                transparent_spec()
            } else {
                pixel_at(d0, w, x, y)
            } by {
                assert(pixel_at(self.data@, w, x, y) == match cl(x, y, r.height as int, 0) {
                    Some(c) => c,
                    None => pixel_at(d0, w, x, y),
                });
            }
        }
    }
}

impl Raster {
    /// Reoriented copy. Quarter turns swap the dimensions.
    pub fn oriented(&self, op: Orientation) -> (out: Raster)
        requires
            self.wf(),
        ensures
            is_oriented(*self, op, out),
    {
        let w = self.width;
        let h = self.height;
        let len = self.data.len();
        let (ow, oh) = if op.swaps_axes() {
            (h, w)
        } else {
            (w, h)
        };
        proof {
            assert(h * w * 4 == w * h * 4) by (nonlinear_arith);
        }
        let mut out = Raster::transparent(ow, oh);
        let ghost o0 = out.data@;
        let ghost done = |nx: int, ny: int, yy: int, xx: int|
            {
                let s = orient_from(op, w as int, h as int, nx, ny);
                if 0 <= s.0 < w && 0 <= s.1 < h && (s.1 < yy || (s.1 == yy && s.0 < xx)) {
                    Some(self.px(s.0, s.1))
                } else {
                    None
                }
            };
        proof {
            lemma_overlaid_agree(
                o0,
                o0,
                ow as int,
                oh as int,
                |x: int, y: int| None,
                |x: int, y: int| done(x, y, 0, 0),
            );
        }
        let mut y: u32 = 0;
        while y < h
            invariant
                y <= h,
                w == self.width,
                h == self.height,
                self.wf(),
                ow == oriented_w(op, w as int, h as int),
                oh == oriented_h(op, w as int, h as int),
                out.width == ow,
                out.height == oh,
                out.wf(),
                o0.len() == ow * oh * 4,
                done == (|nx: int, ny: int, yy: int, xx: int|
                    {
                        let s = orient_from(op, w as int, h as int, nx, ny);
                        if 0 <= s.0 < w && 0 <= s.1 < h && (s.1 < yy || (s.1 == yy && s.0 < xx)) {
                            Some(self.px(s.0, s.1))
                        } else {
                            None
                        }
                    }),
                overlaid(o0, out.data@, ow as int, oh as int, |px: int, py: int| done(px, py, y as int, 0)),
            decreases h - y,
        {
            let mut x: u32 = 0;
            while x < w
                invariant
                    y < h,
                    x <= w,
                    w == self.width,
                    h == self.height,
                    self.wf(),
                    ow == oriented_w(op, w as int, h as int),
                    oh == oriented_h(op, w as int, h as int),
                    out.width == ow,
                    out.height == oh,
                    out.wf(),
                    o0.len() == ow * oh * 4,
                    done == (|nx: int, ny: int, yy: int, xx: int|
                        {
                            let s = orient_from(op, w as int, h as int, nx, ny);
                            if 0 <= s.0 < w && 0 <= s.1 < h && (s.1 < yy || (s.1 == yy && s.0 < xx)) {
                                Some(self.px(s.0, s.1))
                            } else {
                                None
                            }
                        }),
                    overlaid(
                        o0,
                        out.data@,
                        ow as int,
                        oh as int,
                        |px: int, py: int| done(px, py, y as int, x as int),
                    ),
                decreases w - x,
            {
                let (nx, ny) = match op {
                    Orientation::FlipHorizontal => (w - 1 - x, y),
                    Orientation::FlipVertical => (x, h - 1 - y),
                    Orientation::Rotate90Cw => (h - 1 - y, x),
                    Orientation::Rotate90Ccw => (y, w - 1 - x),
                    Orientation::Rotate180 => (w - 1 - x, h - 1 - y),
                };
                let p = self.get(x, y);
                let ghost cur = out.data@;
                out.put(nx, ny, p);
                proof {
                    let f = |px: int, py: int| done(px, py, y as int, x as int);
                    let g = |px: int, py: int| done(px, py, y as int, x + 1);
                    assert forall|px: int, py: int| #[trigger] g(px, py) == if px == nx && py == ny {
                        Some(px_rgba(p))
                    } else {
                        f(px, py)
                    } by {
                        let s = orient_from(op, w as int, h as int, px, py);
                        assert((s.0 == x && s.1 == y) <==> (px == nx && py == ny));
                    }
                    lemma_overlaid_step(o0, cur, ow as int, oh as int, f, nx as int, ny as int, px_rgba(p), g);
                }
                x = x + 1;
            }
            proof {
                lemma_overlaid_agree(
                    o0,
                    out.data@,
                    ow as int,
                    oh as int,
                    |px: int, py: int| done(px, py, y as int, w as int),
                    |px: int, py: int| done(px, py, y + 1, 0),
                );
            }
            y = y + 1;
        }
        proof {
            assert forall|nx: int, ny: int|
                0 <= nx < out.width && 0 <= ny < out.height implies #[trigger] out.px(nx, ny) == self.px(
                orient_from(op, w as int, h as int, nx, ny).0,
                orient_from(op, w as int, h as int, nx, ny).1,
            ) by {
                assert(pixel_at(out.data@, ow as int, nx, ny) == match done(nx, ny, h as int, 0) {
                    Some(c) => c,
                    None => pixel_at(o0, ow as int, nx, ny),
                });
            }
        }
        out
    }
}

impl Raster {
    /// Clip `src` placed at `(ox, oy)` to `bounds`, returning the clipped
    /// raster and its new placement.
    fn clip_to(src: &Raster, ox: i64, oy: i64, bounds: Rect) -> (r: (Raster, i64, i64))
        requires
            src.wf(),
            src.width <= i32::MAX,
            src.height <= i32::MAX,
            ox + src.width <= i64::MAX,
            oy + src.height <= i64::MAX,
        ensures
            r.0.wf(),
            r.1 + r.0.width <= i64::MAX,
            r.2 + r.0.height <= i64::MAX,
            forall|x: int, y: int|
                #[trigger] placed_in(r.0.width as int, r.0.height as int, r.1 as int, r.2 as int, x, y)
                    == (rect_has_point(bounds, x, y) && placed_in(
                    src.width as int,
                    src.height as int,
                    ox as int,
                    oy as int,
                    x,
                    y,
                )),
            forall|x: int, y: int|
                #[trigger] placed_in(r.0.width as int, r.0.height as int, r.1 as int, r.2 as int, x, y)
                    ==> r.0.px(x - r.1, y - r.2) == src.px(x - ox, y - oy),
    {
        let bx0 = bounds.x as i64;
        let by0 = bounds.y as i64;
        let bx1 = bx0 + bounds.width as i64;
        let by1 = by0 + bounds.height as i64;
        let x0 = if ox >= bx0 {
            ox
        } else {
            bx0
        };
        let y0 = if oy >= by0 {
            oy
        } else {
            by0
        };
        let x1 = if ox + (src.width as i64) <= bx1 {
            ox + src.width as i64
        } else {
            bx1
        };
        let y1 = if oy + (src.height as i64) <= by1 {
            oy + src.height as i64
        } else {
            by1
        };
        if x0 >= x1 || y0 >= y1 {
            return (Raster::transparent(0, 0), x0, y0);
        }
        let sub = src.crop(
            Rect::new((x0 - ox) as i32, (y0 - oy) as i32, (x1 - x0) as u32, (y1 - y0) as u32),
        );
        (sub, x0, y0)
    }

    /// Reorient the contents of `rect` about the rect's centre, in place.
    /// Pixels a quarter turn pushes outside a non-square `rect` are dropped;
    /// pixels outside `rect` are untouched.
    pub fn orient_region(&mut self, rect: Rect, op: Orientation)
        requires
            old(self).wf(),
            old(self).width <= i32::MAX,
            old(self).height <= i32::MAX,
        ensures
            final(self).width == old(self).width,
            final(self).height == old(self).height,
            final(self).wf(),
            forall|x: int, y: int|
                0 <= x < old(self).width && 0 <= y < old(self).height ==> #[trigger] final(self).px(
                    x,
                    y,
                ) == reoriented_px(
                    |px: int, py: int| old(self).px(px, py),
                    rect_intersection(
                        rect,
                        Rect { x: 0, y: 0, width: old(self).width, height: old(self).height },
                    ),
                    op,
                    x,
                    y,
                ),
    {
        let ghost s0 = *self;
        let r = rect.intersect(Rect::new(0, 0, self.width, self.height));
        if r.is_empty() {
            return ;
        }
        let cropped = self.crop(r);
        let region = cropped.oriented(op);
        self.clear(r);
        let ghost s1 = *self;
        let dw = r.width as i64 - region.width as i64;
        let dh = r.height as i64 - region.height as i64;
        let hw: i64 = if dw >= 0 {
            dw / 2
        } else {
            -((-dw) / 2)
        };
        let hh: i64 = if dh >= 0 {
            dh / 2
        } else {
            -((-dh) / 2)
        };
        let ox = r.x as i64 + hw;
        let oy = r.y as i64 + hh;
        let clipped = Raster::clip_to(&region, ox, oy, r);
        self.blit(&clipped.0, clipped.1, clipped.2);
        proof {
            let cr = clipped.0;
            assert forall|x: int, y: int|
                0 <= x < s0.width && 0 <= y < s0.height implies #[trigger] self.px(x, y)
                == reoriented_px(|px: int, py: int| s0.px(px, py), r, op, x, y) by {
                assert(s1.px(x, y) == if rect_has_point(r, x, y) {
                    transparent_spec()
                } else {
                    s0.px(x, y)
                });
                if placed_in(cr.width as int, cr.height as int, clipped.1 as int, clipped.2 as int, x, y) {
                    assert(placed_in(region.width as int, region.height as int, ox as int, oy as int, x, y));
                    let u = x - ox;
                    let v = y - oy;
                    assert(region.px(u, v) == cropped.px(
                        orient_from(op, r.width as int, r.height as int, u, v).0,
                        orient_from(op, r.width as int, r.height as int, u, v).1,
                    ));
                } else if rect_has_point(r, x, y) {
                    assert(!placed_in(region.width as int, region.height as int, ox as int, oy as int, x, y));
                }
            }
        }
    }
}

impl Orientation {
    /// `true` for the two quarter turns, which swap width and height.
    pub fn swaps_axes(self) -> (b: bool)
        ensures
            b == swaps(self),
    {
        match self {
            Orientation::Rotate90Cw | Orientation::Rotate90Ccw => true,
            _ => false,
        }
    }
}

/// A raster the size of the canvas with a cel's pixels at their sprite
/// position: the pixel at `(x, y)`.
pub open spec fn canvas_px(position: (i32, i32), b: PixelBufferModel, x: int, y: int) -> Rgba {
    if in_cel(x, y, position, b.width, b.height) {
        pixel_at(b.data, b.width as int, x - position.0, y - position.1)
    } else {
        transparent_spec()
    }
}

/// Render an image cel into a canvas-sized raster (raw copy, clipped).
pub fn cel_to_canvas(cel: &Cel, buffer: &PixelBuffer, canvas_w: u32, canvas_h: u32) -> (out: Raster)
    requires
        rgba_wf(buffer@),
        canvas_w * canvas_h * 4 <= usize::MAX,
    ensures
        out.width == canvas_w,
        out.height == canvas_h,
        out.wf(),
        forall|x: int, y: int|
            0 <= x < canvas_w && 0 <= y < canvas_h ==> #[trigger] out.px(x, y) == canvas_px(
                cel.position,
                buffer@,
                x,
                y,
            ),
{
    let data = buffer.data.clone();
    proof {
        assert(data@ =~= buffer.data@);
    }
    let src = Raster { width: buffer.width, height: buffer.height, data };
    let mut out = Raster::transparent(canvas_w, canvas_h);
    out.blit(&src, cel.position.0 as i64, cel.position.1 as i64);
    out
}

/// Wrap a raster as a full-canvas image cel at `(0, 0)`.
pub fn raster_to_cel(layer: LayerId, frame: FrameIndex, raster: Raster) -> (c: Cel)
    requires
        raster.wf(),
    ensures
        c@ == (CelModel {
            layer,
            frame,
            position: (0, 0),
            opacity: 255,
            data: CelDataModel::Image(
                PixelBufferModel {
                    width: raster.width,
                    height: raster.height,
                    color_mode: ColorMode::Rgba,
                    data: raster.data@,
                },
            ),
        }),
{
    let buf = PixelBuffer {
        width: raster.width,
        height: raster.height,
        color_mode: ColorMode::Rgba,
        data: raster.data,
    };
    Cel::image(layer, frame, buf)
}

/// The RGBA image buffer of a cel, or `None` for other cel kinds.
pub fn rgba_buffer(cel: &Cel) -> (r: Option<&PixelBuffer>)
    ensures
        match r {
            Some(b) => cel@.data == CelDataModel::Image(b@) && b.color_mode == ColorMode::Rgba,
            None => !rgba_cel(cel@),
        },
{
    match &cel.data {
        CelData::Image(b) => match b.color_mode {
            ColorMode::Rgba => Some(b),
            _ => None,
        },
        _ => None,
    }
}

/// A sprite-space rect mapped through a whole-canvas orientation change of
/// a `w × h` canvas.
pub open spec fn oriented_rect(r: Rect, op: Orientation, w: int, h: int) -> Rect {
    let x0 = r.x as int;
    let y0 = r.y as int;
    let x1 = r.x + r.width;
    let y1 = r.y + r.height;
    let n = match op {
        Orientation::FlipHorizontal => (w - x1, y0, w - x0, y1),
        Orientation::FlipVertical => (x0, h - y1, x1, h - y0),
        Orientation::Rotate180 => (w - x1, h - y1, w - x0, h - y0),
        Orientation::Rotate90Cw => (h - y1, x0, h - y0, x1),
        Orientation::Rotate90Ccw => (y0, w - x1, y1, w - x0),
    };
    Rect { x: n.0 as i32, y: n.1 as i32, width: (n.2 - n.0) as u32, height: (n.3 - n.1) as u32 }
}

/// Slice geometry follows the pixels: for a rect inside a `w × h` canvas,
/// a canvas pixel lies in the rect exactly when the pixel it lands on under
/// `op` lies in the mapped rect, and the mapped rect has the rect's size,
/// its sides swapped by a quarter turn. In particular the 1×1 rect of pixel
/// `(x, y)` maps to the 1×1 rect at [`orient_to`] of that pixel.
pub proof fn lemma_oriented_rect_follows_pixels(
    r: Rect,
    op: Orientation,
    w: int,
    h: int,
    x: int,
    y: int,
)
    requires
        w <= i32::MAX,
        h <= i32::MAX,
        0 <= r.x,
        r.x + r.width <= w,
        0 <= r.y,
        r.y + r.height <= h,
        0 <= x < w,
        0 <= y < h,
    ensures
        rect_has_point(r, x, y) <==> rect_has_point(
            oriented_rect(r, op, w, h),
            orient_to(op, w, h, x, y).0,
            orient_to(op, w, h, x, y).1,
        ),
        oriented_rect(r, op, w, h).width == if swaps(op) {
            r.height
        } else {
            r.width
        },
        oriented_rect(r, op, w, h).height == if swaps(op) {
            r.width
        } else {
            r.height
        },
        r.width == 1 && r.height == 1 && r.x == x && r.y == y ==> {
            &&& oriented_rect(r, op, w, h).x == orient_to(op, w, h, x, y).0
            &&& oriented_rect(r, op, w, h).y == orient_to(op, w, h, x, y).1
        },
{
}

/// Slice geometry follows the pixels, seen from the reoriented canvas: a
/// pixel of the new canvas lies in the mapped rect exactly when the old
/// pixel it is copied from ([`orient_from`], as [`is_oriented`] copies
/// pixels) lies in the rect.
pub proof fn lemma_oriented_rect_matches_pixel_source(
    r: Rect,
    op: Orientation,
    w: int,
    h: int,
    nx: int,
    ny: int,
)
    requires
        w <= i32::MAX,
        h <= i32::MAX,
        0 <= r.x,
        r.x + r.width <= w,
        0 <= r.y,
        r.y + r.height <= h,
        0 <= nx < oriented_w(op, w, h),
        0 <= ny < oriented_h(op, w, h),
    ensures
        rect_has_point(oriented_rect(r, op, w, h), nx, ny) <==> rect_has_point(
            r,
            orient_from(op, w, h, nx, ny).0,
            orient_from(op, w, h, nx, ny).1,
        ),
{
}

/// Map a sprite-space rect through a whole-canvas orientation change.
pub fn orient_rect(r: Rect, op: Orientation, canvas_w: u32, canvas_h: u32) -> (o: Rect)
    ensures
        o == oriented_rect(r, op, canvas_w as int, canvas_h as int),
{
    let w = canvas_w as i64;
    let h = canvas_h as i64;
    let x0 = r.x as i64;
    let y0 = r.y as i64;
    let x1 = x0 + r.width as i64;
    let y1 = y0 + r.height as i64;
    let (nx0, ny0, nx1, ny1) = match op {
        Orientation::FlipHorizontal => (w - x1, y0, w - x0, y1),
        Orientation::FlipVertical => (x0, h - y1, x1, h - y0),
        Orientation::Rotate180 => (w - x1, h - y1, w - x0, h - y0),
        Orientation::Rotate90Cw => (h - y1, x0, h - y0, x1),
        Orientation::Rotate90Ccw => (y0, w - x1, y1, w - x0),
    };
    Rect::new(nx0 as i32, ny0 as i32, (nx1 - nx0) as u32, (ny1 - ny0) as u32)
}

/// A sprite-space point mapped through a whole-canvas orientation change
/// of a `w × h` canvas: where the rect mapping of its 1×1 cell lands.
pub open spec fn oriented_point(p: (i32, i32), op: Orientation, w: int, h: int) -> (i32, i32) {
    let r = oriented_rect(Rect { x: p.0, y: p.1, width: 1, height: 1 }, op, w, h);
    (r.x, r.y)
}

/// Map a sprite-space point through a whole-canvas orientation change: the
/// pixel at `p` lands where the rect mapping of its 1×1 cell puts it.
pub fn orient_point(p: (i32, i32), op: Orientation, canvas_w: u32, canvas_h: u32) -> (o: (i32, i32))
    ensures
        o == oriented_point(p, op, canvas_w as int, canvas_h as int),
{
    let r = orient_rect(Rect::new(p.0, p.1, 1, 1), op, canvas_w, canvas_h);
    (r.x, r.y)
}

/// The orientation that undoes `op`.
pub open spec fn inverse(op: Orientation) -> Orientation {
    match op {
        Orientation::Rotate90Cw => Orientation::Rotate90Ccw,
        Orientation::Rotate90Ccw => Orientation::Rotate90Cw,
        _ => op,
    }
}

/// Two byte buffers of a `w × h` raster with the same pixels are equal.
pub proof fn lemma_pixels_determine_bytes(d1: Seq<u8>, d2: Seq<u8>, w: int, h: int)
    requires
        0 <= w,
        0 <= h,
        d1.len() == w * h * 4,
        d2.len() == w * h * 4,
        forall|x: int, y: int|
            0 <= x < w && 0 <= y < h ==> #[trigger] pixel_at(d1, w, x, y) == pixel_at(d2, w, x, y),
    ensures
        d1 == d2,
{
    assert forall|i: int| 0 <= i < d1.len() implies d1[i] == d2[i] by {
        let p = i / 4;
        let c = i % 4;
        let y = p / w;
        let x = p % w;
        assert(w > 0) by (nonlinear_arith)
            requires
                0 <= i < w * h * 4,
                0 <= h,
        ;
        assert(i == p * 4 + c && 0 <= c < 4 && 0 <= p < w * h) by (nonlinear_arith)
            requires
                0 <= i < w * h * 4,
                p == i / 4,
                c == i % 4,
        ;
        assert(p == y * w + x && 0 <= x < w && 0 <= y < h) by (nonlinear_arith)
            requires
                0 <= p < w * h,
                w > 0,
                y == p / w,
                x == p % w,
        ;
        assert(pixel_at(d1, w, x, y) == pixel_at(d2, w, x, y));
        assert(i == pixel_offset(w, x, y) + c);
    }
    assert(d1 =~= d2);
}

/// Reorienting by `op` and then by its inverse gives back the raster.
pub proof fn lemma_oriented_inverse(a: Raster, op: Orientation, b: Raster, c: Raster)
    requires
        a.wf(),
        is_oriented(a, op, b),
        is_oriented(b, inverse(op), c),
    ensures
        c.width == a.width,
        c.height == a.height,
        c.data@ == a.data@,
{
    assert forall|x: int, y: int|
        0 <= x < a.width && 0 <= y < a.height implies #[trigger] pixel_at(c.data@, a.width as int, x, y)
        == pixel_at(a.data@, a.width as int, x, y) by {
        let s = orient_from(inverse(op), b.width as int, b.height as int, x, y);
        assert(c.px(x, y) == b.px(s.0, s.1));
    }
    lemma_pixels_determine_bytes(c.data@, a.data@, a.width as int, a.height as int);
}

/// Four quarter turns clockwise give back the raster.
pub proof fn lemma_four_quarter_turns(r0: Raster, r1: Raster, r2: Raster, r3: Raster, r4: Raster)
    requires
        r0.wf(),
        is_oriented(r0, Orientation::Rotate90Cw, r1),
        is_oriented(r1, Orientation::Rotate90Cw, r2),
        is_oriented(r2, Orientation::Rotate90Cw, r3),
        is_oriented(r3, Orientation::Rotate90Cw, r4),
    ensures
        r4.width == r0.width,
        r4.height == r0.height,
        r4.data@ == r0.data@,
{
    let cw = Orientation::Rotate90Cw;
    assert forall|x: int, y: int|
        0 <= x < r0.width && 0 <= y < r0.height implies #[trigger] pixel_at(r4.data@, r0.width as int, x, y)
        == pixel_at(r0.data@, r0.width as int, x, y) by {
        let s3 = orient_from(cw, r3.width as int, r3.height as int, x, y);
        let s2 = orient_from(cw, r2.width as int, r2.height as int, s3.0, s3.1);
        let s1 = orient_from(cw, r1.width as int, r1.height as int, s2.0, s2.1);
        let s0 = orient_from(cw, r0.width as int, r0.height as int, s1.0, s1.1);
        assert(r4.px(x, y) == r3.px(s3.0, s3.1));
        assert(r3.px(s3.0, s3.1) == r2.px(s2.0, s2.1));
        assert(r2.px(s2.0, s2.1) == r1.px(s1.0, s1.1));
        assert(r1.px(s1.0, s1.1) == r0.px(s0.0, s0.1));
    }
    lemma_pixels_determine_bytes(r4.data@, r0.data@, r0.width as int, r0.height as int);
}

/// The canvas-sized raster buffers of a `w × h` canvas fit in memory and
/// its sides fit in `i32`.
pub open spec fn canvas_fits(w: u32, h: u32) -> bool {
    &&& w * h * 4 <= usize::MAX
    &&& w <= i32::MAX
    &&& h <= i32::MAX
}

/// Whether the canvas-sized raster buffers of a `w × h` canvas fit in
/// memory with sides that fit in `i32`.
pub fn fits_canvas(w: u32, h: u32) -> (b: bool)
    ensures
        b == canvas_fits(w, h),
{
    let w64 = w as u64;
    let h64 = h as u64;
    assert(w64 * h64 <= u64::MAX) by (nonlinear_arith)
        requires
            w64 <= u32::MAX,
            h64 <= u32::MAX,
    ;
    let wh = w64 * h64;
    match wh.checked_mul(4) {
        Some(n) => n <= usize::MAX as u64 && w64 <= i32::MAX as u64 && h64 <= i32::MAX as u64,
        None => false,
    }
}

/// The cel is an RGBA image.
pub open spec fn rgba_cel(c: CelModel) -> bool {
    c.data is Image && c.data->Image_0.color_mode == ColorMode::Rgba
}

} // verus!
