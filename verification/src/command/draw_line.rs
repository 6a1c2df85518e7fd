//! `DrawLine` command — rasterize a 1-pixel-wide line into an image cel.
//!
//! Sprite-space endpoints are translated into cel-local coordinates via the
//! cel's `position`. Pixels that fall outside the cel buffer are skipped
//! silently — drawing tools naturally clip to the target. Indexed and
//! grayscale cels are rejected (RGBA-first).
//!
//! The traversal uses the integer Bresenham algorithm so the rasterized
//! pixel set is symmetric and reproducible across targets.
use vstd::prelude::*;

use super::error::CommandError;
use super::pixels::{lemma_painted_cels, painted_cels, 
    image_error, image_mut, image_target, lemma_paint_step, lemma_painted_agree, lemma_painted_none,
    logged_reverted, paint_outcome, paint_point, painted, restore_log, revert_logged,
    with_image_data, PriorPixel,
};
use super::{cel_wf, CelsModel, Command};
use crate::document::sprite::SpriteModel;
use crate::document::{CelMap, FrameIndex, LayerId, Rgba, Sprite};

verus! {

/// Write a 1-pixel-wide line between sprite-space `(x0, y0)` and `(x1, y1)`.
#[derive(Debug, Clone, PartialEq, Eq)]
pub struct DrawLine {
    pub layer: LayerId,
    pub frame: FrameIndex,
    pub x0: i32,
    pub y0: i32,
    pub x1: i32,
    pub y1: i32,
    pub new_color: Rgba,
    /// `Some` after a successful `apply`; carries the prior pixel values used
    /// by `revert`. Stored in cel-local coordinates.
    pub previous: Option<Vec<PriorPixel>>,
}

pub open spec fn abs_int(v: int) -> int {
    if v < 0 {
        -v
    } else {
        v
    }
}

/// One step of the traversal on `(i, j, err)`: `i` and `j` count the steps
/// taken along x and y, `dx` and `a` are the absolute spans.
pub open spec fn bres_step(dx: int, a: int, s: (int, int, int)) -> (int, int, int) {
    let e2 = 2 * s.2;
    let s1 = if e2 >= -a {
        (s.0 + 1, s.1, s.2 - a)
    } else {
        s
    };
    if e2 <= dx {
        (s1.0, s1.1 + 1, s1.2 + dx)
    } else {
        s1
    }
}

/// The traversal state after `k` steps.
pub open spec fn bres_state(dx: int, a: int, k: nat) -> (int, int, int)
    decreases k,
{
    if k == 0 {
        (0, 0, dx - a)
    } else {
        bres_step(dx, a, bres_state(dx, a, (k - 1) as nat))
    }
}

/// The state after `k` steps has reached the far endpoint.
pub open spec fn bres_done(dx: int, a: int, k: nat) -> bool {
    bres_state(dx, a, k).0 == dx && bres_state(dx, a, k).1 == a
}

/// The sprite point visited at step `k` of the line from `(x0, y0)` to
/// `(x1, y1)`.
pub open spec fn bres_point(x0: int, y0: int, x1: int, y1: int, k: nat) -> (int, int) {
    let s = bres_state(abs_int(x1 - x0), abs_int(y1 - y0), k);
    (
        if x0 < x1 {
            x0 + s.0
        } else {
            x0 - s.0
        },
        if y0 < y1 {
            y0 + s.1
        } else {
            y0 - s.1
        },
    )
}

/// The line from `(x0, y0)` to `(x1, y1)` has reached its far endpoint
/// after `k` steps.
pub open spec fn line_done(x0: int, y0: int, x1: int, y1: int, k: nat) -> bool {
    bres_done(abs_int(x1 - x0), abs_int(y1 - y0), k)
}

/// `(px, py)` is one of the points the line visits: the points of the steps
/// up to and including the first one that reaches the far endpoint.
pub open spec fn on_line(x0: int, y0: int, x1: int, y1: int, px: int, py: int) -> bool {
    exists|k: nat|
        (forall|m: nat| m < k ==> !#[trigger] line_done(x0, y0, x1, y1, m))
            && #[trigger] bres_point(x0, y0, x1, y1, k) == (px, py)
}

/// The invariant of the traversal: counts stay within the spans, the error
/// term is `dx (1 + j) - a (1 + i)`, and each step before the end advances
/// at least one count without overshooting.
proof fn lemma_bres_step(dx: int, a: int, i: int, j: int, err: int)
    requires
        0 <= dx,
        0 <= a,
        0 <= i <= dx,
        0 <= j <= a,
        !(i == dx && j == a),
        err == dx * (1 + j) - a * (1 + i),
    ensures
        ({
            let s = bres_step(dx, a, (i, j, err));
            &&& i <= s.0 <= dx
            &&& j <= s.1 <= a
            &&& s.0 + s.1 > i + j
            &&& s.2 == dx * (1 + s.1) - a * (1 + s.0)
        }),
{
    let e2 = 2 * err;
    if e2 >= -a && i == dx {
        assert(false) by (nonlinear_arith)
            requires
                0 <= dx,
                j < a,
                0 <= j,
                i == dx,
                err == dx * (1 + j) - a * (1 + i),
                2 * err >= -a,
        {
            assert(dx * (1 + j) <= dx * a);
        }
    }
    if e2 <= dx && j == a {
        assert(false) by (nonlinear_arith)
            requires
                0 <= a,
                i < dx,
                0 <= i,
                j == a,
                err == dx * (1 + j) - a * (1 + i),
                2 * err <= dx,
        {
            assert(a * (1 + i) <= a * dx);
        }
    }
    assert(a * (1 + (i + 1)) == a * (1 + i) + a) by (nonlinear_arith);
    assert(dx * (1 + (j + 1)) == dx * (1 + j) + dx) by (nonlinear_arith);
}

/// Bounds of the error term along the traversal.
proof fn lemma_err_bounds(dx: int, a: int, i: int, j: int)
    requires
        0 <= dx <= 0x1_0000_0000,
        0 <= a <= 0x1_0000_0000,
        0 <= i <= dx,
        0 <= j <= a,
    ensures
        -0x4_0000_0000_0000_0000 <= dx * (1 + j) - a * (1 + i) <= 0x4_0000_0000_0000_0000,
{
    assert(0 <= dx * (1 + j) <= 0x1_0000_0000 * 0x1_0000_0001) by (nonlinear_arith)
        requires
            0 <= dx <= 0x1_0000_0000,
            0 <= j <= a,
            a <= 0x1_0000_0000,
    ;
    assert(0 <= a * (1 + i) <= 0x1_0000_0000 * 0x1_0000_0001) by (nonlinear_arith)
        requires
            0 <= a <= 0x1_0000_0000,
            0 <= i <= dx,
            dx <= 0x1_0000_0000,
    ;
}

/// The point `i` steps along x and `j` steps along y from `(x0, y0)`,
/// towards `(x1, y1)`.
fn line_point(x0: i32, y0: i32, x1: i32, y1: i32, i: i64, j: i64) -> (p: (i32, i32))
    requires
        0 <= i <= abs_int(x1 - x0),
        0 <= j <= abs_int(y1 - y0),
    ensures
        p.0 == (if x0 < x1 {
            x0 + i
        } else {
            x0 - i
        }),
        p.1 == (if y0 < y1 {
            y0 + j
        } else {
            y0 - j
        }),
{
    let x = if x0 < x1 {
        x0 as i64 + i
    } else {
        x0 as i64 - i
    };
    let y = if y0 < y1 {
        y0 as i64 + j
    } else {
        y0 as i64 - j
    };
    (x as i32, y as i32)
}

/// Bresenham's line algorithm. Returns the integer pixel coordinates the
/// rasterized line covers, inclusive of both endpoints. Equal endpoints
/// yield a single pixel.
pub fn bresenham(x0: i32, y0: i32, x1: i32, y1: i32) -> (r: Vec<(i32, i32)>)
    ensures
        r@.len() >= 1,
        forall|k: int|
            0 <= k < r@.len() ==> (#[trigger] r@[k]).0 == bres_point(
                x0 as int,
                y0 as int,
                x1 as int,
                y1 as int,
                k as nat,
            ).0 && r@[k].1 == bres_point(x0 as int, y0 as int, x1 as int, y1 as int, k as nat).1,
        line_done(x0 as int, y0 as int, x1 as int, y1 as int, (r@.len() - 1) as nat),
        forall|m: nat|
            m < r@.len() - 1 ==> !#[trigger] line_done(x0 as int, y0 as int, x1 as int, y1 as int, m),
{
    // Wide integers so no intermediate value can overflow.
    let dx: i64 = if x1 as i64 >= x0 as i64 {
        x1 as i64 - x0 as i64
    } else {
        x0 as i64 - x1 as i64
    };
    let a: i64 = if y1 as i64 >= y0 as i64 {
        y1 as i64 - y0 as i64
    } else {
        y0 as i64 - y1 as i64
    };
    let mut err: i128 = dx as i128 - a as i128;
    let mut i: i64 = 0;
    let mut j: i64 = 0;
    let mut points: Vec<(i32, i32)> = Vec::new();
    let ghost mut k: nat = 0;
    assert(err == dx * (1 + j) - a * (1 + i)) by (nonlinear_arith)
        requires
            err == dx - a,
            i == 0,
            j == 0,
    ;
    while !(i == dx && j == a)
        invariant
            dx == abs_int(x1 - x0),
            a == abs_int(y1 - y0),
            0 <= i <= dx,
            0 <= j <= a,
            err == dx * (1 + j) - a * (1 + i),
            (i as int, j as int, err as int) == bres_state(dx as int, a as int, k),
            points@.len() == k,
            forall|m: int|
                0 <= m < k ==> (#[trigger] points@[m]).0 == bres_point(
                    x0 as int,
                    y0 as int,
                    x1 as int,
                    y1 as int,
                    m as nat,
                ).0 && points@[m].1 == bres_point(
                    x0 as int,
                    y0 as int,
                    x1 as int,
                    y1 as int,
                    m as nat,
                ).1,
            forall|m: nat|
                m < k ==> !#[trigger] line_done(x0 as int, y0 as int, x1 as int, y1 as int, m),
        decreases (dx - i) + (a - j),
    {
        proof {
            lemma_err_bounds(dx as int, a as int, i as int, j as int);
        }
        points.push(line_point(x0, y0, x1, y1, i, j));
        let e2 = 2 * err;
        let ghost s0 = (i as int, j as int, err as int);
        proof {
            lemma_bres_step(dx as int, a as int, i as int, j as int, err as int);
        }
        if e2 >= -(a as i128) {
            err = err - a as i128;
            i = i + 1;
        }
        if e2 <= dx as i128 {
            err = err + dx as i128;
            j = j + 1;
        }
        proof {
            assert((i as int, j as int, err as int) == bres_step(dx as int, a as int, s0));
            k = k + 1;
        }
    }
    points.push(line_point(x0, y0, x1, y1, i, j));
    proof {
        assert(line_done(x0 as int, y0 as int, x1 as int, y1 as int, k));
    }
    points
}

impl DrawLine {
    /// Build a new `DrawLine` between two sprite-space points on the cel at
    /// `(layer, frame)`.
    pub fn new(layer: LayerId, frame: FrameIndex, x0: i32, y0: i32, x1: i32, y1: i32, color: Rgba) -> (c:
        Self)
        ensures
            c == (DrawLine { layer, frame, x0, y0, x1, y1, new_color: color, previous: None }),
    {
        DrawLine { layer, frame, x0, y0, x1, y1, new_color: color, previous: None }
    }
}

impl Command for DrawLine {
    fn fits_doc(&self, doc: &Sprite) -> (b: bool) {
        true
    }

    open spec fn ready(&self) -> bool {
        true
    }

    fn is_ready(&self) -> (b: bool) {
        true
    }

    open spec fn applied_on(&self, doc: SpriteModel, cels: CelsModel) -> bool {
        self.previous is Some
    }

    open spec fn reverted(&self, doc: SpriteModel, cels: CelsModel) -> (SpriteModel, CelsModel) {
        (doc, logged_reverted(cels, (self.layer, self.frame), self.previous))
    }

    open spec fn fails_with(&self, doc: SpriteModel, cels: CelsModel, e: CommandError) -> bool {
        image_error(cels, self.layer, self.frame) == Some(e)
    }

    open spec fn outcome(&self, doc: SpriteModel, cels: CelsModel) -> (SpriteModel, CelsModel) {
        (
            doc,
            painted_cels(
                cels,
                (self.layer, self.frame),
                |px: int, py: int|
                    on_line(self.x0 as int, self.y0 as int, self.x1 as int, self.y1 as int, px, py),
                self.new_color,
            ),
        )
    }

    open spec fn reverts_to(&self, back: Self, doc: SpriteModel, cels: CelsModel) -> bool {
        back == (DrawLine { previous: back.previous, ..*self })
    }

    open spec fn succeeds_on(&self, doc: SpriteModel, cels: CelsModel) -> bool {
        image_error(cels, self.layer, self.frame) is None
    }

    fn apply(&mut self, doc: &mut Sprite, cels: &mut CelMap) -> (r: Result<(), CommandError>)
        ensures
            r is Err ==> *final(self) == *old(self),
            final(doc)@ == old(doc)@,
            final(self).layer == old(self).layer,
            final(self).frame == old(self).frame,
            match r {
                Ok(_) => image_error(old(cels)@, old(self).layer, old(self).frame) is None
                    && paint_outcome(
                    old(cels)@,
                    final(cels)@,
                    (old(self).layer, old(self).frame),
                    |px: int, py: int|
                        on_line(
                            old(self).x0 as int,
                            old(self).y0 as int,
                            old(self).x1 as int,
                            old(self).y1 as int,
                            px,
                            py,
                        ),
                    old(self).new_color,
                ),
                Err(e) => image_error(old(cels)@, old(self).layer, old(self).frame) == Some(e),
            },
    {
        let layer = self.layer;
        let frame = self.frame;
        let color = self.new_color;
        let ghost c0 = cels@;
        let ghost key = (layer, frame);
        let cel = image_target(cels, layer, frame)?;
        let position = cel.position;
        let buffer = image_mut(cel);
        let ghost b0 = buffer@;
        let pts = bresenham(self.x0, self.y0, self.x1, self.y1);
        let n = pts.len();
        let mut prior: Vec<PriorPixel> = Vec::new();
        let mut k: usize = 0;
        proof {
            lemma_painted_none(b0, position, color);
            lemma_painted_agree(
                b0,
                b0.data,
                position,
                |x: int, y: int| false,
                |x: int, y: int|
                    exists|j: int| 0 <= j < 0 && (#[trigger] pts@[j]).0 == x && pts@[j].1 == y,
                color,
            );
        }
        while k < n
            invariant
                n == pts@.len(),
                k <= n,
                buffer.width == b0.width,
                buffer.height == b0.height,
                buffer.color_mode == b0.color_mode,
                crate::document::cel::rgba_wf(b0),
                crate::document::cel::rgba_wf(buffer@),
                painted(
                    b0,
                    buffer.data@,
                    position,
                    |x: int, y: int|
                        exists|j: int| 0 <= j < k && (#[trigger] pts@[j]).0 == x && pts@[j].1 == y,
                    color,
                ),
                restore_log(buffer.data@, b0.width, b0.height, prior@) == b0.data,
            decreases n - k,
        {
            let (px, py) = pts[k];
            let ghost d = buffer.data@;
            paint_point(buffer, position, px, py, color, &mut prior);
            proof {
                let cov = |x: int, y: int|
                    exists|j: int| 0 <= j < k && (#[trigger] pts@[j]).0 == x && pts@[j].1 == y;
                let next = |x: int, y: int|
                    exists|j: int| 0 <= j < k + 1 && (#[trigger] pts@[j]).0 == x && pts@[j].1 == y;
                assert forall|x: int, y: int| #[trigger] next(x, y) == (cov(x, y) || (x == px && y
                    == py)) by {
                    if next(x, y) && !(x == px && y == py) {
                        let j = choose|j: int|
                            0 <= j < k + 1 && (#[trigger] pts@[j]).0 == x && pts@[j].1 == y;
                        assert(j != k);
                    }
                    if x == px && y == py {
                        assert(pts@[k as int].0 == x && pts@[k as int].1 == y);
                    }
                }
                lemma_paint_step(b0, d, position, cov, color, px as int, py as int, next);
            }
            k = k + 1;
        }
        proof {
            let x0 = self.x0 as int;
            let y0 = self.y0 as int;
            let x1 = self.x1 as int;
            let y1 = self.y1 as int;
            let dx = abs_int(x1 - x0);
            let a = abs_int(y1 - y0);
            let cov = |x: int, y: int|
                exists|j: int| 0 <= j < n && (#[trigger] pts@[j]).0 == x && pts@[j].1 == y;
            assert forall|x: int, y: int| #[trigger] cov(x, y) == on_line(x0, y0, x1, y1, x, y) by {
                if cov(x, y) {
                    let j = choose|j: int| 0 <= j < n && (#[trigger] pts@[j]).0 == x && pts@[j].1 == y;
                    assert(bres_point(x0, y0, x1, y1, j as nat) == (x, y));
                    assert(forall|m: nat| m < j as nat ==> !#[trigger] line_done(x0, y0, x1, y1, m));
                }
                if on_line(x0, y0, x1, y1, x, y) {
                    let kk = choose|kk: nat|
                        (forall|m: nat| m < kk ==> !#[trigger] line_done(x0, y0, x1, y1, m)) && #[trigger] bres_point(
                            x0,
                            y0,
                            x1,
                            y1,
                            kk,
                        ) == (x, y);
                    if kk >= n {
                        assert(!line_done(x0, y0, x1, y1, (n - 1) as nat));
                    }
                    assert(pts@[kk as int].0 == x && pts@[kk as int].1 == y);
                }
            }
            lemma_painted_agree(
                b0,
                buffer.data@,
                position,
                cov,
                |px: int, py: int| on_line(x0, y0, x1, y1, px, py),
                color,
            );
        }
        let ghost nd = buffer.data@;
        self.previous = Some(prior);
        proof {
            assert(with_image_data(cels@, key, b0.data) =~= c0);
            assert(cel_wf(cels@[key]));
            assert(with_image_data(c0, key, nd) =~= cels@);
            lemma_painted_cels(
                c0,
                cels@,
                key,
                |px: int, py: int|
                    on_line(self.x0 as int, self.y0 as int, self.x1 as int, self.y1 as int, px, py),
                self.new_color,
            );
        }
        Ok(())
    }

    fn revert(&mut self, _doc: &mut Sprite, cels: &mut CelMap)
        ensures
            *final(self) == (DrawLine { previous: None, ..*old(self) }),
            forall|d: SpriteModel, c: CelsModel| #[trigger] final(self).reverted(d, c) == (d, c),
    {
        let prior = match self.previous.take() {
            Some(p) => p,
            None => {
                return ;
            },
        };
        revert_logged(cels, self.layer, self.frame, &prior);
    }
}

} // verus!
