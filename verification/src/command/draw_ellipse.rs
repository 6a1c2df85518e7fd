//! `DrawEllipse` command — rasterize an axis-aligned ellipse (outline or
//! filled) into an image cel.
//!
//! The ellipse is inscribed in the bounding box of two sprite-space corners
//! given in any order. The rim is traced with the integer midpoint
//! algorithm (Zingl's variant), which handles even and odd axes exactly;
//! degenerate boxes (zero width and/or height) collapse to a line or a
//! single pixel. Pixels outside the cel are skipped silently. A filled
//! ellipse paints, on every row the rim visits, the span between the rim's
//! leftmost and rightmost pixel.
use vstd::prelude::*;

use super::error::CommandError;
use super::pixels::{lemma_painted_cels, painted_cels, 
    image_error, image_mut, image_target, in_cel, lemma_paint_step, lemma_painted_agree,
    lemma_painted_none, logged_reverted, paint_local, paint_local_row, paint_outcome, painted,
    restore_log, revert_logged, with_image_data, PriorPixel,
};
use super::{cel_wf, CelsModel, Command};
use crate::document::cel::{rgba_wf, PixelBuffer, PixelBufferModel};
use crate::document::sprite::SpriteModel;
use crate::document::{CelMap, FrameIndex, LayerId, Rgba, Sprite};

verus! {

/// Largest bounding-box span (max - min, in sprite pixels) along either axis
/// that the command rasterizes; a larger box draws nothing.
pub const MAX_AXIS_SPAN: i64 = 1048576;

/// Write an axis-aligned ellipse inscribed in the bbox of sprite-space
/// `(x0, y0)` and `(x1, y1)`. Outline if `fill` is `false`, filled otherwise.
#[derive(Debug, Clone, PartialEq, Eq)]
pub struct DrawEllipse {
    pub layer: LayerId,
    pub frame: FrameIndex,
    pub x0: i32,
    pub y0: i32,
    pub x1: i32,
    pub y1: i32,
    pub fill: bool,
    pub new_color: Rgba,
    /// `Some` after a successful `apply`; carries the prior pixel values
    /// used by `revert`. Stored in cel-local coordinates.
    pub previous: Option<Vec<PriorPixel>>,
}

/// The rasterizer state `(x_lo, x_hi, y_top, y_bot, dx, dy, err)`.
pub type EllState = (int, int, int, int, int, int, int);

/// The state before the first step, for a box at `(lo_x, lo_y)` spanning
/// `a × b` (both positive).
pub open spec fn ell_init(lo_x: int, lo_y: int, a: int, b: int) -> EllState {
    let b1 = b % 2;
    let y_top = lo_y + (b + 1) / 2;
    let dx = 4 * (1 - a) * b * b;
    let dy = 4 * (b1 + 1) * a * a;
    (lo_x, lo_x + a, y_top, y_top - b1, dx, dy, dx + dy + b1 * a * a)
}

/// One step of the rim walk: a move outward along y, inward along x, or
/// both.
pub open spec fn ell_step(s: EllState, a: int, b: int) -> EllState {
    let e2 = 2 * s.6;
    let s1 = if e2 <= s.5 {
        (s.0, s.1, s.2 + 1, s.3 - 1, s.4, s.5 + 8 * a * a, s.6 + s.5 + 8 * a * a)
    } else {
        s
    };
    if e2 >= s1.4 || 2 * s1.6 > s1.5 {
        (s1.0 + 1, s1.1 - 1, s1.2, s1.3, s1.4 + 8 * b * b, s1.5, s1.6 + s1.4 + 8 * b * b)
    } else {
        s1
    }
}

/// The state after `k` steps.
pub open spec fn ell_state(lo_x: int, lo_y: int, a: int, b: int, k: nat) -> EllState
    decreases k,
{
    if k == 0 {
        ell_init(lo_x, lo_y, a, b)
    } else {
        ell_step(ell_state(lo_x, lo_y, a, b, (k - 1) as nat), a, b)
    }
}

/// The step budget of the rim walk.
pub open spec fn ell_fuel(a: int, b: int) -> int {
    4 * (a + b) + 8
}

/// The walk stops after `k` steps: the x bounds crossed, or the budget is
/// spent.
pub open spec fn ell_done(lo_x: int, lo_y: int, a: int, b: int, k: nat) -> bool {
    &&& k >= 1
    &&& (ell_state(lo_x, lo_y, a, b, k).0 > ell_state(lo_x, lo_y, a, b, k).1 || k >= ell_fuel(
        a,
        b,
    ))
}

/// `(x, y)` is one of the four points plotted from state `s`.
pub open spec fn in_quad(s: EllState, x: int, y: int) -> bool {
    ||| (x == s.1 && y == s.2)
    ||| (x == s.0 && y == s.2)
    ||| (x == s.0 && y == s.3)
    ||| (x == s.1 && y == s.3)
}

/// `(x, y)` is one of the points plotted on tail row `t` from the final
/// state `s`.
pub open spec fn in_tail(s: EllState, t: int, x: int, y: int) -> bool {
    ||| (x == s.0 - 1 && y == s.2 + t)
    ||| (x == s.1 + 1 && y == s.2 + t)
    ||| (x == s.0 - 1 && y == s.3 - t)
    ||| (x == s.1 + 1 && y == s.3 - t)
}

/// The walk is still running when it plots from the state after `k` steps.
pub open spec fn ell_running(lo_x: int, lo_y: int, a: int, b: int, k: nat) -> bool {
    forall|m: nat| 1 <= m <= k ==> !#[trigger] ell_done(lo_x, lo_y, a, b, m)
}

/// `(x, y)` is plotted by the walk from some state it runs through.
pub open spec fn walk_plots(lo_x: int, lo_y: int, a: int, b: int, x: int, y: int) -> bool {
    exists|k: nat| ell_running(lo_x, lo_y, a, b, k) && #[trigger] in_quad(ell_state(lo_x, lo_y, a, b, k), x, y)
}

/// `(x, y)` is plotted by one of the first `t` tail rows from state `s`.
pub open spec fn tail_plots(s: EllState, b: int, t: int, x: int, y: int) -> bool {
    exists|u: int| 0 <= u < t && s.2 - s.3 + 2 * u < b && #[trigger] in_tail(s, u, x, y)
}

/// `(x, y)` lies on the rim of the ellipse inscribed in the inclusive box
/// `[lo_x, hi_x] × [lo_y, hi_y]`: the points the walk plots, then the
/// points of the tail rows that finish flat ellipses.
pub open spec fn on_rim(lo_x: int, lo_y: int, hi_x: int, hi_y: int, x: int, y: int) -> bool {
    let a = hi_x - lo_x;
    let b = hi_y - lo_y;
    if a == 0 && b == 0 {
        x == lo_x && y == lo_y
    } else if a == 0 {
        x == lo_x && lo_y <= y <= hi_y
    } else if b == 0 {
        y == lo_y && lo_x <= x <= hi_x
    } else {
        ||| walk_plots(lo_x, lo_y, a, b, x, y)
        ||| exists|k: nat, t: int|
            {
                &&& ell_done(lo_x, lo_y, a, b, k)
                &&& ell_running(lo_x, lo_y, a, b, (k - 1) as nat)
                &&& 0 <= t
                &&& (ell_state(lo_x, lo_y, a, b, k).2 + t) - (ell_state(lo_x, lo_y, a, b, k).3 - t)
                    < b
                &&& #[trigger] in_tail(ell_state(lo_x, lo_y, a, b, k), t, x, y)
            }
    }
}

/// Every state of the rim walk keeps its two columns mirrored about the
/// box's vertical axis and its two rows mirrored about the horizontal one.
proof fn lemma_ell_state_centered(lo_x: int, lo_y: int, a: int, b: int, k: nat)
    requires
        a > 0,
        b > 0,
    ensures
        ell_state(lo_x, lo_y, a, b, k).0 + ell_state(lo_x, lo_y, a, b, k).1 == 2 * lo_x + a,
        ell_state(lo_x, lo_y, a, b, k).2 + ell_state(lo_x, lo_y, a, b, k).3 == 2 * lo_y + b,
    decreases k,
{
    if k == 0 {
        assert(2 * ((b + 1) / 2) == b + b % 2);
    } else {
        lemma_ell_state_centered(lo_x, lo_y, a, b, (k - 1) as nat);
    }
}

/// The walk's left column never moves left of the box, and its lower row
/// never moves above the row it starts on.
proof fn lemma_ell_left_column(lo_x: int, lo_y: int, a: int, b: int, k: nat)
    ensures
        ell_state(lo_x, lo_y, a, b, k).0 >= lo_x,
        ell_state(lo_x, lo_y, a, b, k).2 >= lo_y + (b + 1) / 2,
    decreases k,
{
    if k > 0 {
        lemma_ell_left_column(lo_x, lo_y, a, b, (k - 1) as nat);
    }
}

/// Where the rim stays inside its box: every point the walk plots lies in
/// one of the box's columns, and every point of the tail rows that finish
/// a flat ellipse lies strictly between its top and bottom rows.
pub proof fn lemma_rim_walk_columns_tail_rows(lo_x: int, lo_y: int, a: int, b: int, x: int, y: int)
    requires
        a > 0,
        b > 0,
    ensures
        walk_plots(lo_x, lo_y, a, b, x, y) ==> lo_x <= x <= lo_x + a,
        (exists|k: nat, t: int|
            {
                &&& 0 <= t
                &&& (ell_state(lo_x, lo_y, a, b, k).2 + t) - (ell_state(lo_x, lo_y, a, b, k).3 - t)
                    < b
                &&& #[trigger] in_tail(ell_state(lo_x, lo_y, a, b, k), t, x, y)
            }) ==> lo_y < y < lo_y + b,
{
    if walk_plots(lo_x, lo_y, a, b, x, y) {
        let k = choose|k: nat|
            ell_running(lo_x, lo_y, a, b, k) && #[trigger] in_quad(ell_state(lo_x, lo_y, a, b, k), x, y);
        lemma_ell_state_centered(lo_x, lo_y, a, b, k);
        lemma_ell_left_column(lo_x, lo_y, a, b, k);
        if k >= 1 {
            assert(!ell_done(lo_x, lo_y, a, b, k));
        }
    }
    if exists|k: nat, t: int|
        {
            &&& 0 <= t
            &&& (ell_state(lo_x, lo_y, a, b, k).2 + t) - (ell_state(lo_x, lo_y, a, b, k).3 - t) < b
            &&& #[trigger] in_tail(ell_state(lo_x, lo_y, a, b, k), t, x, y)
        } {
        let (k, t) = choose|k: nat, t: int|
            {
                &&& 0 <= t
                &&& (ell_state(lo_x, lo_y, a, b, k).2 + t) - (ell_state(lo_x, lo_y, a, b, k).3 - t)
                    < b
                &&& #[trigger] in_tail(ell_state(lo_x, lo_y, a, b, k), t, x, y)
            };
        lemma_ell_state_centered(lo_x, lo_y, a, b, k);
        lemma_ell_left_column(lo_x, lo_y, a, b, k);
    }
}

/// The rim is symmetric about both axes of its box: mirroring a rim point
/// left-right or top-bottom gives a rim point.
pub proof fn lemma_rim_symmetric(lo_x: int, lo_y: int, hi_x: int, hi_y: int, x: int, y: int)
    requires
        lo_x <= hi_x,
        lo_y <= hi_y,
        on_rim(lo_x, lo_y, hi_x, hi_y, x, y),
    ensures
        on_rim(lo_x, lo_y, hi_x, hi_y, lo_x + hi_x - x, y),
        on_rim(lo_x, lo_y, hi_x, hi_y, x, lo_y + hi_y - y),
{
    let a = hi_x - lo_x;
    let b = hi_y - lo_y;
    let mx = lo_x + hi_x - x;
    let my = lo_y + hi_y - y;
    if a > 0 && b > 0 {
        if walk_plots(lo_x, lo_y, a, b, x, y) {
            let k = choose|k: nat|
                ell_running(lo_x, lo_y, a, b, k) && #[trigger] in_quad(ell_state(lo_x, lo_y, a, b, k), x, y);
            lemma_ell_state_centered(lo_x, lo_y, a, b, k);
            assert(in_quad(ell_state(lo_x, lo_y, a, b, k), mx, y));
            assert(in_quad(ell_state(lo_x, lo_y, a, b, k), x, my));
            assert(walk_plots(lo_x, lo_y, a, b, mx, y));
            assert(walk_plots(lo_x, lo_y, a, b, x, my));
        } else {
            let (k, t) = choose|k: nat, t: int|
                {
                    &&& ell_done(lo_x, lo_y, a, b, k)
                    &&& ell_running(lo_x, lo_y, a, b, (k - 1) as nat)
                    &&& 0 <= t
                    &&& (ell_state(lo_x, lo_y, a, b, k).2 + t) - (ell_state(lo_x, lo_y, a, b, k).3 - t)
                        < b
                    &&& #[trigger] in_tail(ell_state(lo_x, lo_y, a, b, k), t, x, y)
                };
            lemma_ell_state_centered(lo_x, lo_y, a, b, k);
            assert(in_tail(ell_state(lo_x, lo_y, a, b, k), t, mx, y));
            assert(in_tail(ell_state(lo_x, lo_y, a, b, k), t, x, my));
        }
    }
}

/// The sprite points the ellipse paints: its rim, or for a filled ellipse
/// every point between two rim points of the same row. A box wider or
/// taller than [`MAX_AXIS_SPAN`] paints nothing.
pub open spec fn ellipse_covers(
    lo_x: int,
    lo_y: int,
    hi_x: int,
    hi_y: int,
    fill: bool,
    x: int,
    y: int,
) -> bool {
    if hi_x - lo_x > MAX_AXIS_SPAN || hi_y - lo_y > MAX_AXIS_SPAN {
        false
    } else if fill {
        exists|x1: int, x2: int|
            x1 <= x <= x2 && #[trigger] on_rim(lo_x, lo_y, hi_x, hi_y, x1, y) && #[trigger] on_rim(
                lo_x,
                lo_y,
                hi_x,
                hi_y,
                x2,
                y,
            )
    } else {
        on_rim(lo_x, lo_y, hi_x, hi_y, x, y)
    }
}

/// Order two corners into `(min_x, min_y, max_x, max_y)`.
pub fn normalize(x0: i32, y0: i32, x1: i32, y1: i32) -> (r: (i32, i32, i32, i32))
    ensures
        r.0 == (if x0 <= x1 {
            x0
        } else {
            x1
        }),
        r.1 == (if y0 <= y1 {
            y0
        } else {
            y1
        }),
        r.2 == (if x0 >= x1 {
            x0
        } else {
            x1
        }),
        r.3 == (if y0 >= y1 {
            y0
        } else {
            y1
        }),
{
    super::draw_rectangle::normalize(x0, y0, x1, y1)
}

/// Bounds that keep the rim walk's arithmetic inside `i128`.
proof fn lemma_ell_bounds(a: int, b: int)
    requires
        1 <= a <= MAX_AXIS_SPAN,
        1 <= b <= MAX_AXIS_SPAN,
    ensures
        0 <= 8 * a * a <= 0x800_0000_0000,
        0 <= 8 * b * b <= 0x800_0000_0000,
        -0x4000_0000_0000_0000 <= 4 * (1 - a) * b * b <= 0x4000_0000_0000_0000,
        0 <= 4 * ((b % 2) + 1) * a * a <= 0x800_0000_0000,
        0 <= (b % 2) * a * a <= 0x800_0000_0000,
{
    assert(0 <= a * a <= 0x100_0000_0000) by (nonlinear_arith)
        requires
            1 <= a <= 0x10_0000,
    ;
    assert(0 <= b * b <= 0x100_0000_0000) by (nonlinear_arith)
        requires
            1 <= b <= 0x10_0000,
    ;
    assert(8 * a * a == 8 * (a * a)) by (nonlinear_arith);
    assert(8 * b * b == 8 * (b * b)) by (nonlinear_arith);
    assert(-0x4000_0000_0000_0000 <= 4 * (1 - a) * b * b <= 0) by (nonlinear_arith)
        requires
            1 <= a <= 0x10_0000,
            0 <= b * b <= 0x100_0000_0000,
    ;
    assert(0 <= 4 * ((b % 2) + 1) * a * a <= 0x800_0000_0000) by (nonlinear_arith)
        requires
            0 <= a * a <= 0x100_0000_0000,
            0 <= b % 2 <= 1,
    ;
    assert(0 <= (b % 2) * a * a <= 0x800_0000_0000) by (nonlinear_arith)
        requires
            0 <= a * a <= 0x100_0000_0000,
            0 <= b % 2 <= 1,
    ;
}

/// The points on the rim of the ellipse inscribed in the inclusive box
/// `[min_x, max_x] × [min_y, max_y]`, in the order they are plotted.
pub fn ellipse_rim(min_x: i32, min_y: i32, max_x: i32, max_y: i32) -> (r: Vec<(i64, i64)>)
    requires
        min_x <= max_x,
        min_y <= max_y,
        max_x - min_x <= MAX_AXIS_SPAN,
        max_y - min_y <= MAX_AXIS_SPAN,
    ensures
        forall|j: int|
            0 <= j < r@.len() ==> on_rim(
                min_x as int,
                min_y as int,
                max_x as int,
                max_y as int,
                (#[trigger] r@[j]).0 as int,
                r@[j].1 as int,
            ),
        forall|x: int, y: int|
            #[trigger] on_rim(min_x as int, min_y as int, max_x as int, max_y as int, x, y)
                ==> exists|j: int| 0 <= j < r@.len() && (#[trigger] r@[j]).0 == x && r@[j].1 == y,
{
    let lo_x = min_x as i64;
    let hi_x = max_x as i64;
    let lo_y = min_y as i64;
    let hi_y = max_y as i64;
    let a = hi_x - lo_x;
    let b = hi_y - lo_y;
    let mut points: Vec<(i64, i64)> = Vec::new();
    let ghost (lx, ly, hx, hy) = (lo_x as int, lo_y as int, hi_x as int, hi_y as int);
    if a == 0 && b == 0 {
        points.push((lo_x, lo_y));
        proof {
            assert forall|x: int, y: int| #[trigger] on_rim(lx, ly, hx, hy, x, y) implies exists|j: int|
                0 <= j < points@.len() && (#[trigger] points@[j]).0 == x && points@[j].1 == y by {
                assert(points@[0].0 == x && points@[0].1 == y);
            }
        }
        return points;
    }
    if a == 0 || b == 0 {
        // Degenerate box: a straight line along the non-empty axis.
        let n: i64 = if a == 0 {
            b
        } else {
            a
        };
        let mut t: i64 = 0;
        while t <= n
            invariant
                i32::MIN <= lx <= hx <= i32::MAX,
                i32::MIN <= ly <= hy <= i32::MAX,
                0 <= t <= n + 1,
                n == (if a == 0 {
                    b
                } else {
                    a
                }),
                (a == 0) != (b == 0),
                a == hx - lx,
                b == hy - ly,
                lo_x == lx,
                lo_y == ly,
                0 <= a <= MAX_AXIS_SPAN,
                0 <= b <= MAX_AXIS_SPAN,
                points@.len() == t,
                forall|j: int|
                    0 <= j < t ==> (#[trigger] points@[j]) == (if a == 0 {
                        (lo_x, (lo_y + j) as i64)
                    } else {
                        ((lo_x + j) as i64, lo_y)
                    }),
            decreases n + 1 - t,
        {
            if a == 0 {
                points.push((lo_x, lo_y + t));
            } else {
                points.push((lo_x + t, lo_y));
            }
            t = t + 1;
        }
        proof {
            assert forall|x: int, y: int| #[trigger] on_rim(lx, ly, hx, hy, x, y) implies exists|j: int|
                0 <= j < points@.len() && (#[trigger] points@[j]).0 == x && points@[j].1 == y by {
                if a == 0 {
                    assert(points@[y - ly].0 == x && points@[y - ly].1 == y);
                } else {
                    assert(points@[x - lx].0 == x && points@[x - lx].1 == y);
                }
            }
        }
        return points;
    }
    proof {
        lemma_ell_bounds(a as int, b as int);
    }
    let b1: i64 = b % 2;
    let mut x_lo: i64 = lo_x;
    let mut x_hi: i64 = hi_x;
    let mut y_top: i64 = lo_y + (b + 1) / 2;
    let mut y_bot: i64 = y_top - b1;
    let aa = a as i128;
    let bb = b as i128;
    proof {
        assert(0 <= aa * aa <= 0x100_0000_0000) by (nonlinear_arith)
            requires
                1 <= aa <= 0x10_0000,
        ;
        assert(0 <= bb * bb <= 0x100_0000_0000) by (nonlinear_arith)
            requires
                1 <= bb <= 0x10_0000,
        ;
    }
    let a2: i128 = aa * aa;
    let b2: i128 = bb * bb;
    proof {
        assert(-0x1000_0000_0000_0000 <= (1 - aa) * b2 <= 0) by (nonlinear_arith)
            requires
                1 <= aa <= 0x10_0000,
                0 <= b2 <= 0x100_0000_0000,
        ;
        assert(4 * ((1 - aa) * b2) == 4 * (1 - a) * b * b) by (nonlinear_arith)
            requires
                aa == a,
                bb == b,
                b2 == bb * bb,
        ;
        assert(4 * (b1 + 1) * a2 == 4 * (b1 + 1) * a * a) by (nonlinear_arith)
            requires
                aa == a,
                a2 == aa * aa,
        ;
        assert(b1 * a2 == b1 * a * a) by (nonlinear_arith)
            requires
                aa == a,
                a2 == aa * aa,
        ;
        assert(0 <= b1 * a2 <= a2) by (nonlinear_arith)
            requires
                0 <= b1 <= 1,
                0 <= a2,
        ;
        assert(8 * a2 == 8 * a * a) by (nonlinear_arith)
            requires
                aa == a,
                a2 == aa * aa,
        ;
        assert(8 * b2 == 8 * b * b) by (nonlinear_arith)
            requires
                bb == b,
                b2 == bb * bb,
        ;
    }
    let mut dx: i128 = 4 * ((1 - aa) * b2);
    let mut dy: i128 = 4 * (b1 as i128 + 1) * a2;
    let mut err: i128 = dx + dy + b1 as i128 * a2;
    let step_y: i128 = 8 * a2;
    let step_x: i128 = 8 * b2;
    let fuel: i64 = 4 * (a + b) + 8;
    let mut k: i64 = 0;
    let ghost (ga, gb) = (a as int, b as int);
    let mut running = true;
    while running
        invariant
            i32::MIN <= lx <= hx <= i32::MAX,
            i32::MIN <= ly <= hy <= i32::MAX,
            ga == hx - lx,
            gb == hy - ly,
            1 <= ga <= MAX_AXIS_SPAN,
            1 <= gb <= MAX_AXIS_SPAN,
            lo_x == lx,
            lo_y == ly,
            step_y == 8 * ga * ga,
            step_x == 8 * gb * gb,
            0 <= step_y <= 0x800_0000_0000,
            0 <= step_x <= 0x800_0000_0000,
            fuel == ell_fuel(ga, gb),
            0 <= k <= fuel,
            running ==> k < fuel,
            (x_lo as int, x_hi as int, y_top as int, y_bot as int, dx as int, dy as int, err as int)
                == ell_state(lx, ly, ga, gb, k as nat),
            lx <= x_lo <= x_hi + 2,
            running ==> x_lo <= x_hi,
            x_lo - lx == hx - x_hi,
            ly - k - 2 <= y_bot <= y_top <= hy + k + 2,
            0 <= dy <= 0x800_0000_0000 * (k + 1),
            -0x4000_0000_0000_0000 <= dx <= 0x4000_0000_0000_0000 + 0x800_0000_0000 * k,
            -0x10_0000_0000_0000_0000 - 0x20_0000_0000_0000_0000 * k <= err
                <= 0x10_0000_0000_0000_0000 + 0x20_0000_0000_0000_0000 * k,
            running ==> ell_running(lx, ly, ga, gb, k as nat),
            !running ==> ell_done(lx, ly, ga, gb, k as nat) && ell_running(
                lx,
                ly,
                ga,
                gb,
                (k - 1) as nat,
            ),
            forall|j: int|
                0 <= j < points@.len() ==> walk_plots(
                    lx,
                    ly,
                    ga,
                    gb,
                    (#[trigger] points@[j]).0 as int,
                    points@[j].1 as int,
                ),
            forall|m: nat, x: int, y: int|
                m < k && ell_running(lx, ly, ga, gb, m) && #[trigger] in_quad(
                    ell_state(lx, ly, ga, gb, m),
                    x,
                    y,
                ) ==> exists|j: int|
                    0 <= j < points@.len() && (#[trigger] points@[j]).0 == x && points@[j].1 == y,
        decreases fuel - k,
    {
        let ghost s0 = ell_state(lx, ly, ga, gb, k as nat);
        let ghost p0 = points@;
        let ghost q = seq![(x_hi, y_top), (x_lo, y_top), (x_lo, y_bot), (x_hi, y_bot)];
        points.push((x_hi, y_top));
        points.push((x_lo, y_top));
        points.push((x_lo, y_bot));
        points.push((x_hi, y_bot));
        let e2 = 2 * err;
        if e2 <= dy {
            y_top = y_top + 1;
            y_bot = y_bot - 1;
            dy = dy + step_y;
            err = err + dy;
        }
        if e2 >= dx || 2 * err > dy {
            x_lo = x_lo + 1;
            x_hi = x_hi - 1;
            dx = dx + step_x;
            err = err + dx;
        }
        k = k + 1;
        proof {
            assert((x_lo as int, x_hi as int, y_top as int, y_bot as int, dx as int, dy as int, err as int)
                == ell_step(s0, ga, gb));
            assert forall|j: int|
                0 <= j < points@.len() implies walk_plots(
                lx,
                ly,
                ga,
                gb,
                (#[trigger] points@[j]).0 as int,
                points@[j].1 as int,
            ) by {
                assert(points@ =~= p0 + q);
                if j >= p0.len() {
                    assert(s0 == ell_state(lx, ly, ga, gb, (k - 1) as nat));
                    assert(ell_running(lx, ly, ga, gb, (k - 1) as nat));
                    assert(points@[j] == q[j - p0.len()]);
                    assert(in_quad(
                        ell_state(lx, ly, ga, gb, (k - 1) as nat),
                        points@[j].0 as int,
                        points@[j].1 as int,
                    ));
                } else {
                    assert(points@[j] == p0[j]);
                }
            }
            assert forall|m: nat, x: int, y: int|
                m < k && ell_running(lx, ly, ga, gb, m) && #[trigger] in_quad(
                    ell_state(lx, ly, ga, gb, m),
                    x,
                    y,
                ) implies exists|j: int|
                0 <= j < points@.len() && (#[trigger] points@[j]).0 == x && points@[j].1 == y by {
                if m == k - 1 {
                    if x == s0.1 && y == s0.2 {
                        assert(points@[p0.len() as int].0 == x);
                    } else if x == s0.0 && y == s0.2 {
                        assert(points@[p0.len() + 1int].0 == x);
                    } else if x == s0.0 && y == s0.3 {
                        assert(points@[p0.len() + 2int].0 == x);
                    } else {
                        assert(points@[p0.len() + 3int].0 == x);
                    }
                } else {
                    let j = choose|j: int|
                        0 <= j < p0.len() && (#[trigger] p0[j]).0 == x && p0[j].1 == y;
                    assert(points@[j] == p0[j]);
                }
            }
        }
        if x_lo > x_hi || k >= fuel {
            running = false;
            proof {
                assert(ell_done(lx, ly, ga, gb, k as nat));
            }
        } else {
            proof {
                assert(!ell_done(lx, ly, ga, gb, k as nat));
                assert forall|m: nat| 1 <= m <= k as nat implies !#[trigger] ell_done(
                    lx,
                    ly,
                    ga,
                    gb,
                    m,
                ) by {
                    if m < k {
                        assert(ell_running(lx, ly, ga, gb, (k - 1) as nat));
                    }
                }
            }
        }
    }
    // Flat ellipses leave the y tips unplotted: walk the remaining rows one
    // pixel wide.
    let ghost sk = ell_state(lx, ly, ga, gb, k as nat);
    let ghost kk = k as nat;
    let ghost p1 = points@;
    let mut t: i64 = 0;
    while y_top - y_bot < b
        invariant
            i32::MIN <= lx <= hx <= i32::MAX,
            i32::MIN <= ly <= hy <= i32::MAX,
            gb == hy - ly,
            1 <= gb <= MAX_AXIS_SPAN,
            b == gb,
            y_top == sk.2 + t,
            y_bot == sk.3 - t,
            x_lo == sk.0,
            x_hi == sk.1,
            0 <= t,
            ly - kk - 2 - t <= y_bot <= y_top <= hy + kk + 2 + t,
            kk <= 0x100_0000,
            lx <= x_lo <= x_hi + 2,
            x_lo - lx == hx - x_hi,
            sk.3 <= sk.2,
            points@.len() >= p1.len(),
            forall|j: int| 0 <= j < p1.len() ==> #[trigger] points@[j] == p1[j],
            t == 0 || sk.2 - sk.3 + 2 * (t - 1) < gb,
            forall|j: int|
                p1.len() <= j < points@.len() ==> tail_plots(
                    sk,
                    gb,
                    t as int,
                    (#[trigger] points@[j]).0 as int,
                    points@[j].1 as int,
                ),
            forall|u: int, x: int, y: int|
                0 <= u < t && #[trigger] in_tail(sk, u, x, y) ==> exists|j: int|
                    0 <= j < points@.len() && (#[trigger] points@[j]).0 == x && points@[j].1 == y,
        decreases gb + 1 - (y_top - y_bot),
    {
        assert(sk.2 - sk.3 + 2 * t < gb);
        let ghost p0 = points@;
        let ghost q = seq![
            ((x_lo - 1) as i64, y_top),
            ((x_hi + 1) as i64, y_top),
            ((x_lo - 1) as i64, y_bot),
            ((x_hi + 1) as i64, y_bot),
        ];
        points.push((x_lo - 1, y_top));
        points.push((x_hi + 1, y_top));
        y_top = y_top + 1;
        points.push((x_lo - 1, y_bot));
        points.push((x_hi + 1, y_bot));
        y_bot = y_bot - 1;
        proof {
            assert forall|j: int|
                p1.len() <= j < points@.len() implies tail_plots(
                sk,
                gb,
                t + 1,
                (#[trigger] points@[j]).0 as int,
                points@[j].1 as int,
            ) by {
                assert(points@ =~= p0 + q);
                if j >= p0.len() {
                    assert(points@[j] == q[j - p0.len()]);
                    assert(in_tail(sk, t as int, points@[j].0 as int, points@[j].1 as int));
                } else {
                    assert(points@[j] == p0[j]);
                }
            }
            assert forall|u: int, x: int, y: int|
                0 <= u < t + 1 && #[trigger] in_tail(sk, u, x, y) implies exists|j: int|
                0 <= j < points@.len() && (#[trigger] points@[j]).0 == x && points@[j].1 == y by {
                if u == t {
                    if x == sk.0 - 1 && y == sk.2 + t {
                        assert(points@[p0.len() as int].0 == x);
                    } else if x == sk.1 + 1 && y == sk.2 + t {
                        assert(points@[p0.len() + 1int].0 == x);
                    } else if x == sk.0 - 1 && y == sk.3 - t {
                        assert(points@[p0.len() + 2int].0 == x);
                    } else {
                        assert(points@[p0.len() + 3int].0 == x);
                    }
                } else {
                    let j = choose|j: int|
                        0 <= j < p0.len() && (#[trigger] p0[j]).0 == x && p0[j].1 == y;
                    assert(points@[j] == p0[j]);
                }
            }
        }
        t = t + 1;
    }
    proof {
        assert forall|j: int| 0 <= j < points@.len() implies on_rim(
            lx,
            ly,
            hx,
            hy,
            (#[trigger] points@[j]).0 as int,
            points@[j].1 as int,
        ) by {
            if j < p1.len() {
                assert(points@[j] == p1[j]);
            } else {
                let u = choose|u: int|
                    0 <= u < t && sk.2 - sk.3 + 2 * u < gb && #[trigger] in_tail(
                        sk,
                        u,
                        points@[j].0 as int,
                        points@[j].1 as int,
                    );
                assert(in_tail(ell_state(lx, ly, ga, gb, kk), u, points@[j].0 as int, points@[j].1 as int));
                assert(ell_done(lx, ly, ga, gb, kk));
            }
        }
        assert forall|x: int, y: int| #[trigger] on_rim(lx, ly, hx, hy, x, y) implies exists|j: int|
            0 <= j < points@.len() && (#[trigger] points@[j]).0 == x && points@[j].1 == y by {
            if walk_plots(lx, ly, ga, gb, x, y) {
                let m = choose|m: nat|
                    ell_running(lx, ly, ga, gb, m) && #[trigger] in_quad(
                        ell_state(lx, ly, ga, gb, m),
                        x,
                        y,
                    );
                if m >= kk {
                    assert(!ell_done(lx, ly, ga, gb, kk));
                }
                let j = choose|j: int|
                    0 <= j < p1.len() && (#[trigger] p1[j]).0 == x && p1[j].1 == y;
                assert(points@[j] == p1[j]);
            } else {
                let (m, u) = choose|m: nat, u: int|
                    {
                        &&& ell_done(lx, ly, ga, gb, m)
                        &&& ell_running(lx, ly, ga, gb, (m - 1) as nat)
                        &&& 0 <= u
                        &&& (ell_state(lx, ly, ga, gb, m).2 + u) - (ell_state(lx, ly, ga, gb, m).3
                            - u) < gb
                        &&& #[trigger] in_tail(ell_state(lx, ly, ga, gb, m), u, x, y)
                    };
                if m < kk {
                    assert(!ell_done(lx, ly, ga, gb, m));
                } else if m > kk {
                    assert(!ell_done(lx, ly, ga, gb, kk));
                }
                assert(u < t);
            }
        }
    }
    points
}


/// Paint every rim point that lands in the cel at `position`.
fn paint_rim(
    buffer: &mut PixelBuffer,
    position: (i32, i32),
    rim: &Vec<(i64, i64)>,
    c: Rgba,
    log: &mut Vec<PriorPixel>,
    Ghost(b0): Ghost<PixelBufferModel>,
)
    requires
        rgba_wf(b0),
        old(buffer).width == b0.width,
        old(buffer).height == b0.height,
        old(buffer).color_mode == b0.color_mode,
        painted(b0, old(buffer).data@, position, |x: int, y: int| false, c),
        restore_log(old(buffer).data@, b0.width, b0.height, old(log)@) == b0.data,
    ensures
        final(buffer).width == b0.width,
        final(buffer).height == b0.height,
        final(buffer).color_mode == b0.color_mode,
        rgba_wf(final(buffer)@),
        painted(
            b0,
            final(buffer).data@,
            position,
            |x: int, y: int|
                exists|j: int| 0 <= j < rim@.len() && (#[trigger] rim@[j]).0 == x && rim@[j].1 == y,
            c,
        ),
        restore_log(final(buffer).data@, b0.width, b0.height, final(log)@) == b0.data,
{
    let n = rim.len();
    let px0 = position.0 as i64;
    let py0 = position.1 as i64;
    let w = buffer.width as i64;
    let h = buffer.height as i64;
    let mut k: usize = 0;
    proof {
        lemma_painted_agree(
            b0,
            buffer.data@,
            position,
            |x: int, y: int| false,
            |x: int, y: int|
                exists|j: int| 0 <= j < 0 && (#[trigger] rim@[j]).0 == x && rim@[j].1 == y,
            c,
        );
    }
    while k < n
        invariant
            n == rim@.len(),
            k <= n,
            px0 == position.0,
            py0 == position.1,
            w == b0.width,
            h == b0.height,
            rgba_wf(b0),
            buffer.width == b0.width,
            buffer.height == b0.height,
            buffer.color_mode == b0.color_mode,
            rgba_wf(buffer@),
            painted(
                b0,
                buffer.data@,
                position,
                |x: int, y: int|
                    exists|j: int| 0 <= j < k && (#[trigger] rim@[j]).0 == x && rim@[j].1 == y,
                c,
            ),
            restore_log(buffer.data@, b0.width, b0.height, log@) == b0.data,
        decreases n - k,
    {
        let (sx, sy) = rim[k];
        let ghost d = buffer.data@;
        if px0 <= sx && sx < px0 + w && py0 <= sy && sy < py0 + h {
            paint_local(buffer, (sx - px0) as u32, (sy - py0) as u32, c, false, log);
        }
        proof {
            let cov = |x: int, y: int|
                exists|j: int| 0 <= j < k && (#[trigger] rim@[j]).0 == x && rim@[j].1 == y;
            let next = |x: int, y: int|
                exists|j: int| 0 <= j < k + 1 && (#[trigger] rim@[j]).0 == x && rim@[j].1 == y;
            assert forall|x: int, y: int| #[trigger] next(x, y) == (cov(x, y) || (x == sx && y
                == sy)) by {
                if next(x, y) && !(x == sx && y == sy) {
                    let j = choose|j: int|
                        0 <= j < k + 1 && (#[trigger] rim@[j]).0 == x && rim@[j].1 == y;
                    assert(j != k);
                }
                if x == sx && y == sy {
                    assert(rim@[k as int].0 == x && rim@[k as int].1 == y);
                }
            }
            lemma_paint_step(b0, d, position, cov, c, sx as int, sy as int, next);
        }
        k = k + 1;
    }
}

/// For each of the `h` rows from sprite row `top` down: whether the rim
/// visits it, and the leftmost and rightmost rim x on it.
fn rim_row_extents(rim: &Vec<(i64, i64)>, top: i64, h: u32) -> (r: (Vec<bool>, Vec<i64>, Vec<i64>))
    requires
        i32::MIN <= top <= i32::MAX,
    ensures
        r.0@.len() == h,
        r.1@.len() == h,
        r.2@.len() == h,
        forall|row: int|
            0 <= row < h ==> (#[trigger] r.0@[row] <==> exists|j: int|
                0 <= j < rim@.len() && (#[trigger] rim@[j]).1 == top + row),
        forall|j: int|
            0 <= j < rim@.len() && top <= (#[trigger] rim@[j]).1 < top + h ==> r.1@[rim@[j].1 - top]
                <= rim@[j].0 <= r.2@[rim@[j].1 - top],
        forall|row: int|
            0 <= row < h && #[trigger] r.0@[row] ==> exists|j: int|
                0 <= j < rim@.len() && (#[trigger] rim@[j]).0 == r.1@[row] && rim@[j].1 == top + row,
        forall|row: int|
            0 <= row < h && #[trigger] r.0@[row] ==> exists|j: int|
                0 <= j < rim@.len() && (#[trigger] rim@[j]).0 == r.2@[row] && rim@[j].1 == top + row,
{
    let mut visited: Vec<bool> = Vec::new();
    let mut mins: Vec<i64> = Vec::new();
    let mut maxs: Vec<i64> = Vec::new();
    let mut i: u32 = 0;
    while i < h
        invariant
            i <= h,
            visited@.len() == i,
            mins@.len() == i,
            maxs@.len() == i,
            forall|row: int| 0 <= row < i ==> !(#[trigger] visited@[row]),
        decreases h - i,
    {
        visited.push(false);
        mins.push(0);
        maxs.push(0);
        i = i + 1;
    }
    let n = rim.len();
    let mut k: usize = 0;
    while k < n
        invariant
            n == rim@.len(),
            k <= n,
            i32::MIN <= top <= i32::MAX,
            visited@.len() == h,
            mins@.len() == h,
            maxs@.len() == h,
            forall|row: int|
                0 <= row < h ==> (#[trigger] visited@[row] <==> exists|j: int|
                    0 <= j < k && (#[trigger] rim@[j]).1 == top + row),
            forall|j: int|
                0 <= j < k && top <= (#[trigger] rim@[j]).1 < top + h ==> mins@[rim@[j].1 - top]
                    <= rim@[j].0 <= maxs@[rim@[j].1 - top],
            forall|row: int|
                0 <= row < h && #[trigger] visited@[row] ==> exists|j: int|
                    0 <= j < k && (#[trigger] rim@[j]).0 == mins@[row] && rim@[j].1 == top + row,
            forall|row: int|
                0 <= row < h && #[trigger] visited@[row] ==> exists|j: int|
                    0 <= j < k && (#[trigger] rim@[j]).0 == maxs@[row] && rim@[j].1 == top + row,
        decreases n - k,
    {
        let (sx, sy) = rim[k];
        let ghost (h0, lo0, hi0) = (visited@, mins@, maxs@);
        if top <= sy && sy < top + h as i64 {
            let row = (sy - top) as usize;
            if !visited[row] {
                visited.set(row, true);
                mins.set(row, sx);
                maxs.set(row, sx);
            } else {
                if sx < mins[row] {
                    mins.set(row, sx);
                }
                if sx > maxs[row] {
                    maxs.set(row, sx);
                }
            }
            proof {
                let r = row as int;
                assert forall|q: int|
                    0 <= q < h implies (#[trigger] visited@[q] <==> exists|j: int|
                    0 <= j < k + 1 && (#[trigger] rim@[j]).1 == top + q) by {
                    if q == r {
                        assert(rim@[k as int].1 == top + q);
                    } else if visited@[q] {
                        assert(h0[q]);
                    } else if exists|j: int| 0 <= j < k + 1 && (#[trigger] rim@[j]).1 == top + q {
                        let j = choose|j: int| 0 <= j < k + 1 && (#[trigger] rim@[j]).1 == top + q;
                        assert(j != k);
                        assert(h0[q]);
                    }
                }
                assert forall|j: int|
                    0 <= j < k + 1 && top <= (#[trigger] rim@[j]).1 < top + h implies mins@[rim@[j].1
                    - top] <= rim@[j].0 <= maxs@[rim@[j].1 - top] by {
                    let q = rim@[j].1 - top;
                    if j < k {
                        assert(lo0[q] <= rim@[j].0 <= hi0[q]);
                        if q == r {
                            assert(h0[q]);
                        }
                    }
                }
                assert forall|q: int|
                    0 <= q < h && #[trigger] visited@[q] implies exists|j: int|
                    0 <= j < k + 1 && (#[trigger] rim@[j]).0 == mins@[q] && rim@[j].1 == top + q by {
                    if q == r && (!h0[q] || sx < lo0[q]) {
                        assert(rim@[k as int].0 == mins@[q]);
                    } else {
                        assert(h0[q]);
                        let j = choose|j: int|
                            0 <= j < k && (#[trigger] rim@[j]).0 == lo0[q] && rim@[j].1 == top + q;
                        assert(rim@[j].0 == mins@[q]);
                    }
                }
                assert forall|q: int|
                    0 <= q < h && #[trigger] visited@[q] implies exists|j: int|
                    0 <= j < k + 1 && (#[trigger] rim@[j]).0 == maxs@[q] && rim@[j].1 == top + q by {
                    if q == r && (!h0[q] || sx > hi0[q]) {
                        assert(rim@[k as int].0 == maxs@[q]);
                    } else {
                        assert(h0[q]);
                        let j = choose|j: int|
                            0 <= j < k && (#[trigger] rim@[j]).0 == hi0[q] && rim@[j].1 == top + q;
                        assert(rim@[j].0 == maxs@[q]);
                    }
                }
            }
        } else {
            proof {
                assert forall|q: int|
                    0 <= q < h implies (#[trigger] visited@[q] <==> exists|j: int|
                    0 <= j < k + 1 && (#[trigger] rim@[j]).1 == top + q) by {
                    if exists|j: int| 0 <= j < k + 1 && (#[trigger] rim@[j]).1 == top + q {
                        let j = choose|j: int| 0 <= j < k + 1 && (#[trigger] rim@[j]).1 == top + q;
                        assert(j != k);
                    }
                }
            }
        }
        k = k + 1;
    }
    (visited, mins, maxs)
}

/// Sprite point `(x, y)` lies in the span recorded for its row: the rows
/// start at sprite row `top`.
pub open spec fn in_row_span(visited: Seq<bool>, mins: Seq<i64>, maxs: Seq<i64>, top: int, x: int, y: int) -> bool {
    let r = y - top;
    &&& 0 <= r < visited.len()
    &&& visited[r]
    &&& mins[r] <= x <= maxs[r]
}

/// Paint, on every cel row the rim visits, the span between its leftmost
/// and rightmost rim x, clipped to the cel.
fn paint_spans(
    buffer: &mut PixelBuffer,
    position: (i32, i32),
    visited: &Vec<bool>,
    mins: &Vec<i64>,
    maxs: &Vec<i64>,
    c: Rgba,
    log: &mut Vec<PriorPixel>,
    Ghost(b0): Ghost<PixelBufferModel>,
)
    requires
        rgba_wf(b0),
        old(buffer).width == b0.width,
        old(buffer).height == b0.height,
        old(buffer).color_mode == b0.color_mode,
        visited@.len() == b0.height,
        mins@.len() == b0.height,
        maxs@.len() == b0.height,
        painted(b0, old(buffer).data@, position, |x: int, y: int| false, c),
        restore_log(old(buffer).data@, b0.width, b0.height, old(log)@) == b0.data,
    ensures
        final(buffer).width == b0.width,
        final(buffer).height == b0.height,
        final(buffer).color_mode == b0.color_mode,
        rgba_wf(final(buffer)@),
        painted(
            b0,
            final(buffer).data@,
            position,
            |x: int, y: int| in_row_span(visited@, mins@, maxs@, position.1 as int, x, y),
            c,
        ),
        restore_log(final(buffer).data@, b0.width, b0.height, final(log)@) == b0.data,
{
    let px0 = position.0 as i64;
    let w = buffer.width as i64;
    let h = buffer.height;
    let ghost top = position.1 as int;
    let ghost span = |x: int, y: int| in_row_span(visited@, mins@, maxs@, top, x, y);
    let mut row: u32 = 0;
    proof {
        lemma_painted_agree(
            b0,
            buffer.data@,
            position,
            |x: int, y: int| false,
            |x: int, y: int| span(x, y) && y - top < 0,
            c,
        );
    }
    while row < h
        invariant
            row <= h,
            h == b0.height,
            px0 == position.0,
            w == b0.width,
            top == position.1,
            span == (|x: int, y: int| in_row_span(visited@, mins@, maxs@, top, x, y)),
            visited@.len() == b0.height,
            mins@.len() == b0.height,
            maxs@.len() == b0.height,
            rgba_wf(b0),
            buffer.width == b0.width,
            buffer.height == b0.height,
            buffer.color_mode == b0.color_mode,
            rgba_wf(buffer@),
            painted(b0, buffer.data@, position, |x: int, y: int| span(x, y) && y - top < row, c),
            restore_log(buffer.data@, b0.width, b0.height, log@) == b0.data,
        decreases h - row,
    {
        let ghost cov = |x: int, y: int| span(x, y) && y - top < row;
        let r = row as usize;
        let mut done = false;
        if visited[r] {
            let lo: i64 = if mins[r] < px0 {
                px0
            } else {
                mins[r]
            };
            let hi: i64 = if maxs[r] > px0 + w - 1 {
                px0 + w - 1
            } else {
                maxs[r]
            };
            if lo <= hi {
                paint_local_row(
                    buffer,
                    position,
                    (lo - px0) as u32,
                    (hi - px0 + 1) as u32,
                    row,
                    c,
                    false,
                    log,
                    Ghost(b0),
                    Ghost(cov),
                );
                proof {
                    lemma_painted_agree(
                        b0,
                        buffer.data@,
                        position,
                        |px: int, py: int|
                            cov(px, py) || (py == row + position.1 && (lo - px0) + position.0 <= px
                                < (hi - px0 + 1) + position.0),
                        |x: int, y: int| span(x, y) && y - top < row + 1,
                        c,
                    );
                }
                done = true;
            }
        }
        if !done {
            proof {
                lemma_painted_agree(
                    b0,
                    buffer.data@,
                    position,
                    cov,
                    |x: int, y: int| span(x, y) && y - top < row + 1,
                    c,
                );
            }
        }
        row = row + 1;
    }
    proof {
        lemma_painted_agree(
            b0,
            buffer.data@,
            position,
            |x: int, y: int| span(x, y) && y - top < row,
            |x: int, y: int| in_row_span(visited@, mins@, maxs@, position.1 as int, x, y),
            c,
        );
    }
}

impl DrawEllipse {
    /// Build an ellipse inscribed in the bbox of the sprite-space corners
    /// `start` and `end` on the cel at `(layer, frame)`.
    pub fn new(
        layer: LayerId,
        frame: FrameIndex,
        start: (i32, i32),
        end: (i32, i32),
        fill: bool,
        color: Rgba,
    ) -> (c: Self)
        ensures
            c == (DrawEllipse {
                layer,
                frame,
                x0: start.0,
                y0: start.1,
                x1: end.0,
                y1: end.1,
                fill,
                new_color: color,
                previous: None,
            }),
    {
        DrawEllipse {
            layer,
            frame,
            x0: start.0,
            y0: start.1,
            x1: end.0,
            y1: end.1,
            fill,
            new_color: color,
            previous: None,
        }
    }
}

impl Command for DrawEllipse {
    fn fits_doc(&self, doc: &Sprite) -> (b: bool) {
        true
    }

    open spec fn ready(&self) -> bool {
        true
    }

    fn is_ready(&self) -> (b: bool) {
        true
    }

    open spec fn applied_on(&self, doc: SpriteModel, cels: CelsModel) -> bool {
        self.previous is Some
    }

    open spec fn reverted(&self, doc: SpriteModel, cels: CelsModel) -> (SpriteModel, CelsModel) {
        (doc, logged_reverted(cels, (self.layer, self.frame), self.previous))
    }

    open spec fn fails_with(&self, doc: SpriteModel, cels: CelsModel, e: CommandError) -> bool {
        image_error(cels, self.layer, self.frame) == Some(e)
    }

    open spec fn outcome(&self, doc: SpriteModel, cels: CelsModel) -> (SpriteModel, CelsModel) {
        (
            doc,
            painted_cels(
                cels,
                (self.layer, self.frame),
                |x: int, y: int|
                    ellipse_covers(
                        if self.x0 <= self.x1 { self.x0 as int } else { self.x1 as int },
                        if self.y0 <= self.y1 { self.y0 as int } else { self.y1 as int },
                        if self.x0 >= self.x1 { self.x0 as int } else { self.x1 as int },
                        if self.y0 >= self.y1 { self.y0 as int } else { self.y1 as int },
                        self.fill,
                        x,
                        y,
                    ),
                self.new_color,
            ),
        )
    }

    open spec fn reverts_to(&self, back: Self, doc: SpriteModel, cels: CelsModel) -> bool {
        back == (DrawEllipse { previous: back.previous, ..*self })
    }

    open spec fn succeeds_on(&self, doc: SpriteModel, cels: CelsModel) -> bool {
        image_error(cels, self.layer, self.frame) is None
    }

    fn apply(&mut self, doc: &mut Sprite, cels: &mut CelMap) -> (r: Result<(), CommandError>)
        ensures
            r is Err ==> *final(self) == *old(self),
            final(doc)@ == old(doc)@,
            final(self).layer == old(self).layer,
            final(self).frame == old(self).frame,
            match r {
                Ok(_) => image_error(old(cels)@, old(self).layer, old(self).frame) is None
                    && paint_outcome(
                    old(cels)@,
                    final(cels)@,
                    (old(self).layer, old(self).frame),
                    |x: int, y: int|
                        ellipse_covers(
                            if old(self).x0 <= old(self).x1 { old(self).x0 as int } else { old(self).x1 as int },
                            if old(self).y0 <= old(self).y1 { old(self).y0 as int } else { old(self).y1 as int },
                            if old(self).x0 >= old(self).x1 { old(self).x0 as int } else { old(self).x1 as int },
                            if old(self).y0 >= old(self).y1 { old(self).y0 as int } else { old(self).y1 as int },
                            old(self).fill,
                            x,
                            y,
                        ),
                    old(self).new_color,
                ),
                Err(e) => image_error(old(cels)@, old(self).layer, old(self).frame) == Some(e),
            },
    {
        let layer = self.layer;
        let frame = self.frame;
        let color = self.new_color;
        let fill = self.fill;
        let ghost c0 = cels@;
        let ghost key = (layer, frame);
        let cel = image_target(cels, layer, frame)?;
        let position = cel.position;
        let buffer = image_mut(cel);
        let ghost b0 = buffer@;
        let (min_x, min_y, max_x, max_y) = normalize(self.x0, self.y0, self.x1, self.y1);
        let ghost (lx, ly, hx, hy) = (min_x as int, min_y as int, max_x as int, max_y as int);
        let ghost target = |x: int, y: int| ellipse_covers(lx, ly, hx, hy, fill, x, y);
        let mut prior: Vec<PriorPixel> = Vec::new();
        proof {
            lemma_painted_none(b0, position, color);
        }
        if max_x as i64 - min_x as i64 <= MAX_AXIS_SPAN && max_y as i64 - min_y as i64
            <= MAX_AXIS_SPAN {
            let rim = ellipse_rim(min_x, min_y, max_x, max_y);
            if fill {
                let (visited, mins, maxs) = rim_row_extents(&rim, position.1 as i64, buffer.height);
                paint_spans(
                    buffer,
                    position,
                    &visited,
                    &mins,
                    &maxs,
                    color,
                    &mut prior,
                    Ghost(b0),
                );
                proof {
                    let top = position.1 as int;
                    assert forall|x: int, y: int|
                        in_cel(x, y, position, b0.width, b0.height) implies #[trigger] in_row_span(
                        visited@,
                        mins@,
                        maxs@,
                        top,
                        x,
                        y,
                    ) == target(x, y) by {
                        let q = y - top;
                        if in_row_span(visited@, mins@, maxs@, top, x, y) {
                            let j1 = choose|j: int|
                                0 <= j < rim@.len() && (#[trigger] rim@[j]).0 == mins@[q] && rim@[j].1
                                    == top + q;
                            let j2 = choose|j: int|
                                0 <= j < rim@.len() && (#[trigger] rim@[j]).0 == maxs@[q] && rim@[j].1
                                    == top + q;
                            assert(on_rim(lx, ly, hx, hy, rim@[j1].0 as int, rim@[j1].1 as int));
                            assert(on_rim(lx, ly, hx, hy, rim@[j2].0 as int, rim@[j2].1 as int));
                            assert(on_rim(lx, ly, hx, hy, mins@[q] as int, y));
                            assert(on_rim(lx, ly, hx, hy, maxs@[q] as int, y));
                        }
                        if target(x, y) {
                            let (x1, x2) = choose|x1: int, x2: int|
                                x1 <= x <= x2 && #[trigger] on_rim(lx, ly, hx, hy, x1, y)
                                    && #[trigger] on_rim(lx, ly, hx, hy, x2, y);
                            let j1 = choose|j: int|
                                0 <= j < rim@.len() && (#[trigger] rim@[j]).0 == x1 && rim@[j].1 == y;
                            let j2 = choose|j: int|
                                0 <= j < rim@.len() && (#[trigger] rim@[j]).0 == x2 && rim@[j].1 == y;
                            assert(visited@[q]);
                            assert(mins@[rim@[j1].1 - top] <= rim@[j1].0);
                            assert(rim@[j2].0 <= maxs@[rim@[j2].1 - top]);
                        }
                    }
                    lemma_painted_agree(
                        b0,
                        buffer.data@,
                        position,
                        |x: int, y: int| in_row_span(visited@, mins@, maxs@, position.1 as int, x, y),
                        target,
                        color,
                    );
                }
            } else {
                paint_rim(buffer, position, &rim, color, &mut prior, Ghost(b0));
                proof {
                    assert forall|x: int, y: int|
                        in_cel(x, y, position, b0.width, b0.height) implies (exists|j: int|
                        0 <= j < rim@.len() && (#[trigger] rim@[j]).0 == x && rim@[j].1 == y)
                        == #[trigger] target(x, y) by {
                        if exists|j: int| 0 <= j < rim@.len() && (#[trigger] rim@[j]).0 == x && rim@[j].1 == y {
                            let j = choose|j: int|
                                0 <= j < rim@.len() && (#[trigger] rim@[j]).0 == x && rim@[j].1 == y;
                            assert(on_rim(lx, ly, hx, hy, rim@[j].0 as int, rim@[j].1 as int));
                        }
                        if target(x, y) {
                            assert(on_rim(lx, ly, hx, hy, x, y));
                        }
                    }
                    lemma_painted_agree(
                        b0,
                        buffer.data@,
                        position,
                        |x: int, y: int|
                            exists|j: int| 0 <= j < rim@.len() && (#[trigger] rim@[j]).0 == x && rim@[j].1 == y,
                        target,
                        color,
                    );
                }
            }
        } else {
            proof {
                lemma_painted_agree(b0, buffer.data@, position, |x: int, y: int| false, target, color);
            }
        }
        let ghost nd = buffer.data@;
        self.previous = Some(prior);
        proof {
            assert(with_image_data(cels@, key, b0.data) =~= c0);
            assert(cel_wf(cels@[key]));
            assert(with_image_data(c0, key, nd) =~= cels@);
            lemma_painted_cels(
                c0,
                cels@,
                key,
                |x: int, y: int|
                    ellipse_covers(
                        if self.x0 <= self.x1 { self.x0 as int } else { self.x1 as int },
                        if self.y0 <= self.y1 { self.y0 as int } else { self.y1 as int },
                        if self.x0 >= self.x1 { self.x0 as int } else { self.x1 as int },
                        if self.y0 >= self.y1 { self.y0 as int } else { self.y1 as int },
                        self.fill,
                        x,
                        y,
                    ),
                self.new_color,
            );
        }
        Ok(())
    }

    fn revert(&mut self, _doc: &mut Sprite, cels: &mut CelMap)
        ensures
            *final(self) == (DrawEllipse { previous: None, ..*old(self) }),
            forall|d: SpriteModel, c: CelsModel| #[trigger] final(self).reverted(d, c) == (d, c),
    {
        let prior = match self.previous.take() {
            Some(p) => p,
            None => {
                return ;
            },
        };
        revert_logged(cels, self.layer, self.frame, &prior);
    }
}

} // verus!
