//! `FillRegion` command — bucket-fill the contiguous region of pixels that
//! share a color with the seed pixel.
//!
//! Sprite-space seed coordinates are translated into cel-local space via
//! the cel's `position`. The fill is 4-connected (up / down / left / right
//! neighbors) and the tolerance is zero — only pixels whose RGBA matches the
//! seed exactly are replaced. Painting the seed color over itself is a
//! no-op (records no modified pixels, so `revert` does nothing). A seed
//! that falls outside the cel buffer is also a no-op. Indexed and grayscale
//! cels are rejected (RGBA-first).
//!
//! Traversal is a breadth-first search with a visited bitmap, so the work
//! is `O(width * height)` and each pixel is queued at most once.
use vstd::prelude::*;
use vstd::set_lib::{lemma_int_range, lemma_len_subset, set_int_range};

use super::error::CommandError;
use super::pixels::{lemma_painted_cels, painted_cels, image_buf, image_error, image_mut, image_target, local_coords, local_of, with_image_data};
use super::transform_support::lemma_pixels_determine_bytes;
use super::{cel_wf, CelsModel, Command};
use crate::document::cel::{
    lemma_pixel_in_bounds, pixel_at, rgba_wf, with_pixel, PixelBuffer, PixelBufferModel,
};
use crate::document::color::transparent_spec;
use crate::document::sprite::SpriteModel;
use crate::document::{CelMap, FrameIndex, LayerId, Rgba, Sprite};

verus! {

/// Flood-fill the 4-connected region of pixels matching the seed-pixel
/// color, replacing them with `new_color`.
#[derive(Debug, Clone, PartialEq, Eq)]
pub struct FillRegion {
    pub layer: LayerId,
    pub frame: FrameIndex,
    pub sprite_x: i32,
    pub sprite_y: i32,
    pub new_color: Rgba,
    /// `Some` after a successful `apply`; carries the prior pixel value
    /// (shared across all filled pixels) and the cel-local coordinates of
    /// every pixel that was modified, used by `revert`.
    pub previous: Option<FilledRegion>,
}

/// What a fill replaced: the one colour it painted over, and where.
#[derive(Debug, Clone, PartialEq, Eq)]
pub struct FilledRegion {
    pub prior: Rgba,
    pub pixels: Vec<(u32, u32)>,
}

/// Pixel `q` lies in buffer `b` and has colour `c`.
pub open spec fn has_color(b: PixelBufferModel, c: Rgba, q: (int, int)) -> bool {
    &&& 0 <= q.0 < b.width
    &&& 0 <= q.1 < b.height
    &&& pixel_at(b.data, b.width as int, q.0, q.1) == c
}

/// `a` and `b` are 4-neighbours.
pub open spec fn adjacent(a: (int, int), b: (int, int)) -> bool {
    ||| (a.0 == b.0 && (a.1 - b.1 == 1 || b.1 - a.1 == 1))
    ||| (a.1 == b.1 && (a.0 - b.0 == 1 || b.0 - a.0 == 1))
}

/// `p` is a 4-connected path of pixels of `b` that all have colour `c`.
pub open spec fn color_path(b: PixelBufferModel, c: Rgba, p: Seq<(int, int)>) -> bool {
    &&& p.len() >= 1
    &&& forall|i: int| 0 <= i < p.len() ==> has_color(b, c, #[trigger] p[i])
    &&& forall|i: int| 0 <= i < p.len() - 1 ==> adjacent(#[trigger] p[i], p[i + 1])
}

/// `q` is reached from `s` through 4-neighbouring pixels of colour `c`:
/// `q` is in the region of `s`.
pub open spec fn in_region(b: PixelBufferModel, c: Rgba, s: (int, int), q: (int, int)) -> bool {
    exists|p: Seq<(int, int)>| #[trigger] color_path(b, c, p) && p[0] == s && p.last() == q
}

/// The colour of the seed pixel of a fill seeded at sprite `(sx, sy)` on a
/// cel at `position` with buffer `b`, when the seed lands in the buffer.
pub open spec fn seed_color(b: PixelBufferModel, position: (i32, i32), sx: i32, sy: i32) -> Option<
    Rgba,
> {
    match local_of(sx, sy, position) {
        Some(l) => if l.0 < b.width && l.1 < b.height {
            Some(pixel_at(b.data, b.width as int, l.0 as int, l.1 as int))
        } else {
            None
        },
        None => None,
    }
}

/// The cel-local pixels a fill seeded at sprite `(sx, sy)` with colour `c`
/// repaints: the region of the seed pixel, unless the seed misses the
/// buffer or already has colour `c`.
pub open spec fn fill_covers_local(
    b: PixelBufferModel,
    position: (i32, i32),
    sx: i32,
    sy: i32,
    c: Rgba,
    q: (int, int),
) -> bool {
    match (seed_color(b, position, sx, sy), local_of(sx, sy, position)) {
        (Some(sc), Some(l)) => sc != c && in_region(b, sc, (l.0 as int, l.1 as int), q),
        _ => false,
    }
}

/// The undo record of a successful fill: the seed colour (transparent when
/// the seed missed the buffer) and every repainted pixel exactly once.
pub open spec fn fill_record(
    b: PixelBufferModel,
    position: (i32, i32),
    sx: i32,
    sy: i32,
    c: Rgba,
    rec: FilledRegion,
) -> bool {
    &&& rec.prior == match seed_color(b, position, sx, sy) {
        Some(sc) => sc,
        None => transparent_spec(),
    }
    &&& forall|i: int, j: int| 0 <= i < j < rec.pixels@.len() ==> rec.pixels@[i] != rec.pixels@[j]
    &&& forall|j: int|
        0 <= j < rec.pixels@.len() ==> fill_covers_local(
            b,
            position,
            sx,
            sy,
            c,
            ((#[trigger] rec.pixels@[j]).0 as int, rec.pixels@[j].1 as int),
        )
    &&& forall|q: (int, int)|
        #[trigger] fill_covers_local(b, position, sx, sy, c, q) ==> rec.pixels@.contains(
            (q.0 as u32, q.1 as u32),
        )
}

/// `data` with colour `c` written back at each listed pixel that lies in a
/// `w × h` buffer, first to last.
pub open spec fn restore_fill(data: Seq<u8>, w: u32, h: u32, c: Rgba, pixels: Seq<(u32, u32)>) -> Seq<
    u8,
>
    decreases pixels.len(),
{
    if pixels.len() == 0 {
        data
    } else {
        let d = restore_fill(data, w, h, c, pixels.drop_last());
        let p = pixels.last();
        if p.0 < w && p.1 < h {
            with_pixel(d, w as int, p.0 as int, p.1 as int, c)
        } else {
            d
        }
    }
}

/// What reverting a fill does to the cels: the recorded pixels of the cel
/// at `key` get the recorded colour back.
pub open spec fn fill_reverted(
    cels: CelsModel,
    key: (LayerId, FrameIndex),
    previous: Option<FilledRegion>,
) -> CelsModel {
    match previous {
        Some(r) => if image_error(cels, key.0, key.1) is None {
            let b = image_buf(cels[key]);
            with_image_data(cels, key, restore_fill(b.data, b.width, b.height, r.prior, r.pixels@))
        } else {
            cels
        },
        None => cels,
    }
}

/// Writing colour `c` back at listed pixels: a listed in-range pixel gets
/// `c`, any other keeps its value.
proof fn lemma_restore_fill(data: Seq<u8>, w: u32, h: u32, c: Rgba, pixels: Seq<(u32, u32)>)
    requires
        data.len() == w * h * 4,
    ensures
        restore_fill(data, w, h, c, pixels).len() == data.len(),
        forall|x: int, y: int|
            0 <= x < w && 0 <= y < h ==> #[trigger] pixel_at(
                restore_fill(data, w, h, c, pixels),
                w as int,
                x,
                y,
            ) == if pixels.contains((x as u32, y as u32)) {
                c
            } else {
                pixel_at(data, w as int, x, y)
            },
    decreases pixels.len(),
{
    if pixels.len() > 0 {
        let rest = pixels.drop_last();
        lemma_restore_fill(data, w, h, c, rest);
        let d = restore_fill(data, w, h, c, rest);
        let p = pixels.last();
        assert forall|x: int, y: int| 0 <= x < w && 0 <= y < h implies #[trigger] pixel_at(
            restore_fill(data, w, h, c, pixels),
            w as int,
            x,
            y,
        ) == if pixels.contains((x as u32, y as u32)) {
            c
        } else {
            pixel_at(data, w as int, x, y)
        } by {
            assert(pixels.contains((x as u32, y as u32)) <==> (rest.contains((x as u32, y as u32)) || p
                == (x as u32, y as u32))) by {
                if pixels.contains((x as u32, y as u32)) {
                    let j = choose|j: int| 0 <= j < pixels.len() && pixels[j] == (x as u32, y as u32);
                    if j < pixels.len() - 1 {
                        assert(rest[j] == pixels[j]);
                    }
                }
                if rest.contains((x as u32, y as u32)) {
                    let j = choose|j: int| 0 <= j < rest.len() && rest[j] == (x as u32, y as u32);
                    assert(pixels[j] == rest[j]);
                }
            }
            if p.0 < w && p.1 < h {
                crate::command::pixels::lemma_pixel_after_write(
                    d,
                    w as int,
                    h as int,
                    p.0 as int,
                    p.1 as int,
                    c,
                    x,
                    y,
                );
            }
        }
        if p.0 < w && p.1 < h {
            lemma_pixel_in_bounds(w as int, h as int, p.0 as int, p.1 as int);
        }
    }
}

/// Row-major index of grid cell `(x, y)` in a grid `w` wide.
pub open spec fn grid_idx(w: int, x: int, y: int) -> int {
    y * w + x
}

/// Grid indices of in-range cells are in range and distinct.
proof fn lemma_grid_idx(w: int, h: int, x: int, y: int)
    requires
        0 <= x < w,
        0 <= y < h,
    ensures
        0 <= grid_idx(w, x, y) < w * h,
        forall|x2: int, y2: int|
            0 <= x2 < w && 0 <= y2 < h && #[trigger] grid_idx(w, x2, y2) == grid_idx(w, x, y) ==> x2
                == x && y2 == y,
{
    assert(0 <= y * w + x < w * h) by (nonlinear_arith)
        requires
            0 <= x < w,
            0 <= y < h,
    ;
    assert forall|x2: int, y2: int|
        0 <= x2 < w && 0 <= y2 < h && #[trigger] grid_idx(w, x2, y2) == grid_idx(w, x, y) implies x2
        == x && y2 == y by {
        assert(y2 * w + x2 == y * w + x ==> x2 == x && y2 == y) by (nonlinear_arith)
            requires
                0 <= x < w,
                0 <= x2 < w,
                0 <= y,
                0 <= y2,
        ;
    }
}

/// A path extended by one more neighbouring pixel of the same colour is a
/// path.
proof fn lemma_path_push(b: PixelBufferModel, c: Rgba, p: Seq<(int, int)>, q: (int, int))
    requires
        color_path(b, c, p),
        adjacent(p.last(), q),
        has_color(b, c, q),
    ensures
        color_path(b, c, p.push(q)),
{
    let p2 = p.push(q);
    assert forall|i: int| 0 <= i < p2.len() implies has_color(b, c, #[trigger] p2[i]) by {
        if i < p.len() {
            assert(p2[i] == p[i]);
        }
    }
    assert forall|i: int| 0 <= i < p2.len() - 1 implies adjacent(#[trigger] p2[i], p2[i + 1]) by {
        if i < p.len() - 1 {
            assert(p2[i] == p[i]);
            assert(p2[i + 1] == p[i + 1]);
        }
    }
}

/// The region of `s` grows along an edge to a neighbour of the same colour.
proof fn lemma_region_step(b: PixelBufferModel, c: Rgba, s: (int, int), q: (int, int), n: (int, int))
    requires
        in_region(b, c, s, q),
        adjacent(q, n),
        has_color(b, c, n),
    ensures
        in_region(b, c, s, n),
{
    let p = choose|p: Seq<(int, int)>| #[trigger] color_path(b, c, p) && p[0] == s && p.last() == q;
    lemma_path_push(b, c, p, n);
    assert(p.push(n)[0] == s);
}

/// A set of pixels that holds the start of a path, and holds every in-range
/// neighbour of its pixels that has the path's colour, holds the whole path.
proof fn lemma_closed_holds_path(
    b: PixelBufferModel,
    c: Rgba,
    p: Seq<(int, int)>,
    held: spec_fn((int, int)) -> bool,
    k: int,
)
    requires
        color_path(b, c, p),
        held(p[0]),
        forall|q: (int, int), n: (int, int)|
            #[trigger] held(q) && adjacent(q, n) && #[trigger] has_color(b, c, n) ==> held(n),
        0 <= k < p.len(),
    ensures
        held(p[k]),
    decreases k,
{
    if k > 0 {
        lemma_closed_holds_path(b, c, p, held, k - 1);
        assert(adjacent(p[k - 1], p[k]));
        assert(has_color(b, c, p[k]));
    }
}

/// The cells marked in a bitmap.
spec fn marked(v: Seq<bool>) -> Set<int> {
    Set::new(|i: int| 0 <= i < v.len() && v[i])
}

/// A bitmap marks at most as many cells as it has.
proof fn lemma_marked_bound(v: Seq<bool>)
    ensures
        marked(v).finite(),
        marked(v).len() <= v.len(),
{
    lemma_int_range(0, v.len() as int);
    lemma_len_subset(marked(v), set_int_range(0, v.len() as int));
}

/// Marking an unmarked cell marks one more.
proof fn lemma_mark(v: Seq<bool>, i: int)
    requires
        0 <= i < v.len(),
        !v[i],
    ensures
        marked(v.update(i, true)).len() == marked(v).len() + 1,
{
    lemma_marked_bound(v);
    assert(marked(v.update(i, true)) =~= marked(v).insert(i));
}

/// A grid cell as a pair of integers.
pub open spec fn pt(q: (u32, u32)) -> (int, int) {
    (q.0 as int, q.1 as int)
}

/// The BFS bookkeeping of a `w × h` grid: `queue` lists every visited
/// cell exactly once, and nothing else.
spec fn queue_inv(visited: Seq<bool>, queue: Seq<(u32, u32)>, w: u32, h: u32) -> bool {
    &&& visited.len() == w * h
    &&& w * h <= usize::MAX
    &&& marked(visited).len() == queue.len()
    &&& forall|j: int|
        0 <= j < queue.len() ==> (#[trigger] queue[j]).0 < w && queue[j].1 < h
            && visited[grid_idx(w as int, queue[j].0 as int, queue[j].1 as int)]
    &&& forall|i: int, j: int| 0 <= i < j < queue.len() ==> queue[i] != queue[j]
    &&& forall|x: int, y: int|
        0 <= x < w && 0 <= y < h && #[trigger] visited[grid_idx(w as int, x, y)] ==> exists|j: int|
            0 <= j < queue.len() && queue[j] == (x as u32, y as u32)
}

/// Mark cell `(x, y)` visited and queue it, unless it already is.
fn visit(visited: &mut Vec<bool>, queue: &mut Vec<(u32, u32)>, w: u32, h: u32, x: u32, y: u32)
    requires
        x < w,
        y < h,
        queue_inv(old(visited)@, old(queue)@, w, h),
    ensures
        queue_inv(final(visited)@, final(queue)@, w, h),
        final(visited)@ == old(visited)@.update(grid_idx(w as int, x as int, y as int), true),
        final(visited)@[grid_idx(w as int, x as int, y as int)],
        forall|k: int| 0 <= k < old(visited)@.len() && #[trigger] old(visited)@[k] ==> final(visited)@[k],
        final(queue)@ == if old(visited)@[grid_idx(w as int, x as int, y as int)] {
            old(queue)@
        } else {
            old(queue)@.push((x, y))
        },
{
    proof {
        lemma_grid_idx(w as int, h as int, x as int, y as int);
        lemma_marked_bound(visited@);
    }
    let i = (y as usize) * (w as usize) + (x as usize);
    if !visited[i] {
        let ghost v0 = visited@;
        let ghost q0 = queue@;
        visited.set(i, true);
        queue.push((x, y));
        proof {
            lemma_mark(v0, i as int);
            assert forall|j: int|
                0 <= j < queue@.len() implies (#[trigger] queue@[j]).0 < w && queue@[j].1 < h
                && visited@[grid_idx(w as int, queue@[j].0 as int, queue@[j].1 as int)] by {
                if j < q0.len() {
                    assert(queue@[j] == q0[j]);
                    lemma_grid_idx(w as int, h as int, q0[j].0 as int, q0[j].1 as int);
                    assert(q0[j].0 < w && q0[j].1 < h && v0[grid_idx(w as int, q0[j].0 as int, q0[j].1 as int)]);
                } else {
                    assert(queue@[j] == (x, y));
                    assert(i == grid_idx(w as int, x as int, y as int));
                }
            }
            assert forall|a: int, b: int| 0 <= a < b < queue@.len() implies queue@[a] != queue@[b] by {
                if b == q0.len() {
                    assert(queue@[a] == q0[a]);
                    if q0[a] == (x, y) {
                        assert(v0[grid_idx(w as int, q0[a].0 as int, q0[a].1 as int)]);
                    }
                } else {
                    assert(queue@[a] == q0[a]);
                    assert(queue@[b] == q0[b]);
                }
            }
            assert forall|px: int, py: int|
                0 <= px < w && 0 <= py < h && #[trigger] visited@[grid_idx(w as int, px, py)] implies exists|j: int|
                0 <= j < queue@.len() && queue@[j] == (px as u32, py as u32) by {
                lemma_grid_idx(w as int, h as int, px, py);
                if px == x && py == y {
                    assert(queue@[q0.len() as int] == (px as u32, py as u32));
                } else {
                    assert(v0[grid_idx(w as int, px, py)]);
                    let j = choose|j: int| 0 <= j < q0.len() && q0[j] == (px as u32, py as u32);
                    assert(queue@[j] == q0[j]);
                }
            }
        }
    } else {
        proof {
            assert(visited@.update(i as int, true) =~= visited@);
        }
    }
}

/// Visit the in-grid 4-neighbours of cell `(x, y)`.
fn visit_neighbours(visited: &mut Vec<bool>, queue: &mut Vec<(u32, u32)>, w: u32, h: u32, x: u32, y: u32)
    requires
        x < w,
        y < h,
        queue_inv(old(visited)@, old(queue)@, w, h),
    ensures
        queue_inv(final(visited)@, final(queue)@, w, h),
        final(queue)@.len() >= old(queue)@.len(),
        forall|j: int| 0 <= j < old(queue)@.len() ==> #[trigger] final(queue)@[j] == old(queue)@[j],
        forall|j: int|
            old(queue)@.len() <= j < final(queue)@.len() ==> adjacent(
                (x as int, y as int),
                pt(#[trigger] final(queue)@[j]),
            ),
        forall|i: int| 0 <= i < old(visited)@.len() && #[trigger] old(visited)@[i] ==> final(visited)@[i],
        forall|n: (int, int)|
            adjacent((x as int, y as int), n) && 0 <= n.0 < w && 0 <= n.1 < h ==> #[trigger] final(visited)@[grid_idx(w as int, n.0, n.1)],
{
    let ghost v0 = visited@;
    let ghost q0 = queue@;
    if x > 0 {
        visit(visited, queue, w, h, x - 1, y);
    }
    let ghost v1 = visited@;
    let ghost q1 = queue@;
    if x + 1 < w {
        visit(visited, queue, w, h, x + 1, y);
    }
    let ghost v2 = visited@;
    let ghost q2 = queue@;
    if y > 0 {
        visit(visited, queue, w, h, x, y - 1);
    }
    let ghost v3 = visited@;
    let ghost q3 = queue@;
    if y + 1 < h {
        visit(visited, queue, w, h, x, y + 1);
    }
    proof {
        assert forall|i: int| 0 <= i < v0.len() && #[trigger] v0[i] implies visited@[i] by {
            assert(v1[i]);
            assert(v2[i]);
            assert(v3[i]);
        }
        assert forall|j: int|
            q0.len() <= j < queue@.len() implies adjacent((x as int, y as int), pt(#[trigger] queue@[j])) by {
            if j < q1.len() {
                assert(queue@[j] == q1[j]);
            } else if j < q2.len() {
                assert(queue@[j] == q2[j]);
            } else if j < q3.len() {
                assert(queue@[j] == q3[j]);
            }
        }
        assert forall|j: int| 0 <= j < q0.len() implies #[trigger] queue@[j] == q0[j] by {
            assert(q1[j] == q0[j]);
            assert(q2[j] == q1[j]);
            assert(q3[j] == q2[j]);
        }
        assert forall|n: (int, int)|
            adjacent((x as int, y as int), n) && 0 <= n.0 < w && 0 <= n.1 < h implies #[trigger] visited@[grid_idx(
            w as int,
            n.0,
            n.1,
        )] by {
            lemma_grid_idx(w as int, h as int, n.0, n.1);
            let i = grid_idx(w as int, n.0, n.1);
            if n.0 == x - 1 {
                assert(v1[i]);
                assert(v2[i]);
                assert(v3[i]);
            } else if n.0 == x + 1 {
                assert(v2[i]);
                assert(v3[i]);
            } else if n.1 == y - 1 {
                assert(v3[i]);
            }
        }
    }
}

/// Repaint with `c`, breadth first, the region of colour `sc` around
/// cel-local `(sx, sy)`; returns the repainted pixels in painting order.
#[verifier::rlimit(40)]
fn flood(buffer: &mut PixelBuffer, sx: u32, sy: u32, sc: Rgba, c: Rgba) -> (pixels: Vec<(u32, u32)>)
    requires
        rgba_wf(old(buffer)@),
        sx < old(buffer).width,
        sy < old(buffer).height,
        pixel_at(old(buffer).data@, old(buffer).width as int, sx as int, sy as int) == sc,
        sc != c,
    ensures
        final(buffer).width == old(buffer).width,
        final(buffer).height == old(buffer).height,
        final(buffer).color_mode == old(buffer).color_mode,
        rgba_wf(final(buffer)@),
        forall|i: int, j: int| 0 <= i < j < pixels@.len() ==> pixels@[i] != pixels@[j],
        forall|j: int|
            0 <= j < pixels@.len() ==> in_region(
                old(buffer)@,
                sc,
                (sx as int, sy as int),
                pt(#[trigger] pixels@[j]),
            ),
        forall|q: (int, int)|
            #[trigger] in_region(old(buffer)@, sc, (sx as int, sy as int), q) ==> pixels@.contains(
                (q.0 as u32, q.1 as u32),
            ),
        forall|x: int, y: int|
            0 <= x < old(buffer).width && 0 <= y < old(buffer).height ==> #[trigger] pixel_at(
                final(buffer).data@,
                old(buffer).width as int,
                x,
                y,
            ) == if pixels@.contains((x as u32, y as u32)) {
                c
            } else {
                pixel_at(old(buffer).data@, old(buffer).width as int, x, y)
            },
{
    let ghost b0 = buffer@;
    let w = buffer.width;
    let h = buffer.height;
    let ghost ww = w as int;
    let ghost seed = (sx as int, sy as int);
    let len = buffer.data.len();
    assert(w * h <= w * h * 4) by (nonlinear_arith);
    let total = (w as usize) * (h as usize);
    let mut visited: Vec<bool> = vec![false; total];
    let mut queue: Vec<(u32, u32)> = Vec::new();
    let mut pixels: Vec<(u32, u32)> = Vec::new();
    proof {
        assert(marked(visited@) =~= Set::empty());
        assert(len == w * h * 4);
        lemma_grid_idx(ww, h as int, sx as int, sy as int);
        assert(forall|k: int| 0 <= k < visited@.len() ==> !visited@[k]);
        assert(!visited@[grid_idx(ww, sx as int, sy as int)]);
        assert(visited@.len() == w * h);
        assert(w * h <= usize::MAX);
        assert(marked(visited@).len() == queue@.len());
        assert forall|x: int, y: int|
            0 <= x < w && 0 <= y < h && #[trigger] visited@[grid_idx(w as int, x, y)] implies false by {
            lemma_grid_idx(ww, h as int, x, y);
        }
        assert(queue_inv(visited@, queue@, w, h));
    }
    visit(&mut visited, &mut queue, w, h, sx, sy);
    proof {
        assert(color_path(b0, sc, seq![seed]));
        assert(in_region(b0, sc, seed, seed));
    }
    let mut head: usize = 0;
    while head < queue.len()
        invariant
            buffer.width == w,
            buffer.height == h,
            buffer.color_mode == b0.color_mode,
            rgba_wf(buffer@),
            rgba_wf(b0),
            w == b0.width,
            h == b0.height,
            ww == w,
            seed == (sx as int, sy as int),
            sx < w,
            sy < h,
            has_color(b0, sc, seed),
            sc != c,
            total == w * h,
            queue_inv(visited@, queue@, w, h),
            1 <= queue@.len(),
            head <= queue@.len(),
            queue@[0] == (sx, sy),
            forall|i: int|
                0 <= i < head ==> (has_color(b0, sc, pt(#[trigger] queue@[i])) <==> pixels@.contains(
                    queue@[i],
                )),
            forall|j: int|
                0 <= j < pixels@.len() ==> exists|i: int|
                    0 <= i < head && queue@[i] == #[trigger] pixels@[j],
            forall|i: int, j: int| 0 <= i < j < pixels@.len() ==> pixels@[i] != pixels@[j],
            forall|j: int| 0 <= j < pixels@.len() ==> in_region(b0, sc, seed, pt(#[trigger] pixels@[j])),
            forall|i: int|
                head <= i < queue@.len() && has_color(b0, sc, pt(#[trigger] queue@[i])) ==> in_region(
                    b0,
                    sc,
                    seed,
                    pt(queue@[i]),
                ),
            forall|j: int, n: (int, int)|
                #![trigger adjacent(pt(pixels@[j]), n)]
                0 <= j < pixels@.len() && adjacent(pt(pixels@[j]), n) && 0 <= n.0 < w && 0 <= n.1 < h
                    ==> visited@[grid_idx(ww, n.0, n.1)],
            forall|x: int, y: int|
                0 <= x < w && 0 <= y < h ==> #[trigger] pixel_at(buffer.data@, ww, x, y) == if pixels@.contains(
                    (x as u32, y as u32),
                ) {
                    c
                } else {
                    pixel_at(b0.data, ww, x, y)
                },
        decreases total - head,
    {
        proof {
            lemma_marked_bound(visited@);
        }
        let q = queue[head];
        let x = q.0;
        let y = q.1;
        let ghost h0 = head as int;
        let ghost q0 = queue@;
        let ghost p0 = pixels@;
        let ghost v0 = visited@;
        let ghost d0 = buffer.data@;
        head = head + 1;
        proof {
            if p0.contains(q) {
                let j = choose|j: int| 0 <= j < p0.len() && p0[j] == q;
                let i = choose|i: int| 0 <= i < h0 && q0[i] == p0[j];
            }
            assert(pixel_at(d0, ww, x as int, y as int) == pixel_at(b0.data, ww, x as int, y as int));
        }
        let here = buffer.read_pixel(x, y);
        if here.r == sc.r && here.g == sc.g && here.b == sc.b && here.a == sc.a {
            buffer.write_pixel(x, y, c);
            pixels.push((x, y));
            visit_neighbours(&mut visited, &mut queue, w, h, x, y);
            proof {
                let qp = pt(q);
                assert(has_color(b0, sc, qp));
                assert(in_region(b0, sc, seed, qp));
                assert forall|i: int|
                    0 <= i < head implies (has_color(b0, sc, pt(#[trigger] queue@[i])) <==> pixels@.contains(
                    queue@[i],
                )) by {
                    assert(queue@[i] == q0[i]);
                    if i < h0 {
                        assert(q0[i] != q);
                        assert(pixels@.contains(q0[i]) == p0.contains(q0[i])) by {
                            if pixels@.contains(q0[i]) {
                                let j = choose|j: int| 0 <= j < pixels@.len() && pixels@[j] == q0[i];
                                if j < p0.len() {
                                    assert(pixels@[j] == p0[j]);
                                }
                            }
                            if p0.contains(q0[i]) {
                                let j = choose|j: int| 0 <= j < p0.len() && p0[j] == q0[i];
                                assert(pixels@[j] == p0[j]);
                            }
                        }
                    } else {
                        assert(pixels@[p0.len() as int] == q);
                    }
                }
                assert forall|j: int|
                    0 <= j < pixels@.len() implies exists|i: int|
                    0 <= i < head && queue@[i] == #[trigger] pixels@[j] by {
                    if j < p0.len() {
                        assert(pixels@[j] == p0[j]);
                        let i = choose|i: int| 0 <= i < h0 && q0[i] == p0[j];
                        assert(queue@[i] == q0[i]);
                    } else {
                        assert(queue@[h0] == q0[h0]);
                    }
                }
                assert forall|a: int, b: int| 0 <= a < b < pixels@.len() implies pixels@[a] != pixels@[b] by {
                    assert(pixels@[a] == p0[a]);
                    if b < p0.len() {
                        assert(pixels@[b] == p0[b]);
                    } else if p0[a] == q {
                        assert(p0.contains(q));
                    }
                }
                assert forall|j: int|
                    0 <= j < pixels@.len() implies in_region(b0, sc, seed, pt(#[trigger] pixels@[j])) by {
                    if j < p0.len() {
                        assert(pixels@[j] == p0[j]);
                    }
                }
                assert forall|i: int|
                    head <= i < queue@.len() && has_color(b0, sc, pt(#[trigger] queue@[i])) implies in_region(
                    b0,
                    sc,
                    seed,
                    pt(queue@[i]),
                ) by {
                    if i < q0.len() {
                        assert(queue@[i] == q0[i]);
                    } else {
                        lemma_region_step(b0, sc, seed, qp, pt(queue@[i]));
                    }
                }
                assert forall|j: int, n: (int, int)|
                    #![trigger adjacent(pt(pixels@[j]), n)]
                    0 <= j < pixels@.len() && adjacent(pt(pixels@[j]), n) && 0 <= n.0 < w && 0 <= n.1 < h
                        implies visited@[grid_idx(ww, n.0, n.1)] by {
                    lemma_grid_idx(ww, h as int, n.0, n.1);
                    if j < p0.len() {
                        assert(pixels@[j] == p0[j]);
                        assert(adjacent(pt(p0[j]), n));
                        assert(v0[grid_idx(ww, n.0, n.1)]);
                    } else {
                        assert(pixels@[j] == q);
                    }
                }
                assert forall|px: int, py: int|
                    0 <= px < w && 0 <= py < h implies #[trigger] pixel_at(buffer.data@, ww, px, py) == if pixels@.contains(
                    (px as u32, py as u32),
                ) {
                    c
                } else {
                    pixel_at(b0.data, ww, px, py)
                } by {
                    crate::command::pixels::lemma_pixel_after_write(
                        d0,
                        ww,
                        h as int,
                        x as int,
                        y as int,
                        c,
                        px,
                        py,
                    );
                    assert(pixels@.contains((px as u32, py as u32)) == (p0.contains(
                        (px as u32, py as u32),
                    ) || (px == x && py == y))) by {
                        if pixels@.contains((px as u32, py as u32)) {
                            let j = choose|j: int|
                                0 <= j < pixels@.len() && pixels@[j] == (px as u32, py as u32);
                            if j < p0.len() {
                                assert(pixels@[j] == p0[j]);
                            }
                        }
                        if p0.contains((px as u32, py as u32)) {
                            let j = choose|j: int| 0 <= j < p0.len() && p0[j] == (px as u32, py as u32);
                            assert(pixels@[j] == p0[j]);
                        }
                        if px == x && py == y {
                            assert(pixels@[p0.len() as int] == q);
                        }
                    }
                }
            }
        } else {
            proof {
                assert(!has_color(b0, sc, pt(q)));
                assert forall|j: int|
                    0 <= j < pixels@.len() implies exists|i: int|
                    0 <= i < head && queue@[i] == #[trigger] pixels@[j] by {
                    let i = choose|i: int| 0 <= i < h0 && q0[i] == p0[j];
                }
            }
        }
    }
    proof {
        let held = |q: (int, int)| 0 <= q.0 < w && 0 <= q.1 < h && pixels@.contains((q.0 as u32, q.1 as u32));
        assert(has_color(b0, sc, pt(queue@[0])));
        assert(held(seed));
        assert forall|q: (int, int), n: (int, int)|
            #[trigger] held(q) && adjacent(q, n) && #[trigger] has_color(b0, sc, n) implies held(n) by {
            let j = choose|j: int| 0 <= j < pixels@.len() && pixels@[j] == (q.0 as u32, q.1 as u32);
            assert(adjacent(pt(pixels@[j]), n));
            lemma_grid_idx(ww, h as int, n.0, n.1);
            assert(visited@[grid_idx(ww, n.0, n.1)]);
            let i = choose|i: int| 0 <= i < queue@.len() && queue@[i] == (n.0 as u32, n.1 as u32);
            assert(has_color(b0, sc, pt(queue@[i])));
        }
        assert forall|q: (int, int)|
            #[trigger] in_region(b0, sc, seed, q) implies pixels@.contains((q.0 as u32, q.1 as u32)) by {
            let p = choose|p: Seq<(int, int)>| #[trigger] color_path(b0, sc, p) && p[0] == seed && p.last() == q;
            lemma_closed_holds_path(b0, sc, p, held, p.len() - 1);
        }
    }
    pixels
}

impl FillRegion {
    /// Build a fill seeded at sprite-space `(sprite_x, sprite_y)` on the cel
    /// at `(layer, frame)`.
    pub fn new(layer: LayerId, frame: FrameIndex, sprite_x: i32, sprite_y: i32, color: Rgba) -> (c:
        Self)
        ensures
            c == (FillRegion { layer, frame, sprite_x, sprite_y, new_color: color, previous: None }),
    {
        FillRegion { layer, frame, sprite_x, sprite_y, new_color: color, previous: None }
    }

    /// Number of pixels written by the most recent successful `apply`;
    /// `0` before `apply` runs or after `revert`.
    pub fn filled_count(&self) -> (n: usize)
        ensures
            n == match self.previous {
                Some(r) => r.pixels@.len(),
                None => 0,
            },
    {
        match &self.previous {
            Some(r) => r.pixels.len(),
            None => 0,
        }
    }
}

/// Write colour `c` back at each listed pixel that lies in the buffer.
fn restore_fill_pixels(buffer: &mut PixelBuffer, c: Rgba, pixels: &Vec<(u32, u32)>)
    requires
        rgba_wf(old(buffer)@),
    ensures
        final(buffer).width == old(buffer).width,
        final(buffer).height == old(buffer).height,
        final(buffer).color_mode == old(buffer).color_mode,
        rgba_wf(final(buffer)@),
        final(buffer).data@ == restore_fill(
            old(buffer).data@,
            old(buffer).width,
            old(buffer).height,
            c,
            pixels@,
        ),
{
    let w = buffer.width;
    let h = buffer.height;
    let ghost d0 = buffer.data@;
    let mut j: usize = 0;
    proof {
        assert(pixels@.take(0) =~= Seq::<(u32, u32)>::empty());
    }
    while j < pixels.len()
        invariant
            j <= pixels@.len(),
            buffer.width == w,
            buffer.height == h,
            buffer.color_mode == old(buffer).color_mode,
            w == old(buffer).width,
            h == old(buffer).height,
            rgba_wf(buffer@),
            buffer.data@ == restore_fill(d0, w, h, c, pixels@.take(j as int)),
        decreases pixels@.len() - j,
    {
        let p = pixels[j];
        if p.0 < w && p.1 < h {
            buffer.write_pixel(p.0, p.1, c);
        }
        proof {
            assert(pixels@.take(j + 1 as int).drop_last() =~= pixels@.take(j as int));
            assert(pixels@.take(j + 1 as int).last() == p);
        }
        j = j + 1;
    }
    proof {
        assert(pixels@.take(j as int) =~= pixels@);
    }
}

impl Command for FillRegion {
    fn fits_doc(&self, doc: &Sprite) -> (b: bool) {
        true
    }

    open spec fn ready(&self) -> bool {
        true
    }

    fn is_ready(&self) -> (b: bool) {
        true
    }

    open spec fn applied_on(&self, doc: SpriteModel, cels: CelsModel) -> bool {
        self.previous is Some
    }

    open spec fn reverted(&self, doc: SpriteModel, cels: CelsModel) -> (SpriteModel, CelsModel) {
        (doc, fill_reverted(cels, (self.layer, self.frame), self.previous))
    }

    open spec fn fails_with(&self, doc: SpriteModel, cels: CelsModel, e: CommandError) -> bool {
        image_error(cels, self.layer, self.frame) == Some(e)
    }

    open spec fn outcome(&self, doc: SpriteModel, cels: CelsModel) -> (SpriteModel, CelsModel) {
        let key = (self.layer, self.frame);
        let c0 = cels[key];
        (
            doc,
            painted_cels(
                cels,
                key,
                |x: int, y: int|
                    fill_covers_local(
                        image_buf(c0),
                        c0.position,
                        self.sprite_x,
                        self.sprite_y,
                        self.new_color,
                        (x - c0.position.0, y - c0.position.1),
                    ),
                self.new_color,
            ),
        )
    }

    open spec fn reverts_to(&self, back: Self, doc: SpriteModel, cels: CelsModel) -> bool {
        back == (FillRegion { previous: back.previous, ..*self })
    }

    open spec fn succeeds_on(&self, doc: SpriteModel, cels: CelsModel) -> bool {
        image_error(cels, self.layer, self.frame) is None
    }

    fn apply(&mut self, doc: &mut Sprite, cels: &mut CelMap) -> (r: Result<(), CommandError>)
        ensures
            r is Err ==> *final(self) == *old(self),
            final(doc)@ == old(doc)@,
            match r {
                Ok(_) => {
                    let key = (old(self).layer, old(self).frame);
                    let c0 = old(cels)@[key];
                    &&& image_error(old(cels)@, old(self).layer, old(self).frame) is None
                    &&& crate::command::pixels::paint_outcome(
                        old(cels)@,
                        final(cels)@,
                        key,
                        |x: int, y: int|
                            fill_covers_local(
                                image_buf(c0),
                                c0.position,
                                old(self).sprite_x,
                                old(self).sprite_y,
                                old(self).new_color,
                                (x - c0.position.0, y - c0.position.1),
                            ),
                        old(self).new_color,
                    )
                    &&& final(self).previous is Some
                    &&& fill_record(
                        image_buf(c0),
                        c0.position,
                        old(self).sprite_x,
                        old(self).sprite_y,
                        old(self).new_color,
                        final(self).previous->0,
                    )
                },
                Err(e) => image_error(old(cels)@, old(self).layer, old(self).frame) == Some(e),
            },
    {
        let layer = self.layer;
        let frame = self.frame;
        let color = self.new_color;
        let ghost c0 = cels@;
        let ghost key = (layer, frame);
        let cel = image_target(cels, layer, frame)?;
        let position = cel.position;
        let buffer = image_mut(cel);
        let ghost b0 = buffer@;
        let ghost sxy = (self.sprite_x, self.sprite_y);
        let (prior, pixels) = match local_coords(self.sprite_x, self.sprite_y, position) {
            Some(l) => {
                if l.0 < buffer.width && l.1 < buffer.height {
                    let sc = buffer.read_pixel(l.0, l.1);
                    if sc.r == color.r && sc.g == color.g && sc.b == color.b && sc.a == color.a {
                        (sc, Vec::new())
                    } else {
                        let p = flood(buffer, l.0, l.1, sc, color);
                        (sc, p)
                    }
                } else {
                    (Rgba::transparent(), Vec::new())
                }
            },
            None => (Rgba::transparent(), Vec::new()),
        };
        let ghost nd = buffer.data@;
        let ghost pv = pixels@;
        self.previous = Some(FilledRegion { prior, pixels });
        proof {
            let w = b0.width as int;
            let covered = |x: int, y: int|
                fill_covers_local(b0, position, sxy.0, sxy.1, color, (x - position.0, y - position.1));
            assert(nd.len() == b0.data.len());
            assert forall|x: int, y: int| 0 <= x < b0.width && 0 <= y < b0.height implies #[trigger] pixel_at(
                nd,
                w,
                x,
                y,
            ) == if covered(x + position.0, y + position.1) {
                color
            } else {
                pixel_at(b0.data, w, x, y)
            } by {
                assert((x + position.0) - position.0 == x);
                if pv.len() > 0 {
                    if pv.contains((x as u32, y as u32)) {
                        let j = choose|j: int| 0 <= j < pv.len() && pv[j] == (x as u32, y as u32);
                        assert(pt(pv[j]) == (x, y));
                    }
                    if covered(x + position.0, y + position.1) {
                        let l = local_of(sxy.0, sxy.1, position)->0;
                        assert(in_region(b0, prior, (l.0 as int, l.1 as int), (x, y)));
                    }
                }
            }
            assert(with_image_data(cels@, key, b0.data) =~= c0);
            assert(cel_wf(cels@[key]));
            assert(with_image_data(c0, key, nd) =~= cels@);
            lemma_painted_cels(
                c0,
                cels@,
                key,
                |x: int, y: int|
                    fill_covers_local(
                        image_buf(c0[key]),
                        c0[key].position,
                        self.sprite_x,
                        self.sprite_y,
                        self.new_color,
                        (x - c0[key].position.0, y - c0[key].position.1),
                    ),
                self.new_color,
            );
            lemma_restore_fill(nd, b0.width, b0.height, prior, pv);
            assert forall|x: int, y: int| 0 <= x < b0.width && 0 <= y < b0.height implies #[trigger] pixel_at(
                restore_fill(nd, b0.width, b0.height, prior, pv),
                w,
                x,
                y,
            ) == pixel_at(b0.data, w, x, y) by {
                if pv.contains((x as u32, y as u32)) {
                    let j = choose|j: int| 0 <= j < pv.len() && pv[j] == (x as u32, y as u32);
                    assert(pt(pv[j]) == (x, y));
                }
            }
            lemma_pixels_determine_bytes(
                restore_fill(nd, b0.width, b0.height, prior, pv),
                b0.data,
                w,
                b0.height as int,
            );
            assert(with_image_data(cels@, key, b0.data) =~= c0);
        }
        Ok(())
    }

    fn revert(&mut self, _doc: &mut Sprite, cels: &mut CelMap)
        ensures
            *final(self) == (FillRegion { previous: None, ..*old(self) }),
            forall|d: SpriteModel, c: CelsModel| #[trigger] final(self).reverted(d, c) == (d, c),
    {
        let region = match self.previous.take() {
            Some(r) => r,
            None => {
                return ;
            },
        };
        let ghost c0 = cels@;
        match image_target(cels, self.layer, self.frame) {
            Ok(cel) => {
                let buffer = image_mut(cel);
                restore_fill_pixels(buffer, region.prior, &region.pixels);
            },
            Err(_) => {},
        }
        proof {
            let key = (self.layer, self.frame);
            if image_error(c0, self.layer, self.frame) is None {
                assert(cel_wf(cels@[key]));
                assert forall|k: (LayerId, FrameIndex)| #[trigger] cels@.contains_key(k) implies cel_wf(
                    cels@[k],
                ) by {
                    if k != key {
                        assert(cel_wf(c0[k]));
                    }
                }
            }
        }
    }
}

} // verus!
