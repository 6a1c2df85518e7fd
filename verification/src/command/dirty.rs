//! [`DirtyRegion`] — the per-command description of what a successfully
//! applied (or reverted) command changed on the document.
use vstd::prelude::*;

use crate::document::{FrameIndex, LayerId};
use crate::geometry::Rect;

verus! {

/// What a command changed on the document.
#[derive(Debug, Clone, Copy, PartialEq, Eq, Structural)]
pub enum DirtyRegion {
    /// The command did not change any composite-visible state, or it has
    /// not been applied yet.
    NoChange,
    /// The whole composited canvas may have changed.
    Canvas,
    /// A specific axis-aligned sub-rect on a single `(layer, frame)` pair.
    /// Rect coordinates are in sprite space.
    Layer { layer: LayerId, frame: FrameIndex, rect: Rect },
}

/// The number of integers in `[lo, hi]`, clamped to the range of `u32`.
pub open spec fn span_u32(lo: int, hi: int) -> u32 {
    let n = hi - lo + 1;
    if n < 0 {
        0
    } else if n > u32::MAX {
        u32::MAX
    } else {
        n as u32
    }
}

/// The bounding box of two inclusive endpoints, widths clamped to `u32`.
pub open spec fn bbox_region(
    layer: LayerId,
    frame: FrameIndex,
    x0: i32,
    y0: i32,
    x1: i32,
    y1: i32,
) -> DirtyRegion {
    let min_x = if x0 <= x1 { x0 } else { x1 };
    let min_y = if y0 <= y1 { y0 } else { y1 };
    let max_x = if x0 >= x1 { x0 } else { x1 };
    let max_y = if y0 >= y1 { y0 } else { y1 };
    DirtyRegion::Layer {
        layer,
        frame,
        rect: Rect {
            x: min_x,
            y: min_y,
            width: span_u32(min_x as int, max_x as int),
            height: span_u32(min_y as int, max_y as int),
        },
    }
}

/// The number of integers in `[lo, hi]` (`lo <= hi`), clamped to `u32`.
fn clamp_span(lo: i32, hi: i32) -> (n: u32)
    requires
        lo <= hi,
    ensures
        n == span_u32(lo as int, hi as int),
{
    let n = hi as i64 - lo as i64 + 1;
    if n > u32::MAX as i64 {
        u32::MAX
    } else {
        n as u32
    }
}

impl DirtyRegion {
    /// Convenience constructor for the single-cel rect case.
    pub fn layer_rect(layer: LayerId, frame: FrameIndex, rect: Rect) -> (d: Self)
        ensures
            d == (DirtyRegion::Layer { layer, frame, rect }),
    {
        DirtyRegion::Layer { layer, frame, rect }
    }

    /// The axis-aligned bounding box of two inclusive endpoints
    /// `(x0, y0)` and `(x1, y1)` in sprite coords, on the given
    /// `(layer, frame)`.
    pub fn bbox(layer: LayerId, frame: FrameIndex, x0: i32, y0: i32, x1: i32, y1: i32) -> (d:
        Self)
        ensures
            d == bbox_region(layer, frame, x0, y0, x1, y1),
    {
        let min_x = if x0 <= x1 { x0 } else { x1 };
        let min_y = if y0 <= y1 { y0 } else { y1 };
        let max_x = if x0 >= x1 { x0 } else { x1 };
        let max_y = if y0 >= y1 { y0 } else { y1 };
        // i64 intermediate so the +1 cannot wrap on extreme i32 values.
        let w = clamp_span(min_x, max_x);
        let h = clamp_span(min_y, max_y);
        DirtyRegion::Layer { layer, frame, rect: Rect { x: min_x, y: min_y, width: w, height: h } }
    }

    /// Returns `true` when the region implies no UI repaint is needed.
    pub fn is_none(&self) -> (b: bool)
        ensures
            b == (*self is NoChange),
    {
        match self {
            DirtyRegion::NoChange => true,
            _ => false,
        }
    }
}

} // verus!
