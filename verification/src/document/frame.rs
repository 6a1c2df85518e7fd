//! Frame metadata. Per-frame cel data lives in the cel map, not here.
use vstd::prelude::*;

verus! {

/// Index of a frame in `Sprite::frames`.
#[derive(Debug, Clone, Copy, PartialEq, Eq, Hash, PartialOrd, Ord, Structural)]
pub struct FrameIndex(pub u32);

impl FrameIndex {
    pub fn new(value: u32) -> (f: Self)
        ensures
            f.0 == value,
    {
        FrameIndex(value)
    }
}

/// A single frame's metadata.
#[derive(Debug, Clone, Copy, PartialEq, Eq, Structural)]
pub struct Frame {
    /// Per-frame display duration in milliseconds (Aseprite native unit).
    pub duration_ms: u16,
}

impl Frame {
    pub fn new(duration_ms: u16) -> (f: Self)
        ensures
            f.duration_ms == duration_ms,
    {
        Frame { duration_ms }
    }
}

impl Default for Frame {
    fn default() -> (f: Self)
        ensures
            f.duration_ms == 100,
    {
        Frame { duration_ms: 100 }
    }
}

} // verus!
