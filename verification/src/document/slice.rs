//! Slices: named rectangles overlaid on the sprite.
use vstd::prelude::*;

use super::color::Rgba;
use super::frame::FrameIndex;
use crate::geometry::Rect;

verus! {

/// Stable identifier for a slice within a sprite.
#[derive(Debug, Clone, Copy, PartialEq, Eq, Hash, PartialOrd, Ord, Structural)]
pub struct SliceId(pub u32);

impl SliceId {
    pub fn new(value: u32) -> (id: Self)
        ensures
            id.0 == value,
    {
        SliceId(value)
    }
}

/// Per-frame geometry for a slice. A key applies from `frame` until the next
/// key's `frame` (Aseprite semantics).
#[derive(Debug, Clone, Copy, PartialEq, Eq)]
pub struct SliceKey {
    pub frame: FrameIndex,
    pub bounds: Rect,
    /// 9-patch inner rectangle, if this slice is a 9-patch.
    pub center: Option<Rect>,
    /// Optional pivot point, in sprite coordinates.
    pub pivot: Option<(i32, i32)>,
}

/// A slice: a named region with optional 9-patch and pivot data.
#[derive(Debug, PartialEq, Eq)]
pub struct Slice {
    pub id: SliceId,
    pub name: String,
    /// Visual color used to draw the slice in the editor overlay.
    pub color: Rgba,
    /// Sorted by `SliceKey::frame`, ascending.
    pub keys: Vec<SliceKey>,
}

/// Model of a slice: its fields, the name as characters, the keys as a
/// sequence.
pub struct SliceModel {
    pub id: SliceId,
    pub name: Seq<char>,
    pub color: Rgba,
    pub keys: Seq<SliceKey>,
}

impl View for Slice {
    type V = SliceModel;

    open spec fn view(&self) -> SliceModel {
        SliceModel { id: self.id, name: self.name@, color: self.color, keys: self.keys@ }
    }
}

impl Clone for Slice {
    fn clone(&self) -> (s: Self)
        ensures
            s@ == self@,
    {
        let keys = self.keys.clone();
        proof {
            assert(keys@ =~= self.keys@);
        }
        Slice { id: self.id, name: self.name.clone(), color: self.color, keys }
    }
}

} // verus!
