//! Animation tags.
use vstd::prelude::*;

use super::color::{white_spec, Rgba};
use super::frame::FrameIndex;

verus! {

/// Playback direction for an animation tag.
#[derive(Debug, Clone, Copy, PartialEq, Eq, Structural)]
pub enum TagDirection {
    Forward,
    Reverse,
    Pingpong,
    PingpongReverse,
}

impl Default for TagDirection {
    fn default() -> (d: Self)
        ensures
            d == TagDirection::Forward,
    {
        TagDirection::Forward
    }
}

/// A named range of frames with playback metadata.
#[derive(Debug, PartialEq, Eq)]
pub struct Tag {
    pub name: String,
    pub from: FrameIndex,
    pub to: FrameIndex,
    pub direction: TagDirection,
    pub color: Rgba,
    /// `0` means infinite repeats.
    pub repeats: u16,
}

/// Model of a tag: its fields, the name as characters.
pub struct TagModel {
    pub name: Seq<char>,
    pub from: FrameIndex,
    pub to: FrameIndex,
    pub direction: TagDirection,
    pub color: Rgba,
    pub repeats: u16,
}

impl View for Tag {
    type V = TagModel;

    open spec fn view(&self) -> TagModel {
        TagModel {
            name: self.name@,
            from: self.from,
            to: self.to,
            direction: self.direction,
            color: self.color,
            repeats: self.repeats,
        }
    }
}

impl Clone for Tag {
    fn clone(&self) -> (t: Self)
        ensures
            t@ == self@,
    {
        Tag {
            name: self.name.clone(),
            from: self.from,
            to: self.to,
            direction: self.direction,
            color: self.color,
            repeats: self.repeats,
        }
    }
}

impl Tag {
    /// Forward-playing tag with default (white) color and infinite repeats.
    pub fn new(name: &str, from: FrameIndex, to: FrameIndex) -> (t: Self)
        ensures
            t@ == (TagModel {
                name: name@,
                from,
                to,
                direction: TagDirection::Forward,
                color: white_spec(),
                repeats: 0,
            }),
    {
        Tag {
            name: name.to_owned(),
            from,
            to,
            direction: TagDirection::Forward,
            color: Rgba::white(),
            repeats: 0,
        }
    }
}

} // verus!
