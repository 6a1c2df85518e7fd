//! Text layout options.
use vstd::prelude::*;
use vstd::string::StringSliceAdditionalSpecFns;

use crate::text::str_eq;

verus! {

/// Horizontal alignment of text lines within the text block.
#[derive(Debug, Clone, Copy, PartialEq, Eq, Structural)]
pub enum TextAlign {
    Left,
    Center,
    Right,
}

/// The stable wire name of each [`TextAlign`].
pub open spec fn text_align_name(v: TextAlign) -> &'static str {
    match v {
        TextAlign::Left => "left",
        TextAlign::Center => "center",
        TextAlign::Right => "right",
    }
}

/// Distinct text alignments have distinct wire names, so
/// [`TextAlign::from_name`] gives back the value whose name it is handed.
pub proof fn lemma_text_align_name_injective(a: TextAlign, b: TextAlign)
    requires
        text_align_name(a).spec_bytes() == text_align_name(b).spec_bytes(),
    ensures
        a == b,
{
    reveal_strlit("left");
    reveal_strlit("center");
    reveal_strlit("right");
    vstd::string::is_ascii_spec_bytes(text_align_name(a));
    vstd::string::is_ascii_spec_bytes(text_align_name(b));
    assert(vstd::string::is_ascii(text_align_name(a)));
    assert(vstd::string::is_ascii(text_align_name(b)));
    assert(text_align_name(a)@ =~= text_align_name(b)@) by {
        assert forall|i: int| 0 <= i < text_align_name(a)@.len() implies text_align_name(a)@[i] == text_align_name(b)@[i] by {
            assert(text_align_name(a).spec_bytes()[i] == text_align_name(b).spec_bytes()[i]);
        }
    }
}

impl TextAlign {
    /// Stable wire name (used by the host API).
    pub fn name(self) -> (s: &'static str)
        ensures
            s == text_align_name(self),
    {
        match self {
            TextAlign::Left => "left",
            TextAlign::Center => "center",
            TextAlign::Right => "right",
        }
    }

    /// Parse a wire name produced by [`TextAlign::name`].
    pub fn from_name(name: &str) -> (r: Option<Self>)
        ensures
            match r {
                Some(v) => name.spec_bytes() == text_align_name(v).spec_bytes(),
                None => forall|v: TextAlign| name.spec_bytes() != #[trigger] text_align_name(v).spec_bytes(),
            },
    {
        if str_eq(name, "left") {
            return Some(TextAlign::Left);
        }
        if str_eq(name, "center") {
            return Some(TextAlign::Center);
        }
        if str_eq(name, "right") {
            return Some(TextAlign::Right);
        }
        proof {
            assert forall|v: TextAlign| name.spec_bytes() != #[trigger] text_align_name(v).spec_bytes() by {
                match v {
                    TextAlign::Left => {},
                    TextAlign::Center => {},
                    TextAlign::Right => {},
                }
            }
        }
        None
    }
}

impl Default for TextAlign {
    fn default() -> (v: Self)
        ensures
            v == TextAlign::Left,
    {
        TextAlign::Left
    }
}


} // verus!
