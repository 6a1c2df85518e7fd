//! Shape styles: which parts of a shape are painted and in which
//! colours.
use vstd::prelude::*;
use vstd::string::StringSliceAdditionalSpecFns;

use crate::text::str_eq;

use crate::document::Rgba;

verus! {

/// Which parts of a shape are painted.
#[derive(Debug, Clone, Copy, PartialEq, Eq, Structural)]
pub enum ShapeMode {
    /// Stroke only.
    Outline,
    /// Interior only.
    Fill,
    /// Interior in the fill colour, stroke on top.
    FillOutline,
}

/// The stable wire name of each [`ShapeMode`].
pub open spec fn shape_mode_name(v: ShapeMode) -> &'static str {
    match v {
        ShapeMode::Outline => "outline",
        ShapeMode::Fill => "fill",
        ShapeMode::FillOutline => "fill_outline",
    }
}

/// Distinct shape modes have distinct wire names, so
/// [`ShapeMode::from_name`] gives back the mode whose name it is handed.
pub proof fn lemma_shape_mode_name_injective(a: ShapeMode, b: ShapeMode)
    requires
        shape_mode_name(a).spec_bytes() == shape_mode_name(b).spec_bytes(),
    ensures
        a == b,
{
    reveal_strlit("outline");
    reveal_strlit("fill");
    reveal_strlit("fill_outline");
    vstd::string::is_ascii_spec_bytes(shape_mode_name(a));
    vstd::string::is_ascii_spec_bytes(shape_mode_name(b));
    assert(vstd::string::is_ascii(shape_mode_name(a)));
    assert(vstd::string::is_ascii(shape_mode_name(b)));
}

impl ShapeMode {
    /// Stable wire name (used by the host API).
    pub fn name(self) -> (s: &'static str)
        ensures
            s == shape_mode_name(self),
    {
        match self {
            ShapeMode::Outline => "outline",
            ShapeMode::Fill => "fill",
            ShapeMode::FillOutline => "fill_outline",
        }
    }

    /// Parse a wire name produced by [`ShapeMode::name`].
    pub fn from_name(name: &str) -> (r: Option<Self>)
        ensures
            match r {
                Some(v) => name.spec_bytes() == shape_mode_name(v).spec_bytes(),
                None => forall|v: ShapeMode| name.spec_bytes() != #[trigger] shape_mode_name(v).spec_bytes(),
            },
    {
        if str_eq(name, "outline") {
            return Some(ShapeMode::Outline);
        }
        if str_eq(name, "fill") {
            return Some(ShapeMode::Fill);
        }
        if str_eq(name, "fill_outline") {
            return Some(ShapeMode::FillOutline);
        }
        proof {
            assert forall|v: ShapeMode| name.spec_bytes() != #[trigger] shape_mode_name(v).spec_bytes() by {
                match v {
                    ShapeMode::Outline => {},
                    ShapeMode::Fill => {},
                    ShapeMode::FillOutline => {},
                }
            }
        }
        None
    }
}

impl Default for ShapeMode {
    fn default() -> (v: Self)
        ensures
            v == ShapeMode::Outline,
    {
        ShapeMode::Outline
    }
}


/// Paint style of a shape: what is drawn and in which colours.
#[derive(Debug, Clone, Copy, PartialEq, Eq)]
pub struct ShapeStyle {
    pub mode: ShapeMode,
    /// Stroke thickness in pixels (clamped to at least 1 on use).
    pub stroke_width: u32,
    pub stroke: Rgba,
    pub fill: Rgba,
}

} // verus!
