//! Layers: image, tilemap, and group.
use vstd::prelude::*;

use super::tileset::TilesetId;

verus! {

/// Stable identifier for a layer within a sprite.
#[derive(Debug, Clone, Copy, PartialEq, Eq, Hash, PartialOrd, Ord, Structural)]
pub struct LayerId(pub u32);

impl LayerId {
    pub fn new(value: u32) -> (id: Self)
        ensures
            id.0 == value,
    {
        LayerId(value)
    }
}

/// Aseprite blend modes, in the order of their numeric file-format codes
/// (`Normal` is 0, `Divide` is 18).
#[derive(Debug, Clone, Copy, PartialEq, Eq, Structural)]
pub enum BlendMode {
    Normal,
    Multiply,
    Screen,
    Overlay,
    Darken,
    Lighten,
    ColorDodge,
    ColorBurn,
    HardLight,
    SoftLight,
    Difference,
    Exclusion,
    Hue,
    Saturation,
    Color,
    Luminosity,
    Addition,
    Subtract,
    Divide,
}

impl Default for BlendMode {
    fn default() -> (m: Self)
        ensures
            m == BlendMode::Normal,
    {
        BlendMode::Normal
    }
}

/// The numeric `.aseprite` code of a blend mode.
pub open spec fn blend_code(m: BlendMode) -> u16 {
    match m {
        BlendMode::Normal => 0,
        BlendMode::Multiply => 1,
        BlendMode::Screen => 2,
        BlendMode::Overlay => 3,
        BlendMode::Darken => 4,
        BlendMode::Lighten => 5,
        BlendMode::ColorDodge => 6,
        BlendMode::ColorBurn => 7,
        BlendMode::HardLight => 8,
        BlendMode::SoftLight => 9,
        BlendMode::Difference => 10,
        BlendMode::Exclusion => 11,
        BlendMode::Hue => 12,
        BlendMode::Saturation => 13,
        BlendMode::Color => 14,
        BlendMode::Luminosity => 15,
        BlendMode::Addition => 16,
        BlendMode::Subtract => 17,
        BlendMode::Divide => 18,
    }
}

impl BlendMode {
    /// The numeric `.aseprite` code of this blend mode.
    pub fn code(self) -> (c: u16)
        ensures
            c == blend_code(self),
    {
        match self {
            BlendMode::Normal => 0,
            BlendMode::Multiply => 1,
            BlendMode::Screen => 2,
            BlendMode::Overlay => 3,
            BlendMode::Darken => 4,
            BlendMode::Lighten => 5,
            BlendMode::ColorDodge => 6,
            BlendMode::ColorBurn => 7,
            BlendMode::HardLight => 8,
            BlendMode::SoftLight => 9,
            BlendMode::Difference => 10,
            BlendMode::Exclusion => 11,
            BlendMode::Hue => 12,
            BlendMode::Saturation => 13,
            BlendMode::Color => 14,
            BlendMode::Luminosity => 15,
            BlendMode::Addition => 16,
            BlendMode::Subtract => 17,
            BlendMode::Divide => 18,
        }
    }
}

/// What kind of content a layer holds.
#[derive(Debug, Clone, Copy, PartialEq, Eq, Structural)]
pub enum LayerKind {
    Image,
    Tilemap { tileset_id: TilesetId },
    Group,
}

/// A layer in the sprite. Z-order is by index in `Sprite::layers`
/// (index `0` is the bottom-most layer).
#[derive(Debug, PartialEq, Eq)]
pub struct Layer {
    pub id: LayerId,
    pub name: String,
    pub kind: LayerKind,
    pub visible: bool,
    pub editable: bool,
    pub blend_mode: BlendMode,
    pub opacity: u8,
    /// `Some(parent)` if this layer is nested inside a group.
    pub parent: Option<LayerId>,
}

/// Mathematical model of a [`Layer`]: its fields, the name as characters.
pub struct LayerModel {
    pub id: LayerId,
    pub name: Seq<char>,
    pub kind: LayerKind,
    pub visible: bool,
    pub editable: bool,
    pub blend_mode: BlendMode,
    pub opacity: u8,
    pub parent: Option<LayerId>,
}

impl View for Layer {
    type V = LayerModel;

    open spec fn view(&self) -> LayerModel {
        LayerModel {
            id: self.id,
            name: self.name@,
            kind: self.kind,
            visible: self.visible,
            editable: self.editable,
            blend_mode: self.blend_mode,
            opacity: self.opacity,
            parent: self.parent,
        }
    }
}

/// The models of a sequence of layers.
pub open spec fn layers_model(s: Seq<Layer>) -> Seq<LayerModel> {
    s.map_values(|l: Layer| l@)
}

/// A fresh layer of the given kind: visible, editable, opaque, normal
/// blending, at the root of the layer tree.
pub open spec fn fresh_layer(id: LayerId, name: Seq<char>, kind: LayerKind) -> LayerModel {
    LayerModel {
        id,
        name,
        kind,
        visible: true,
        editable: true,
        blend_mode: BlendMode::Normal,
        opacity: 255,
        parent: None,
    }
}

impl Clone for Layer {
    fn clone(&self) -> (l: Self)
        ensures
            l@ == self@,
    {
        Layer {
            id: self.id,
            name: self.name.clone(),
            kind: self.kind,
            visible: self.visible,
            editable: self.editable,
            blend_mode: self.blend_mode,
            opacity: self.opacity,
            parent: self.parent,
        }
    }
}

impl Layer {
    /// Create an opaque, visible image layer.
    pub fn image(id: LayerId, name: &str) -> (l: Self)
        ensures
            l@ == fresh_layer(id, name@, LayerKind::Image),
    {
        Self::with_kind(id, name, LayerKind::Image)
    }

    /// Create a tilemap layer bound to the given tileset.
    pub fn tilemap(id: LayerId, name: &str, tileset_id: TilesetId) -> (l: Self)
        ensures
            l@ == fresh_layer(id, name@, LayerKind::Tilemap { tileset_id }),
    {
        Self::with_kind(id, name, LayerKind::Tilemap { tileset_id })
    }

    /// Create a group layer (a folder for nesting other layers).
    pub fn group(id: LayerId, name: &str) -> (l: Self)
        ensures
            l@ == fresh_layer(id, name@, LayerKind::Group),
    {
        Self::with_kind(id, name, LayerKind::Group)
    }

    fn with_kind(id: LayerId, name: &str, kind: LayerKind) -> (l: Self)
        ensures
            l@ == fresh_layer(id, name@, kind),
    {
        Layer {
            id,
            name: name.to_owned(),
            kind,
            visible: true,
            editable: true,
            blend_mode: BlendMode::Normal,
            opacity: 255,
            parent: None,
        }
    }
}

} // verus!
