use pincel_core::{Anchor, Interpolation, Orientation, ShapeMode, TextAlign};

#[test]
fn shape_mode_names_round_trip() {
    for m in [ShapeMode::Outline, ShapeMode::Fill, ShapeMode::FillOutline] {
        assert_eq!(ShapeMode::from_name(m.name()), Some(m));
    }
    assert_eq!(ShapeMode::from_name("stroke"), None);
}

#[test]
fn text_align_names_round_trip() {
    for a in [TextAlign::Left, TextAlign::Center, TextAlign::Right] {
        assert_eq!(TextAlign::from_name(a.name()), Some(a));
    }
    assert_eq!(TextAlign::from_name("justify"), None);
}

#[test]
fn interpolation_names_round_trip() {
    for f in [Interpolation::Nearest, Interpolation::Bilinear, Interpolation::Bicubic] {
        assert_eq!(Interpolation::from_name(f.name()), Some(f));
    }
    assert_eq!(Interpolation::from_name("lanczos"), None);
}

#[test]
fn orientation_names_round_trip() {
    for o in [
        Orientation::FlipHorizontal,
        Orientation::FlipVertical,
        Orientation::Rotate90Cw,
        Orientation::Rotate90Ccw,
        Orientation::Rotate180,
    ] {
        assert_eq!(Orientation::from_name(o.name()), Some(o));
    }
    assert_eq!(Orientation::from_name("rotate_270"), None);
}

#[test]
fn anchor_names_round_trip() {
    for a in [
        Anchor::TopLeft,
        Anchor::Top,
        Anchor::TopRight,
        Anchor::Left,
        Anchor::Center,
        Anchor::Right,
        Anchor::BottomLeft,
        Anchor::Bottom,
        Anchor::BottomRight,
    ] {
        assert_eq!(Anchor::from_name(a.name()), Some(a));
    }
    assert_eq!(Anchor::from_name("middle"), None);
}
