use vstd::prelude::*;

verus! {

/// Opacities are measured in thousandths: this value means fully opaque.
pub const OPACITY_SCALE: u16 = 1000;

/// An RGB paint color.
#[derive(Clone, Copy, Debug, PartialEq, Eq, Structural)]
pub struct Color {
    pub red: u8,
    pub green: u8,
    pub blue: u8,
}

impl Color {
    pub fn new_rgb(red: u8, green: u8, blue: u8) -> (c: Color)
        ensures
            c == (Color { red, green, blue }),
    {
        Color { red, green, blue }
    }

    pub fn black() -> (c: Color)
        ensures
            c == (Color { red: 0u8, green: 0u8, blue: 0u8 }),
    {
        Color { red: 0, green: 0, blue: 0 }
    }
}

/// A fill paint: a color with an opacity in `[0, OPACITY_SCALE]`.
#[derive(Clone, Copy, Debug, PartialEq, Eq, Structural)]
pub struct Fill {
    pub color: Color,
    pub opacity: u16,
}

/// A stroke paint: a color with an opacity in `[0, OPACITY_SCALE]` and a
/// positive width.
#[derive(Clone, Copy, Debug, PartialEq, Eq, Structural)]
pub struct Stroke {
    pub color: Color,
    pub opacity: u16,
    pub width: u32,
}

/// The paint attributes of one node: an optional fill and an optional stroke.
/// Immutable once attached to a node.
#[derive(Clone, Copy, Debug, PartialEq, Eq, Structural)]
pub struct PaintStyle {
    pub fill: Option<Fill>,
    pub stroke: Option<Stroke>,
}

/// A 2-D affine transform, stored as its six matrix entries. The assembler
/// never computes with transforms; it only carries them to the output tree.
#[derive(Clone, Copy, Debug, PartialEq, Eq, Structural)]
pub struct Transform {
    pub sx: i32,
    pub kx: i32,
    pub ky: i32,
    pub sy: i32,
    pub tx: i32,
    pub ty: i32,
}

impl Transform {
    /// The identity transform (unit scale, no skew, no translation).
    pub fn identity() -> (t: Transform)
        ensures
            t == Transform::spec_identity(),
    {
        Transform { sx: 1, kx: 0, ky: 0, sy: 1, tx: 0, ty: 0 }
    }

    pub open spec fn spec_identity() -> Transform {
        Transform { sx: 1i32, kx: 0i32, ky: 0i32, sy: 1i32, tx: 0i32, ty: 0i32 }
    }

    /// A pure translation.
    pub fn from_translate(tx: i32, ty: i32) -> (t: Transform)
        ensures
            t == (Transform { tx, ty, ..Transform::spec_identity() }),
    {
        Transform { sx: 1, kx: 0, ky: 0, sy: 1, tx, ty }
    }
}

/// An opacity clamped into `[0, OPACITY_SCALE]`.
pub open spec fn clamped_opacity(opacity: u16) -> u16 {
    if opacity > OPACITY_SCALE {
        OPACITY_SCALE
    } else {
        opacity
    }
}

/// Utility function to build a [`Fill`]; the opacity is clamped to the
/// valid range.
pub fn fill(color: Color, opacity: u16) -> (f: Fill)
    ensures
        f.color == color,
        f.opacity == clamped_opacity(opacity),
{
    let clamped = if opacity > OPACITY_SCALE {
        OPACITY_SCALE
    } else {
        opacity
    };
    Fill { color, opacity: clamped }
}

/// Utility function to build a [`Stroke`]; the opacity is clamped to the
/// valid range. The width must be positive.
pub fn stroke(color: Color, opacity: u16, width: u32) -> (s: Stroke)
    requires
        width > 0,
    ensures
        s.color == color,
        s.opacity == clamped_opacity(opacity),
        s.width == width,
{
    let clamped = if opacity > OPACITY_SCALE {
        OPACITY_SCALE
    } else {
        opacity
    };
    Stroke { color, opacity: clamped, width }
}

} // verus!
