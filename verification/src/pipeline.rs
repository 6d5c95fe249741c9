//! The capabilities a caller plugs into the rasterizer: shading a fragment
//! into a color, transforming vertices, and mapping pixels.

use vstd::prelude::*;

verus! {

/// A fragment shader: turns an interpolated payload into a color. The spec
/// function pins the shader down as a pure function, so tile contracts can
/// say exactly which color lands in which pixel.
pub trait Fragment<T> {
    type Color;

    /// The color the shader produces for a payload.
    spec fn fragment_spec(&self, pos: T) -> Self::Color;

    fn fragment(&self, pos: T) -> (c: Self::Color)
        ensures
            c == self.fragment_spec(pos),
    ;

    /// How a new fragment combines with the color already stored; plain
    /// overwrite unless a shader chooses otherwise.
    spec fn blend_spec(&self, prev: Self::Color, next: Self::Color) -> Self::Color;

    fn blend(&self, prev: Self::Color, next: Self::Color) -> (c: Self::Color)
        ensures
            c == self.blend_spec(prev, next),
    ;
}

/// A fragment shader that paints every covered pixel one fixed color,
/// whatever the payload.
#[derive(Clone, Copy, Debug, PartialEq, Eq, Structural)]
pub struct SetColor {
    pub color: crate::Color,
}

impl<T> Fragment<T> for SetColor {
    type Color = crate::Color;

    open spec fn fragment_spec(&self, pos: T) -> crate::Color {
        self.color
    }

    fn fragment(&self, pos: T) -> (c: crate::Color) {
        self.color
    }

    open spec fn blend_spec(&self, prev: crate::Color, next: crate::Color) -> crate::Color {
        next
    }

    fn blend(&self, prev: crate::Color, next: crate::Color) -> (c: crate::Color) {
        next
    }
}

/// One color channel from one interpolated payload component, clamped to
/// the 8-bit range.
pub open spec fn channel_spec(v: int) -> u8 {
    crate::vmath::clamp_spec(v, 0, 255) as u8
}

fn channel(v: i64) -> (r: u8)
    ensures
        r == channel_spec(v as int),
{
    if v < 0 {
        0
    } else if v > 255 {
        255
    } else {
        v as u8
    }
}

/// A fragment shader that reads an interpolated integer vector as RGB
/// channels, opaque.
#[derive(Clone, Copy, Debug, PartialEq, Eq, Structural)]
pub struct ChannelShade;

impl Fragment<crate::vmath::Vec3i> for ChannelShade {
    type Color = crate::Color;

    open spec fn fragment_spec(&self, pos: crate::vmath::Vec3i) -> crate::Color {
        crate::Color {
            r: channel_spec(pos.x as int),
            g: channel_spec(pos.y as int),
            b: channel_spec(pos.z as int),
            a: 255,
        }
    }

    fn fragment(&self, pos: crate::vmath::Vec3i) -> (c: crate::Color) {
        crate::Color { r: channel(pos.x), g: channel(pos.y), b: channel(pos.z), a: 255 }
    }

    open spec fn blend_spec(&self, prev: crate::Color, next: crate::Color) -> crate::Color {
        next
    }

    fn blend(&self, prev: crate::Color, next: crate::Color) -> (c: crate::Color) {
        next
    }
}

impl Fragment<(crate::vmath::Vec4i, crate::vmath::Vec3i)> for ChannelShade {
    type Color = crate::Color;

    open spec fn fragment_spec(&self, pos: (crate::vmath::Vec4i, crate::vmath::Vec3i)) -> crate::Color {
        crate::Color {
            r: channel_spec(pos.1.x as int),
            g: channel_spec(pos.1.y as int),
            b: channel_spec(pos.1.z as int),
            a: 255,
        }
    }

    fn fragment(&self, pos: (crate::vmath::Vec4i, crate::vmath::Vec3i)) -> (c: crate::Color) {
        crate::Color { r: channel(pos.1.x), g: channel(pos.1.y), b: channel(pos.1.z), a: 255 }
    }

    open spec fn blend_spec(&self, prev: crate::Color, next: crate::Color) -> crate::Color {
        next
    }

    fn blend(&self, prev: crate::Color, next: crate::Color) -> (c: crate::Color) {
        next
    }
}

/// A vertex transform.
pub trait Vertex<T> {
    type Out;

    fn vertex(&self, v: T) -> Self::Out;
}

/// A per-pixel mapping over a finished buffer.
pub trait Mapping<T> {
    type Out;

    fn mapping(&self, pixel: T) -> Self::Out;
}

} // verus!
