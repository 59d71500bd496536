//! Coordinates, colors and vertices.
use vstd::prelude::*;

verus! {

/// A coordinate: a single-precision float (IEEE 754 binary32), held as its bit pattern.
///
/// Two scalars are equal here when their bit patterns are. What the numbers themselves are is
/// asked with [`Scalar::is_nan`] and [`Scalar::is_zero`].
#[derive(Clone, Copy, Debug, PartialEq, Eq, Structural)]
pub struct Scalar {
    pub bits: u32,
}

impl Scalar {
    /// The eight exponent bits.
    pub open spec fn exponent(self) -> int {
        (self.bits as int / 0x80_0000) % 0x100
    }

    /// The twenty-three fraction bits.
    pub open spec fn fraction(self) -> int {
        self.bits as int % 0x80_0000
    }

    /// Not a number: all exponent bits set and some fraction bit set.
    pub open spec fn nan(self) -> bool {
        self.exponent() == 0xff && self.fraction() != 0
    }

    /// Zero of either sign: no exponent bit and no fraction bit set.
    pub open spec fn zero(self) -> bool {
        self.exponent() == 0 && self.fraction() == 0
    }

    /// Is this not a number?
    pub fn is_nan(&self) -> (r: bool)
        ensures
            r == self.nan(),
    {
        self.bits % 0x8000_0000 > 0x7f80_0000
    }

    /// Does this compare equal to zero? Both `+0.0` and `-0.0` do, and nothing else does.
    pub fn is_zero(&self) -> (r: bool)
        ensures
            r == self.zero(),
    {
        self.bits % 0x8000_0000 == 0
    }
}

/// No scalar is both zero and not a number, and the sign bit matters to neither question.
pub proof fn law_scalar_classes(s: Scalar, t: Scalar)
    requires
        s.exponent() == t.exponent(),
        s.fraction() == t.fraction(),
    ensures
        !(s.zero() && s.nan()),
        s.zero() == t.zero(),
        s.nan() == t.nan(),
{
}

/// Exactly two bit patterns are zero, and those above the patterns of the two infinities, within
/// their sign, are not numbers.
pub proof fn law_scalar_bits(s: Scalar)
    ensures
        s.zero() <==> s.bits == 0 || s.bits == 0x8000_0000,
        s.nan() <==> 0x7f80_0000 < s.bits < 0x8000_0000 || 0xff80_0000 < s.bits,
{
}

/// A point or an offset.
#[derive(Clone, Copy, Debug, PartialEq, Eq, Structural)]
pub struct Pos2 {
    pub x: Scalar,
    pub y: Scalar,
}

impl Pos2 {
    /// The point whose two coordinates are `+0.0`.
    pub open spec fn origin() -> Pos2 {
        Pos2 { x: Scalar { bits: 0 }, y: Scalar { bits: 0 } }
    }

    /// Does a coordinate hold no number?
    pub open spec fn nan(self) -> bool {
        self.x.nan() || self.y.nan()
    }

    /// Do both coordinates compare equal to zero?
    pub open spec fn zero(self) -> bool {
        self.x.zero() && self.y.zero()
    }

    /// The point itself, or the origin if a coordinate of it is not a number.
    pub open spec fn or_origin(self) -> Pos2 {
        if self.nan() {
            Self::origin()
        } else {
            self
        }
    }

    /// Is a coordinate not a number?
    pub fn is_nan(&self) -> (r: bool)
        ensures
            r == self.nan(),
    {
        self.x.is_nan() || self.y.is_nan()
    }

    /// Do both coordinates compare equal to zero?
    pub fn is_zero(&self) -> (r: bool)
        ensures
            r == self.zero(),
    {
        self.x.is_zero() && self.y.is_zero()
    }

    /// Replaces a point that is not a number by the origin.
    ///
    /// Skia drops a whole mesh when one of its positions is not a number.
    pub fn fixed(&self) -> (r: Pos2)
        ensures
            r == self.or_origin(),
            !r.nan(),
    {
        if self.is_nan() {
            Pos2 { x: Scalar { bits: 0 }, y: Scalar { bits: 0 } }
        } else {
            *self
        }
    }
}

/// A point of two numbers keeps both coordinates where they are, and any other point goes to the
/// place where all bits of both are zero.
pub proof fn law_points_are_fixed(p: Pos2)
    ensures
        p.nan() <==> p.x.nan() || p.y.nan(),
        p.zero() <==> p.x.zero() && p.y.zero(),
        !p.x.nan() && !p.y.nan() ==> p.or_origin().x == p.x && p.or_origin().y == p.y,
        p.x.nan() || p.y.nan() ==> p.or_origin().x.bits == 0 && p.or_origin().y.bits == 0,
{
}

/// An axis-aligned rectangle.
#[derive(Clone, Copy, Debug, PartialEq, Eq, Structural)]
pub struct Rect {
    pub min: Pos2,
    pub max: Pos2,
}

/// A color with premultiplied alpha.
#[derive(Clone, Copy, Debug, PartialEq, Eq, Structural)]
pub struct Color32 {
    pub r: u8,
    pub g: u8,
    pub b: u8,
    pub a: u8,
}

impl Color32 {
    /// The channels in the order red, green, blue, alpha.
    pub open spec fn channels(self) -> Seq<u8> {
        seq![self.r, self.g, self.b, self.a]
    }
}

/// A corner of a triangle.
#[derive(Clone, Copy, Debug, PartialEq, Eq, Structural)]
pub struct Vertex {
    pub pos: Pos2,
    pub uv: Pos2,
    pub color: Color32,
}

} // verus!
