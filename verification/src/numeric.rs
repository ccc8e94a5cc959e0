//! Real-valued attributes as the engine carries them, and the arithmetic it
//! asks of its host.
//!
//! The engine stores and moves real numbers but never computes with them
//! itself: every sum, product, rotation and interpolation is asked of a
//! [`Numerics`] the embedder supplies. A real number is therefore kept as
//! the 32 bits of its IEEE-754 single-precision encoding.

use crate::color::ColorHex;
use vstd::prelude::*;

verus! {

/// A single-precision real number, by the bits of its IEEE-754 encoding.
#[derive(Clone, Copy, PartialEq, Eq, Debug, Hash, Structural)]
pub struct Scalar {
    pub bits: u32,
}

impl Scalar {
    /// Positive zero.
    pub fn zero() -> (r: Scalar)
        ensures
            r.bits == 0,
    {
        Scalar { bits: 0 }
    }

    /// One.
    pub fn one() -> (r: Scalar)
        ensures
            r.bits == 0x3F80_0000,
    {
        Scalar { bits: 0x3F80_0000 }
    }

    /// The number with this encoding.
    pub fn from_bits(bits: u32) -> (r: Scalar)
        ensures
            r.bits == bits,
    {
        Scalar { bits }
    }

    /// The encoding of this number.
    pub fn to_bits(self) -> (bits: u32)
        ensures
            bits == self.bits,
    {
        self.bits
    }

    /// Whether the encoding is a NaN: all exponent bits set and a mantissa
    /// that is not zero.
    pub open spec fn is_nan(self) -> bool {
        (self.bits & 0x7F80_0000) == 0x7F80_0000 && (self.bits & 0x007F_FFFF) != 0
    }
}

/// A rotation as a unit quaternion `w + xi + yj + zk`.
#[derive(Clone, Copy, PartialEq, Eq, Debug, Structural)]
pub struct Quat {
    pub x: Scalar,
    pub y: Scalar,
    pub z: Scalar,
    pub w: Scalar,
}

impl Quat {
    /// The rotation that turns nothing.
    pub fn identity() -> (q: Quat)
        ensures
            q == Quat::spec_identity(),
    {
        Quat { x: Scalar::zero(), y: Scalar::zero(), z: Scalar::zero(), w: Scalar::one() }
    }

    /// The rotation that turns nothing.
    pub open spec fn spec_identity() -> Quat {
        Quat {
            x: Scalar { bits: 0 },
            y: Scalar { bits: 0 },
            z: Scalar { bits: 0 },
            w: Scalar { bits: 0x3F80_0000 },
        }
    }
}

/// A direction: three coordinates of a vector of length one.
#[derive(Clone, Copy, PartialEq, Eq, Debug, Structural)]
pub struct Unit3 {
    pub x: Scalar,
    pub y: Scalar,
    pub z: Scalar,
}

/// Three real coordinates.
#[derive(Clone, Copy, PartialEq, Eq, Debug, Structural)]
pub struct Triple {
    pub x: Scalar,
    pub y: Scalar,
    pub z: Scalar,
}

/// A 4×4 matrix in column-major order.
#[derive(Clone, Copy, Debug)]
pub struct Mat4 {
    pub m: [Scalar; 16],
}

impl Mat4 {
    /// The entry of the identity matrix at position `i` of the
    /// column-major array.
    pub open spec fn identity_entry(i: int) -> Scalar {
        if i % 5 == 0 {
            Scalar { bits: 0x3F80_0000 }
        } else {
            Scalar { bits: 0 }
        }
    }

    /// The entries of the identity matrix.
    pub open spec fn identity_entries() -> Seq<Scalar> {
        Seq::new(16, |i: int| Mat4::identity_entry(i))
    }

    /// Whether this is the identity matrix.
    pub open spec fn is_identity(&self) -> bool {
        self.m@ == Mat4::identity_entries()
    }

    /// The identity matrix.
    pub fn identity() -> (m: Mat4)
        ensures
            m.is_identity(),
    {
        let o = Scalar::one();
        let z = Scalar::zero();
        let m = Mat4 { m: [o, z, z, z, z, o, z, z, z, z, o, z, z, z, z, o] };
        assert(m.m@ =~= Mat4::identity_entries());
        m
    }
}

/// What a render pass reads of one slot to place it in model space: scale,
/// position and orientation, each at the previous tick and at the current
/// one.
#[derive(Clone, Copy, Debug)]
pub struct Pose {
    pub old_scale: Triple,
    pub scale: Triple,
    pub old_pos: Triple,
    pub pos: Triple,
    pub old_orientation: Quat,
    pub orientation: Quat,
}

/// The arithmetic on real numbers that the engine asks of its host.
///
/// Nothing is assumed of an implementation. Where the engine states what it
/// computed, it names the call it made and its arguments: the result is
/// whatever that call gave.
pub trait Numerics {
    /// `a + b`.
    fn sum(&self, a: Scalar, b: Scalar) -> Scalar;

    /// `a · b`.
    fn product(&self, a: Scalar, b: Scalar) -> Scalar;

    /// A tick count as a real number.
    fn of_ticks(&self, ticks: i16) -> Scalar;

    /// The rotation `a · b`: first `b`, then `a`.
    fn rotate(&self, a: Quat, b: Quat) -> Quat;

    /// The direction `v` turned by `by`, at length one.
    fn turn(&self, by: Quat, v: Unit3) -> Unit3;

    /// The direction of `(x, y, z)`.
    fn normalize(&self, x: Scalar, y: Scalar, z: Scalar) -> Unit3;

    /// The model matrix of a pose between two ticks: the interpolated
    /// orientation, times the interpolated translation, times the
    /// interpolated scale.
    fn local_transform(&self, pose: Pose, partial_ticks: Scalar) -> Mat4;

    /// The matrix product `parent · child`.
    fn compose(&self, parent: Mat4, child: Mat4) -> Mat4;

    /// The color between `from` and `to` at `partial_ticks`, interpolated
    /// through hue, saturation and value along the shorter arc of hue.
    fn blend_color(&self, from: ColorHex, to: ColorHex, partial_ticks: Scalar) -> ColorHex;
}

/// `r` is what `numerics` gave for `a + b`.
pub open spec fn is_sum<N: Numerics>(numerics: &N, a: Scalar, b: Scalar, r: Scalar) -> bool {
    call_ensures(N::sum, (numerics, a, b), r)
}

/// `r` is what `numerics` gave for `a · b`.
pub open spec fn is_product<N: Numerics>(numerics: &N, a: Scalar, b: Scalar, r: Scalar) -> bool {
    call_ensures(N::product, (numerics, a, b), r)
}

/// `r` is what `numerics` gave for the tick count `ticks`.
pub open spec fn is_ticks<N: Numerics>(numerics: &N, ticks: i16, r: Scalar) -> bool {
    call_ensures(N::of_ticks, (numerics, ticks), r)
}

/// `r` is what `numerics` gave for `acc + a · b`, the product taken first.
pub open spec fn is_sum_with_product<N: Numerics>(
    numerics: &N,
    acc: Scalar,
    a: Scalar,
    b: Scalar,
    r: Scalar,
) -> bool {
    exists|p: Scalar| #[trigger] is_product(numerics, a, b, p) && is_sum(numerics, acc, p, r)
}

/// `r` is what `numerics` gave for `acc + a · ticks`: the tick count is
/// made a real number, then multiplied, then added.
pub open spec fn is_sum_with_ticks<N: Numerics>(
    numerics: &N,
    acc: Scalar,
    a: Scalar,
    ticks: i16,
    r: Scalar,
) -> bool {
    exists|t: Scalar| #[trigger]
        is_ticks(numerics, ticks, t) && is_sum_with_product(numerics, acc, a, t, r)
}

/// `r` is what `numerics` gave for the rotation `a · b`.
pub open spec fn is_rotation<N: Numerics>(numerics: &N, a: Quat, b: Quat, r: Quat) -> bool {
    call_ensures(N::rotate, (numerics, a, b), r)
}

/// `r` is what `numerics` gave for the direction of `(x, y, z)`.
pub open spec fn is_direction<N: Numerics>(
    numerics: &N,
    x: Scalar,
    y: Scalar,
    z: Scalar,
    r: Unit3,
) -> bool {
    call_ensures(N::normalize, (numerics, x, y, z), r)
}

/// `r` is what `numerics` gave for the direction of `(x, y, z)` turned by
/// `by`: the direction is taken first, then turned.
pub open spec fn is_turned<N: Numerics>(
    numerics: &N,
    by: Quat,
    x: Scalar,
    y: Scalar,
    z: Scalar,
    r: Unit3,
) -> bool {
    exists|v: Unit3| #[trigger]
        is_direction(numerics, x, y, z, v) && call_ensures(N::turn, (numerics, by, v), r)
}

/// The encodings that fill fresh slots are numbers, not NaNs.
pub proof fn lemma_fills_are_numbers()
    ensures
        !(Scalar { bits: 0 }).is_nan(),
        !(Scalar { bits: 0x3F80_0000 }).is_nan(),
        forall|i: int| !(#[trigger] Mat4::identity_entry(i)).is_nan(),
{
    assert((0u32 & 0x7F80_0000) != 0x7F80_0000) by (bit_vector);
    assert((0x3F80_0000u32 & 0x7F80_0000) != 0x7F80_0000) by (bit_vector);
}

} // verus!
