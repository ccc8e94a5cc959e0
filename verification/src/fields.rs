//! The columns of a store, by the type of their rows.

use crate::column_set::StandardDataColumns;
use crate::numeric::Scalar;
use vstd::prelude::*;

verus! {

/// A lane-packed column of real numbers.
#[derive(Clone, Copy, PartialEq, Eq, Debug, Hash, Structural)]
pub enum ScalarField {
    PosX,
    PosY,
    PosZ,
    OldPosX,
    OldPosY,
    OldPosZ,
    ScaleX,
    ScaleY,
    ScaleZ,
    OldScaleX,
    OldScaleY,
    OldScaleZ,
    Damage,
    MotionX,
    MotionY,
    MotionZ,
    GravityX,
    GravityY,
    GravityZ,
    SpeedAccel,
    ForwardX,
    ForwardY,
    ForwardZ,
}

/// The number of columns that a [`ScalarField`] names.
pub const SCALAR_FIELDS: usize = 23;

impl ScalarField {
    /// The position of the column among its like, from 0.
    pub open spec fn index(self) -> int {
        match self {
            ScalarField::PosX => 0,
            ScalarField::PosY => 1,
            ScalarField::PosZ => 2,
            ScalarField::OldPosX => 3,
            ScalarField::OldPosY => 4,
            ScalarField::OldPosZ => 5,
            ScalarField::ScaleX => 6,
            ScalarField::ScaleY => 7,
            ScalarField::ScaleZ => 8,
            ScalarField::OldScaleX => 9,
            ScalarField::OldScaleY => 10,
            ScalarField::OldScaleZ => 11,
            ScalarField::Damage => 12,
            ScalarField::MotionX => 13,
            ScalarField::MotionY => 14,
            ScalarField::MotionZ => 15,
            ScalarField::GravityX => 16,
            ScalarField::GravityY => 17,
            ScalarField::GravityZ => 18,
            ScalarField::SpeedAccel => 19,
            ScalarField::ForwardX => 20,
            ScalarField::ForwardY => 21,
            ScalarField::ForwardZ => 22,
        }
    }

    /// The position of the column among its like, from 0.
    pub fn ordinal(self) -> (i: usize)
        ensures
            i == self.index(),
            i < SCALAR_FIELDS,
    {
        match self {
            ScalarField::PosX => 0,
            ScalarField::PosY => 1,
            ScalarField::PosZ => 2,
            ScalarField::OldPosX => 3,
            ScalarField::OldPosY => 4,
            ScalarField::OldPosZ => 5,
            ScalarField::ScaleX => 6,
            ScalarField::ScaleY => 7,
            ScalarField::ScaleZ => 8,
            ScalarField::OldScaleX => 9,
            ScalarField::OldScaleY => 10,
            ScalarField::OldScaleZ => 11,
            ScalarField::Damage => 12,
            ScalarField::MotionX => 13,
            ScalarField::MotionY => 14,
            ScalarField::MotionZ => 15,
            ScalarField::GravityX => 16,
            ScalarField::GravityY => 17,
            ScalarField::GravityZ => 18,
            ScalarField::SpeedAccel => 19,
            ScalarField::ForwardX => 20,
            ScalarField::ForwardY => 21,
            ScalarField::ForwardZ => 22,
        }
    }

    /// The column at position `i`.
    pub open spec fn at(i: int) -> Self {
        if i == 0 {
            ScalarField::PosX
        } else if i == 1 {
            ScalarField::PosY
        } else if i == 2 {
            ScalarField::PosZ
        } else if i == 3 {
            ScalarField::OldPosX
        } else if i == 4 {
            ScalarField::OldPosY
        } else if i == 5 {
            ScalarField::OldPosZ
        } else if i == 6 {
            ScalarField::ScaleX
        } else if i == 7 {
            ScalarField::ScaleY
        } else if i == 8 {
            ScalarField::ScaleZ
        } else if i == 9 {
            ScalarField::OldScaleX
        } else if i == 10 {
            ScalarField::OldScaleY
        } else if i == 11 {
            ScalarField::OldScaleZ
        } else if i == 12 {
            ScalarField::Damage
        } else if i == 13 {
            ScalarField::MotionX
        } else if i == 14 {
            ScalarField::MotionY
        } else if i == 15 {
            ScalarField::MotionZ
        } else if i == 16 {
            ScalarField::GravityX
        } else if i == 17 {
            ScalarField::GravityY
        } else if i == 18 {
            ScalarField::GravityZ
        } else if i == 19 {
            ScalarField::SpeedAccel
        } else if i == 20 {
            ScalarField::ForwardX
        } else if i == 21 {
            ScalarField::ForwardY
        } else {
            ScalarField::ForwardZ
        }
    }

    /// The column at position `i`.
    pub fn from_ordinal(i: usize) -> (f: Self)
        requires
            i < SCALAR_FIELDS,
        ensures
            f == Self::at(i as int),
            f.index() == i,
    {
        if i == 0 {
            ScalarField::PosX
        } else if i == 1 {
            ScalarField::PosY
        } else if i == 2 {
            ScalarField::PosZ
        } else if i == 3 {
            ScalarField::OldPosX
        } else if i == 4 {
            ScalarField::OldPosY
        } else if i == 5 {
            ScalarField::OldPosZ
        } else if i == 6 {
            ScalarField::ScaleX
        } else if i == 7 {
            ScalarField::ScaleY
        } else if i == 8 {
            ScalarField::ScaleZ
        } else if i == 9 {
            ScalarField::OldScaleX
        } else if i == 10 {
            ScalarField::OldScaleY
        } else if i == 11 {
            ScalarField::OldScaleZ
        } else if i == 12 {
            ScalarField::Damage
        } else if i == 13 {
            ScalarField::MotionX
        } else if i == 14 {
            ScalarField::MotionY
        } else if i == 15 {
            ScalarField::MotionZ
        } else if i == 16 {
            ScalarField::GravityX
        } else if i == 17 {
            ScalarField::GravityY
        } else if i == 18 {
            ScalarField::GravityZ
        } else if i == 19 {
            ScalarField::SpeedAccel
        } else if i == 20 {
            ScalarField::ForwardX
        } else if i == 21 {
            ScalarField::ForwardY
        } else {
            ScalarField::ForwardZ
        }
    }

    /// The kind that a behavior declares to have this column allocated.
    pub open spec fn kind(self) -> StandardDataColumns {
        match self {
            ScalarField::PosX => StandardDataColumns::PosX,
            ScalarField::PosY => StandardDataColumns::PosY,
            ScalarField::PosZ => StandardDataColumns::PosZ,
            ScalarField::OldPosX => StandardDataColumns::PosX,
            ScalarField::OldPosY => StandardDataColumns::PosY,
            ScalarField::OldPosZ => StandardDataColumns::PosZ,
            ScalarField::ScaleX => StandardDataColumns::ScaleX,
            ScalarField::ScaleY => StandardDataColumns::ScaleY,
            ScalarField::ScaleZ => StandardDataColumns::ScaleZ,
            ScalarField::OldScaleX => StandardDataColumns::ScaleX,
            ScalarField::OldScaleY => StandardDataColumns::ScaleY,
            ScalarField::OldScaleZ => StandardDataColumns::ScaleZ,
            ScalarField::Damage => StandardDataColumns::Damage,
            ScalarField::MotionX => StandardDataColumns::MotionX,
            ScalarField::MotionY => StandardDataColumns::MotionY,
            ScalarField::MotionZ => StandardDataColumns::MotionZ,
            ScalarField::GravityX => StandardDataColumns::GravityX,
            ScalarField::GravityY => StandardDataColumns::GravityY,
            ScalarField::GravityZ => StandardDataColumns::GravityZ,
            ScalarField::SpeedAccel => StandardDataColumns::SpeedAccel,
            ScalarField::ForwardX => StandardDataColumns::Forward,
            ScalarField::ForwardY => StandardDataColumns::Forward,
            ScalarField::ForwardZ => StandardDataColumns::Forward,
        }
    }

    /// The kind that a behavior declares to have this column allocated.
    pub fn owner(self) -> (k: StandardDataColumns)
        ensures
            k == self.kind(),
    {
        match self {
            ScalarField::PosX => StandardDataColumns::PosX,
            ScalarField::PosY => StandardDataColumns::PosY,
            ScalarField::PosZ => StandardDataColumns::PosZ,
            ScalarField::OldPosX => StandardDataColumns::PosX,
            ScalarField::OldPosY => StandardDataColumns::PosY,
            ScalarField::OldPosZ => StandardDataColumns::PosZ,
            ScalarField::ScaleX => StandardDataColumns::ScaleX,
            ScalarField::ScaleY => StandardDataColumns::ScaleY,
            ScalarField::ScaleZ => StandardDataColumns::ScaleZ,
            ScalarField::OldScaleX => StandardDataColumns::ScaleX,
            ScalarField::OldScaleY => StandardDataColumns::ScaleY,
            ScalarField::OldScaleZ => StandardDataColumns::ScaleZ,
            ScalarField::Damage => StandardDataColumns::Damage,
            ScalarField::MotionX => StandardDataColumns::MotionX,
            ScalarField::MotionY => StandardDataColumns::MotionY,
            ScalarField::MotionZ => StandardDataColumns::MotionZ,
            ScalarField::GravityX => StandardDataColumns::GravityX,
            ScalarField::GravityY => StandardDataColumns::GravityY,
            ScalarField::GravityZ => StandardDataColumns::GravityZ,
            ScalarField::SpeedAccel => StandardDataColumns::SpeedAccel,
            ScalarField::ForwardX => StandardDataColumns::Forward,
            ScalarField::ForwardY => StandardDataColumns::Forward,
            ScalarField::ForwardZ => StandardDataColumns::Forward,
        }
    }

    /// The value of a slot that no projectile has written: zero, and one
    /// for the first coordinate of the forward direction.
    pub open spec fn fill(self) -> Scalar {
        if self == ScalarField::ForwardX {
            Scalar { bits: 0x3F80_0000 }
        } else {
            Scalar { bits: 0 }
        }
    }

    /// The value of a slot that no projectile has written.
    pub fn default_value(self) -> (v: Scalar)
        ensures
            v == self.fill(),
    {
        match self {
            ScalarField::ForwardX => Scalar::one(),
            _ => Scalar::zero(),
        }
    }
}

/// A lane-packed column of packed colors.
#[derive(Clone, Copy, PartialEq, Eq, Debug, Hash, Structural)]
pub enum ColorField {
    Main,
    Secondary,
    OldMain,
    OldSecondary,
}

/// The number of columns that a [`ColorField`] names.
pub const COLOR_FIELDS: usize = 4;

impl ColorField {
    /// The position of the column among its like, from 0.
    pub open spec fn index(self) -> int {
        match self {
            ColorField::Main => 0,
            ColorField::Secondary => 1,
            ColorField::OldMain => 2,
            ColorField::OldSecondary => 3,
        }
    }

    /// The position of the column among its like, from 0.
    pub fn ordinal(self) -> (i: usize)
        ensures
            i == self.index(),
            i < COLOR_FIELDS,
    {
        match self {
            ColorField::Main => 0,
            ColorField::Secondary => 1,
            ColorField::OldMain => 2,
            ColorField::OldSecondary => 3,
        }
    }

    /// The column at position `i`.
    pub open spec fn at(i: int) -> Self {
        if i == 0 {
            ColorField::Main
        } else if i == 1 {
            ColorField::Secondary
        } else if i == 2 {
            ColorField::OldMain
        } else {
            ColorField::OldSecondary
        }
    }

    /// The column at position `i`.
    pub fn from_ordinal(i: usize) -> (f: Self)
        requires
            i < COLOR_FIELDS,
        ensures
            f == Self::at(i as int),
            f.index() == i,
    {
        if i == 0 {
            ColorField::Main
        } else if i == 1 {
            ColorField::Secondary
        } else if i == 2 {
            ColorField::OldMain
        } else {
            ColorField::OldSecondary
        }
    }

    /// The kind that a behavior declares to have this column allocated.
    pub open spec fn kind(self) -> StandardDataColumns {
        match self {
            ColorField::Main => StandardDataColumns::MainColor,
            ColorField::Secondary => StandardDataColumns::SecondaryColor,
            ColorField::OldMain => StandardDataColumns::MainColor,
            ColorField::OldSecondary => StandardDataColumns::SecondaryColor,
        }
    }

    /// The kind that a behavior declares to have this column allocated.
    pub fn owner(self) -> (k: StandardDataColumns)
        ensures
            k == self.kind(),
    {
        match self {
            ColorField::Main => StandardDataColumns::MainColor,
            ColorField::Secondary => StandardDataColumns::SecondaryColor,
            ColorField::OldMain => StandardDataColumns::MainColor,
            ColorField::OldSecondary => StandardDataColumns::SecondaryColor,
        }
    }
}

/// A dense column of rotations.
#[derive(Clone, Copy, PartialEq, Eq, Debug, Hash, Structural)]
pub enum QuatField {
    Orientation,
    OldOrientation,
    Rotation,
}

/// The number of columns that a [`QuatField`] names.
pub const QUAT_FIELDS: usize = 3;

impl QuatField {
    /// The position of the column among its like, from 0.
    pub open spec fn index(self) -> int {
        match self {
            QuatField::Orientation => 0,
            QuatField::OldOrientation => 1,
            QuatField::Rotation => 2,
        }
    }

    /// The position of the column among its like, from 0.
    pub fn ordinal(self) -> (i: usize)
        ensures
            i == self.index(),
            i < QUAT_FIELDS,
    {
        match self {
            QuatField::Orientation => 0,
            QuatField::OldOrientation => 1,
            QuatField::Rotation => 2,
        }
    }

    /// The column at position `i`.
    pub open spec fn at(i: int) -> Self {
        if i == 0 {
            QuatField::Orientation
        } else if i == 1 {
            QuatField::OldOrientation
        } else {
            QuatField::Rotation
        }
    }

    /// The column at position `i`.
    pub fn from_ordinal(i: usize) -> (f: Self)
        requires
            i < QUAT_FIELDS,
        ensures
            f == Self::at(i as int),
            f.index() == i,
    {
        if i == 0 {
            QuatField::Orientation
        } else if i == 1 {
            QuatField::OldOrientation
        } else {
            QuatField::Rotation
        }
    }

    /// The kind that a behavior declares to have this column allocated.
    pub open spec fn kind(self) -> StandardDataColumns {
        match self {
            QuatField::Orientation => StandardDataColumns::Orientation,
            QuatField::OldOrientation => StandardDataColumns::Orientation,
            QuatField::Rotation => StandardDataColumns::Rotation,
        }
    }

    /// The kind that a behavior declares to have this column allocated.
    pub fn owner(self) -> (k: StandardDataColumns)
        ensures
            k == self.kind(),
    {
        match self {
            QuatField::Orientation => StandardDataColumns::Orientation,
            QuatField::OldOrientation => StandardDataColumns::Orientation,
            QuatField::Rotation => StandardDataColumns::Rotation,
        }
    }
}

} // verus!
