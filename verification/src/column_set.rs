//! Column kinds and sets of them.

use vstd::prelude::*;

verus! {

/// The kinds of attribute a behavior can declare that it needs. A bucket
/// allocates storage for a kind only when one of its behaviors needs it.
#[derive(Clone, Copy, PartialEq, Eq, Debug, Hash, Structural)]
pub enum StandardDataColumns {
    PosX,
    PosY,
    PosZ,
    ScaleX,
    ScaleY,
    ScaleZ,
    Orientation,
    MainColor,
    SecondaryColor,
    Damage,
    Appearance,
    MotionX,
    MotionY,
    MotionZ,
    GravityX,
    GravityY,
    GravityZ,
    SpeedAccel,
    Rotation,
    Forward,
}

impl StandardDataColumns {
    /// The position of the kind in the declaration, from 0.
    pub open spec fn index(self) -> nat {
        match self {
            StandardDataColumns::PosX => 0,
            StandardDataColumns::PosY => 1,
            StandardDataColumns::PosZ => 2,
            StandardDataColumns::ScaleX => 3,
            StandardDataColumns::ScaleY => 4,
            StandardDataColumns::ScaleZ => 5,
            StandardDataColumns::Orientation => 6,
            StandardDataColumns::MainColor => 7,
            StandardDataColumns::SecondaryColor => 8,
            StandardDataColumns::Damage => 9,
            StandardDataColumns::Appearance => 10,
            StandardDataColumns::MotionX => 11,
            StandardDataColumns::MotionY => 12,
            StandardDataColumns::MotionZ => 13,
            StandardDataColumns::GravityX => 14,
            StandardDataColumns::GravityY => 15,
            StandardDataColumns::GravityZ => 16,
            StandardDataColumns::SpeedAccel => 17,
            StandardDataColumns::Rotation => 18,
            StandardDataColumns::Forward => 19,
        }
    }

    /// The position of the kind in the declaration, from 0.
    pub fn ordinal(self) -> (i: u32)
        ensures
            i == self.index(),
            i < 20,
    {
        match self {
            StandardDataColumns::PosX => 0,
            StandardDataColumns::PosY => 1,
            StandardDataColumns::PosZ => 2,
            StandardDataColumns::ScaleX => 3,
            StandardDataColumns::ScaleY => 4,
            StandardDataColumns::ScaleZ => 5,
            StandardDataColumns::Orientation => 6,
            StandardDataColumns::MainColor => 7,
            StandardDataColumns::SecondaryColor => 8,
            StandardDataColumns::Damage => 9,
            StandardDataColumns::Appearance => 10,
            StandardDataColumns::MotionX => 11,
            StandardDataColumns::MotionY => 12,
            StandardDataColumns::MotionZ => 13,
            StandardDataColumns::GravityX => 14,
            StandardDataColumns::GravityY => 15,
            StandardDataColumns::GravityZ => 16,
            StandardDataColumns::SpeedAccel => 17,
            StandardDataColumns::Rotation => 18,
            StandardDataColumns::Forward => 19,
        }
    }
}

/// The column kinds, by their short name.
pub type DataColumns = StandardDataColumns;

/// Whether bit `i` of `bits` is set.
pub open spec fn has_bit(bits: u32, i: nat) -> bool {
    i < 32 && (bits >> (i as u32)) & 1 == 1
}

/// A set of column kinds, one bit per kind.
#[derive(Clone, Copy, Debug)]
pub struct ColumnSet {
    bits: u32,
}

impl View for ColumnSet {
    type V = Set<StandardDataColumns>;

    closed spec fn view(&self) -> Set<StandardDataColumns> {
        Set::new(|c: StandardDataColumns| has_bit(self.bits, c.index()))
    }
}

impl ColumnSet {
    /// The set without any kind.
    pub fn empty() -> (s: ColumnSet)
        ensures
            s@ == Set::<StandardDataColumns>::empty(),
    {
        let s = ColumnSet { bits: 0 };
        proof {
            assert forall|c: StandardDataColumns| !s@.contains(c) by {
                lemma_no_bit(c.index() as u32);
            }
            assert(s@ =~= Set::<StandardDataColumns>::empty());
        }
        s
    }

    /// The set that holds `kind` and nothing else.
    pub fn only(kind: StandardDataColumns) -> (s: ColumnSet)
        ensures
            s@ == Set::<StandardDataColumns>::empty().insert(kind),
    {
        ColumnSet::empty().with(kind)
    }

    /// This set and `kind`.
    pub fn with(self, kind: StandardDataColumns) -> (s: ColumnSet)
        ensures
            s@ == self@.insert(kind),
    {
        let k: u32 = kind.ordinal();
        let s = ColumnSet { bits: self.bits | (1u32 << k) };
        proof {
            assert forall|c: StandardDataColumns|
                s@.contains(c) == self@.insert(kind).contains(c) by {
                lemma_one_more_bit(self.bits, k, c.index() as u32);
            }
            assert(s@ =~= self@.insert(kind));
        }
        s
    }

    /// Whether `kind` is in the set.
    pub fn contains(&self, kind: StandardDataColumns) -> (b: bool)
        ensures
            b == self@.contains(kind),
    {
        let k: u32 = kind.ordinal();
        (self.bits >> k) & 1 == 1
    }

    /// The kinds that are in this set or in `other`.
    pub fn union(self, other: ColumnSet) -> (s: ColumnSet)
        ensures
            s@ == self@.union(other@),
    {
        let s = ColumnSet { bits: self.bits | other.bits };
        proof {
            assert forall|c: StandardDataColumns|
                s@.contains(c) == self@.union(other@).contains(c) by {
                lemma_either_bit(self.bits, other.bits, c.index() as u32);
            }
            assert(s@ =~= self@.union(other@));
        }
        s
    }

    /// The kinds that are in this set and in `other`.
    pub fn intersection(self, other: ColumnSet) -> (s: ColumnSet)
        ensures
            s@ == self@.intersect(other@),
    {
        let s = ColumnSet { bits: self.bits & other.bits };
        proof {
            assert forall|c: StandardDataColumns|
                s@.contains(c) == self@.intersect(other@).contains(c) by {
                lemma_both_bits(self.bits, other.bits, c.index() as u32);
            }
            assert(s@ =~= self@.intersect(other@));
        }
        s
    }
}

proof fn lemma_no_bit(i: u32)
    requires
        i < 32,
    ensures
        (0u32 >> i) & 1 == 0,
{
    assert((0u32 >> i) & 1 == 0) by (bit_vector)
        requires
            i < 32,
    ;
}

proof fn lemma_one_more_bit(a: u32, k: u32, i: u32)
    requires
        k < 32,
        i < 32,
    ensures
        (((a | (1u32 << k)) >> i) & 1 == 1) == (i == k || (a >> i) & 1 == 1),
{
    assert((((a | (1u32 << k)) >> i) & 1 == 1) == (i == k || (a >> i) & 1 == 1)) by (bit_vector)
        requires
            k < 32,
            i < 32,
    ;
}

proof fn lemma_either_bit(a: u32, b: u32, i: u32)
    requires
        i < 32,
    ensures
        (((a | b) >> i) & 1 == 1) == ((a >> i) & 1 == 1 || (b >> i) & 1 == 1),
{
    assert((((a | b) >> i) & 1 == 1) == ((a >> i) & 1 == 1 || (b >> i) & 1 == 1)) by (bit_vector)
        requires
            i < 32,
    ;
}

proof fn lemma_both_bits(a: u32, b: u32, i: u32)
    requires
        i < 32,
    ensures
        (((a & b) >> i) & 1 == 1) == ((a >> i) & 1 == 1 && (b >> i) & 1 == 1),
{
    assert((((a & b) >> i) & 1 == 1) == ((a >> i) & 1 == 1 && (b >> i) & 1 == 1)) by (bit_vector)
        requires
            i < 32,
    ;
}

} // verus!
