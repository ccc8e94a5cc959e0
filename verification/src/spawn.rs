//! Spawn descriptors: what a projectile is made from.

use crate::column_set::ColumnSet;
use crate::fields::{ColorField, QuatField, ScalarField};
use crate::form::Form;
use crate::names::names;
use crate::numeric::{Quat, Scalar, Unit3};
use std::collections::HashMap;
use vstd::prelude::*;

verus! {

/// One initial attribute of a projectile.
#[derive(Clone, Copy, Debug)]
pub enum StandardSpawnData {
    PosX(Scalar),
    PosY(Scalar),
    PosZ(Scalar),
    Orientation(Quat),
    Appearance { form: Form },
    MainColor(i32),
    SecondaryColor(i32),
    Damage(Scalar),
    SizeX(Scalar),
    SizeY(Scalar),
    SizeZ(Scalar),
    MotionX(Scalar),
    MotionY(Scalar),
    MotionZ(Scalar),
    GravityX(Scalar),
    GravityY(Scalar),
    GravityZ(Scalar),
    SpeedAccel(Scalar),
    Forward(Unit3),
    Rotation(Quat),
}

/// An initial attribute, by its short name.
pub type BehaviorData = StandardSpawnData;

impl StandardSpawnData {
    /// The real number that this attribute gives to the column `field`,
    /// if it gives one. A position or a scale goes to the current and to
    /// the previous column alike; a direction goes to its three
    /// coordinates.
    pub open spec fn scalar_for(self, field: ScalarField) -> Option<Scalar> {
        match self {
            StandardSpawnData::PosX(v) => if field == ScalarField::PosX || field
                == ScalarField::OldPosX {
                Some(v)
            } else {
                None
            },
            StandardSpawnData::PosY(v) => if field == ScalarField::PosY || field
                == ScalarField::OldPosY {
                Some(v)
            } else {
                None
            },
            StandardSpawnData::PosZ(v) => if field == ScalarField::PosZ || field
                == ScalarField::OldPosZ {
                Some(v)
            } else {
                None
            },
            StandardSpawnData::SizeX(v) => if field == ScalarField::ScaleX || field
                == ScalarField::OldScaleX {
                Some(v)
            } else {
                None
            },
            StandardSpawnData::SizeY(v) => if field == ScalarField::ScaleY || field
                == ScalarField::OldScaleY {
                Some(v)
            } else {
                None
            },
            StandardSpawnData::SizeZ(v) => if field == ScalarField::ScaleZ || field
                == ScalarField::OldScaleZ {
                Some(v)
            } else {
                None
            },
            StandardSpawnData::Damage(v) => if field == ScalarField::Damage {
                Some(v)
            } else {
                None
            },
            StandardSpawnData::MotionX(v) => if field == ScalarField::MotionX {
                Some(v)
            } else {
                None
            },
            StandardSpawnData::MotionY(v) => if field == ScalarField::MotionY {
                Some(v)
            } else {
                None
            },
            StandardSpawnData::MotionZ(v) => if field == ScalarField::MotionZ {
                Some(v)
            } else {
                None
            },
            StandardSpawnData::GravityX(v) => if field == ScalarField::GravityX {
                Some(v)
            } else {
                None
            },
            StandardSpawnData::GravityY(v) => if field == ScalarField::GravityY {
                Some(v)
            } else {
                None
            },
            StandardSpawnData::GravityZ(v) => if field == ScalarField::GravityZ {
                Some(v)
            } else {
                None
            },
            StandardSpawnData::SpeedAccel(v) => if field == ScalarField::SpeedAccel {
                Some(v)
            } else {
                None
            },
            StandardSpawnData::Forward(v) => if field == ScalarField::ForwardX {
                Some(v.x)
            } else if field == ScalarField::ForwardY {
                Some(v.y)
            } else if field == ScalarField::ForwardZ {
                Some(v.z)
            } else {
                None
            },
            _ => None,
        }
    }

    /// The color that this attribute gives to the column `field`, if it
    /// gives one: a color goes to the current and to the previous column
    /// alike.
    pub open spec fn color_for(self, field: ColorField) -> Option<i32> {
        match self {
            StandardSpawnData::MainColor(v) => if field == ColorField::Main || field
                == ColorField::OldMain {
                Some(v)
            } else {
                None
            },
            StandardSpawnData::SecondaryColor(v) => if field == ColorField::Secondary || field
                == ColorField::OldSecondary {
                Some(v)
            } else {
                None
            },
            _ => None,
        }
    }

    /// The rotation that this attribute gives to the column `field`, if it
    /// gives one: an orientation goes to the current and to the previous
    /// column alike.
    pub open spec fn quat_for(self, field: QuatField) -> Option<Quat> {
        match self {
            StandardSpawnData::Orientation(v) => if field == QuatField::Orientation || field
                == QuatField::OldOrientation {
                Some(v)
            } else {
                None
            },
            StandardSpawnData::Rotation(v) => if field == QuatField::Rotation {
                Some(v)
            } else {
                None
            },
            _ => None,
        }
    }

    /// The shape that this attribute gives, if it gives one.
    pub open spec fn form_of(self) -> Option<Form> {
        match self {
            StandardSpawnData::Appearance { form } => Some(form),
            _ => None,
        }
    }
}

/// The last real number that a list of attributes gives to `field`, if
/// any of them gives one.
pub open spec fn last_scalar(attributes: Seq<StandardSpawnData>, field: ScalarField) -> Option<
    Scalar,
>
    decreases attributes.len(),
{
    if attributes.len() == 0 {
        None
    } else {
        match attributes.last().scalar_for(field) {
            Some(v) => Some(v),
            None => last_scalar(attributes.drop_last(), field),
        }
    }
}

/// The family depth of a descriptor that has not been placed in its family
/// yet.
pub const UNRESOLVED: i16 = -1;

/// A description of a projectile to create.
#[derive(Debug)]
pub struct DanmakuSpawnData {
    /// The tick count after which the projectile dies.
    pub end_time: i16,
    /// The initial attributes, applied in order.
    pub behavior_data: Vec<StandardSpawnData>,
    /// Named values handed through to the renderer.
    pub render_properties: Vec<(&'static str, Scalar)>,
    /// The signature: the identifiers of the behaviors to run, in order.
    pub behaviors: Vec<&'static str>,
    /// The kinds whose values at death are folded into each next stage.
    pub next_stage_add_data: ColumnSet,
    /// The projectiles to create when this one dies.
    pub next_stage: Vec<DanmakuSpawnData>,
    /// The projectile this one is placed relative to, if any.
    pub parent: Option<i128>,
    /// The projectiles to create with this one, as its children.
    pub children: Vec<DanmakuSpawnData>,
    /// The length of the chain of parents above, or [`UNRESOLVED`].
    pub family_depth: i16,
}

impl DanmakuSpawnData {
    /// The number of generations of nested children below this descriptor.
    pub open spec fn height(&self) -> nat
        decreases self,
    {
        Self::tallest(self.children@, self.children@.len())
    }

    /// One more than the greatest height among the first `n` of
    /// `children`, or 0 when `n` is 0.
    pub open spec fn tallest(children: Seq<DanmakuSpawnData>, n: nat) -> nat
        decreases children, n,
    {
        if n == 0 || n > children.len() {
            0
        } else {
            let this = children[n - 1].height() + 1;
            let others = Self::tallest(children, (n - 1) as nat);
            if this > others {
                this
            } else {
                others
            }
        }
    }

    /// Whether `after` is `self` with the family depth `depth`, each nested
    /// child one deeper than the descriptor that holds it, and nothing else
    /// changed.
    pub open spec fn stamped(&self, after: &DanmakuSpawnData, depth: int) -> bool
        decreases self,
    {
        &&& after.family_depth == depth
        &&& after.children@.len() == self.children@.len()
        &&& forall|i: int|
            0 <= i < self.children@.len() ==> (#[trigger] self.children@[i]).stamped(
                &after.children@[i],
                depth + 1,
            )
        &&& *after == (DanmakuSpawnData {
            family_depth: after.family_depth,
            children: after.children,
            ..*self
        })
    }

    /// Gives every nested child a family depth one greater than that of
    /// the descriptor that holds it.
    pub fn update_children_depth(&mut self)
        requires
            old(self).family_depth + old(self).height() <= i16::MAX,
        ensures
            old(self).stamped(final(self), old(self).family_depth as int),
        decreases old(self).height(),
    {
        let depth: i16 = self.family_depth;
        let n: usize = self.children.len();
        let mut i: usize = 0;
        while i < n
            invariant
                i <= n,
                n == old(self).children@.len(),
                self.children@.len() == n,
                depth == old(self).family_depth,
                depth + old(self).height() <= i16::MAX,
                forall|j: int|
                    0 <= j < i ==> (#[trigger] old(self).children@[j]).stamped(
                        &self.children@[j],
                        depth + 1,
                    ),
                forall|j: int| i <= j < n ==> self.children@[j] == old(self).children@[j],
                *self == (DanmakuSpawnData { children: self.children, ..*old(self) }),
            decreases n - i,
        {
            proof {
                Self::lemma_tallest_bounds(old(self).children@, n as nat, i as int);
            }
            let child = &mut self.children[i];
            child.family_depth = depth + 1;
            child.update_children_depth();
            i += 1;
        }
    }

    /// Every one of the first `n` children is lower than their tallest.
    pub proof fn lemma_tallest_bounds(children: Seq<DanmakuSpawnData>, n: nat, i: int)
        requires
            0 <= i < n <= children.len(),
        ensures
            children[i].height() + 1 <= Self::tallest(children, n),
        decreases n,
    {
        if i < n - 1 {
            Self::lemma_tallest_bounds(children, (n - 1) as nat, i);
        }
    }

    /// Whether this descriptor, its next stages and its nested children,
    /// and theirs in turn, name no behavior but those that `registered`
    /// spells.
    pub open spec fn all_known(&self, registered: Set<Seq<char>>) -> bool
        decreases self,
    {
        &&& forall|j: int|
            0 <= j < self.behaviors@.len() ==> registered.contains(
                (#[trigger] self.behaviors@[j])@,
            )
        &&& forall|k: int|
            0 <= k < self.children@.len() ==> (#[trigger] self.children@[k]).all_known(
                registered,
            )
        &&& forall|k: int|
            0 <= k < self.next_stage@.len() ==> (#[trigger] self.next_stage@[k]).all_known(
                registered,
            )
    }

    /// Whether neither this descriptor nor any of its nested children, nor
    /// any of theirs in turn, has the signature that `signature` spells.
    pub open spec fn bound_elsewhere(&self, signature: Seq<Seq<char>>) -> bool
        decreases self,
    {
        &&& names(self.behaviors@) != signature
        &&& forall|k: int|
            0 <= k < self.children@.len() ==> (#[trigger] self.children@[k]).bound_elsewhere(
                signature,
            )
    }

    /// The number of descriptors in this one and its nested children.
    pub open spec fn nodes(&self) -> nat
        decreases self,
    {
        1 + Self::nodes_among(self.children@, self.children@.len())
    }

    /// The number of descriptors in the first `n` of `list` and their
    /// nested children.
    pub open spec fn nodes_among(list: Seq<DanmakuSpawnData>, n: nat) -> nat
        decreases list, n,
    {
        if n == 0 || n > list.len() {
            0
        } else {
            list[n - 1].nodes() + Self::nodes_among(list, (n - 1) as nat)
        }
    }

    /// Whether this descriptor has at most `budget` generations of nested
    /// children.
    pub fn height_within(&self, budget: u16) -> (within: bool)
        ensures
            within == (self.height() <= budget),
        decreases self.height(),
    {
        let n = self.children.len();
        let mut k: usize = 0;
        while k < n
            invariant
                k <= n,
                n == self.children@.len(),
                Self::tallest(self.children@, k as nat) <= budget,
            decreases n - k,
        {
            proof {
                Self::lemma_tallest_bounds(self.children@, n as nat, k as int);
            }
            if budget == 0 || !self.children[k].height_within(budget - 1) {
                proof {
                    Self::lemma_tallest_grows(self.children@, (k + 1) as nat, n as nat);
                }
                return false;
            }
            k += 1;
        }
        true
    }

    /// The tallest of more children is no lower.
    pub proof fn lemma_tallest_grows(children: Seq<DanmakuSpawnData>, n: nat, m: nat)
        requires
            n <= m <= children.len(),
        ensures
            Self::tallest(children, n) <= Self::tallest(children, m),
        decreases m,
    {
        if n < m {
            Self::lemma_tallest_grows(children, n, (m - 1) as nat);
        }
    }

    /// Whether the family depth of this descriptor can be settled now
    /// without a depth beyond the greatest: it is settled already, or the
    /// descriptor has no parent, or the depth of its parent is in `depths`
    /// and leaves room for the descriptor, one deeper, and for the
    /// generations of nested children.
    pub open spec fn settles(&self, depths: Map<i128, i16>) -> bool {
        self.family_depth != UNRESOLVED || self.parent is None || (depths.contains_key(
            self.parent->0,
        ) && depths[self.parent->0] + 1 + self.height() <= i16::MAX)
    }

    /// Whether the family depth of this descriptor can be settled now.
    pub fn can_settle(&self, depths: &HashMap<i128, i16>) -> (can: bool)
        ensures
            can == self.settles(depths@),
    {
        broadcast use vstd::std_specs::hash::group_hash_axioms;

        if self.family_depth != UNRESOLVED {
            return true;
        }
        match self.parent {
            None => true,
            Some(parent) => match depths.get(&parent) {
                Some(depth) => {
                    let room: i32 = i16::MAX as i32 - *depth as i32 - 1;
                    room >= 0 && self.height_within(room as u16)
                },
                None => false,
            },
        }
    }

    /// Whether the family depth of this descriptor can be settled now:
    /// it is settled already, or the descriptor has no parent, or the depth
    /// of its parent is in `depths`.
    pub open spec fn resolvable(&self, depths: Map<i128, i16>) -> bool {
        self.family_depth != UNRESOLVED || self.parent is None || depths.contains_key(
            self.parent->0,
        )
    }

    /// Whether `out` is this descriptor with its family depth settled
    /// against `depths`. A depth other than [`UNRESOLVED`] stays. A
    /// descriptor without a parent gets depth 0. One with a parent is one
    /// deeper than the depth on record for its parent, and each of its
    /// nested children is one deeper than the descriptor that holds it.
    /// Nothing else changes.
    pub open spec fn settled_as(&self, depths: Map<i128, i16>, out: &DanmakuSpawnData) -> bool {
        if self.family_depth != UNRESOLVED {
            *out == *self
        } else if self.parent is None {
            *out == (DanmakuSpawnData { family_depth: 0, ..*self })
        } else {
            self.stamped(out, depths[self.parent->0] + 1)
        }
    }

    /// Settles the family depth of this descriptor, if that can be done
    /// now, and says whether it is settled.
    ///
    /// A depth other than [`UNRESOLVED`] stays. A descriptor without a
    /// parent gets depth 0. One whose parent's depth is in `depths` is one
    /// deeper than its parent, and each of its nested children is one
    /// deeper than the descriptor that holds it. One whose parent is not in
    /// `depths` is left as it is.
    pub fn set_family_depth(&mut self, depths: &HashMap<i128, i16>) -> (settled: bool)
        requires
            old(self).family_depth == UNRESOLVED && old(self).parent is Some
                && depths@.contains_key(old(self).parent->0) ==> depths@[old(self).parent->0]
                + 1 + old(self).height() <= i16::MAX,
        ensures
            settled == old(self).resolvable(depths@),
            final(self).nodes() == old(self).nodes(),
            final(self).behaviors == old(self).behaviors,
            settled ==> old(self).settled_as(depths@, final(self)),
            !settled ==> *final(self) == *old(self),
    {
        if self.family_depth != UNRESOLVED {
            true
        } else {
            match self.parent {
                None => {
                    self.family_depth = 0;
                    true
                },
                Some(parent_id) => {
                    match depths.get(&parent_id) {
                        Some(depth) => {
                            self.family_depth = *depth + 1;
                            self.update_children_depth();
                            proof {
                                lemma_stamped_nodes(*old(self), *self, *depth + 1);
                            }
                            true
                        },
                        None => false,
                    }
                },
            }
        }
    }
}

/// The number of descriptors in a list and their nested children.
pub open spec fn forest_nodes(list: Seq<DanmakuSpawnData>) -> nat {
    DanmakuSpawnData::nodes_among(list, list.len())
}

/// The descriptors of two lists are those of the lists joined.
pub proof fn lemma_forest_joined(a: Seq<DanmakuSpawnData>, b: Seq<DanmakuSpawnData>)
    ensures
        forest_nodes(a + b) == forest_nodes(a) + forest_nodes(b),
    decreases b.len(),
{
    if b.len() == 0 {
        assert(a + b == a);
    } else {
        lemma_forest_joined(a, b.drop_last());
        assert((a + b).drop_last() == a + b.drop_last());
        lemma_forest_prefix(a + b, (a + b).drop_last(), ((a + b).len() - 1) as nat);
        lemma_forest_prefix(b, b.drop_last(), (b.len() - 1) as nat);
    }
}

/// The count over the first descriptors of a list depends on those
/// descriptors alone.
pub proof fn lemma_forest_prefix(a: Seq<DanmakuSpawnData>, b: Seq<DanmakuSpawnData>, n: nat)
    requires
        n <= a.len(),
        n <= b.len(),
        forall|k: int| 0 <= k < n ==> a[k] == b[k],
    ensures
        DanmakuSpawnData::nodes_among(a, n) == DanmakuSpawnData::nodes_among(b, n),
    decreases n,
{
    if n > 0 {
        lemma_forest_prefix(a, b, (n - 1) as nat);
    }
}

/// Two lists of descriptors that have, one by one, the same nested
/// children hold as many descriptors.
pub proof fn lemma_forest_same_children(a: Seq<DanmakuSpawnData>, b: Seq<DanmakuSpawnData>, n: nat)
    requires
        n <= a.len(),
        n <= b.len(),
        forall|k: int| 0 <= k < n ==> (#[trigger] a[k]).children == b[k].children,
    ensures
        DanmakuSpawnData::nodes_among(a, n) == DanmakuSpawnData::nodes_among(b, n),
    decreases n,
{
    if n > 0 {
        lemma_forest_same_children(a, b, (n - 1) as nat);
        assert(a[n - 1].children == b[n - 1].children);
        assert(a[n - 1].nodes() == b[n - 1].nodes());
    }
}

/// Stamping family depths keeps every descriptor.
pub proof fn lemma_stamped_nodes(before: DanmakuSpawnData, after: DanmakuSpawnData, depth: int)
    requires
        before.stamped(&after, depth),
    ensures
        after.nodes() == before.nodes(),
    decreases before,
{
    lemma_stamped_forest(before, after, depth, before.children@.len());
}

/// Stamping family depths keeps every descriptor among the first `n`
/// nested children.
pub proof fn lemma_stamped_forest(
    before: DanmakuSpawnData,
    after: DanmakuSpawnData,
    depth: int,
    n: nat,
)
    requires
        before.stamped(&after, depth),
        n <= before.children@.len(),
    ensures
        DanmakuSpawnData::nodes_among(after.children@, n) == DanmakuSpawnData::nodes_among(
            before.children@,
            n,
        ),
    decreases before, n,
{
    if n > 0 {
        lemma_stamped_forest(before, after, depth, (n - 1) as nat);
        lemma_stamped_nodes(before.children@[n - 1], after.children@[n - 1], depth + 1);
    }
}

/// In a descriptor whose family depths are stamped, each nested child is
/// one deeper than the descriptor that holds it.
pub proof fn lemma_stamped_children_one_deeper(
    before: DanmakuSpawnData,
    after: DanmakuSpawnData,
    depth: int,
    k: int,
)
    requires
        before.stamped(&after, depth),
        0 <= k < after.children@.len(),
    ensures
        after.children@[k].family_depth == after.family_depth + 1,
{
    assert(before.children@[k].stamped(&after.children@[k], depth + 1));
}

/// Whether the descriptors of `list`, with their next stages and nested
/// children, name no behavior but those that `registered` spells.
pub open spec fn forest_known(list: Seq<DanmakuSpawnData>, registered: Set<Seq<char>>) -> bool {
    forall|k: int| 0 <= k < list.len() ==> (#[trigger] list[k]).all_known(registered)
}

/// Whether none of the descriptors of `list`, nor any nested child of
/// theirs, has the signature that `signature` spells.
pub open spec fn forest_bound_elsewhere(
    list: Seq<DanmakuSpawnData>,
    signature: Seq<Seq<char>>,
) -> bool {
    forall|k: int| 0 <= k < list.len() ==> (#[trigger] list[k]).bound_elsewhere(signature)
}

/// A descriptor that names registered behaviors alone still does so when
/// more behaviors are registered.
pub proof fn lemma_known_stays(d: DanmakuSpawnData, a: Set<Seq<char>>, b: Set<Seq<char>>)
    requires
        d.all_known(a),
        a.subset_of(b),
    ensures
        d.all_known(b),
    decreases d,
{
    assert forall|k: int| 0 <= k < d.children@.len() implies (#[trigger] d.children@[k]).all_known(
        b,
    ) by {
        lemma_known_stays(d.children@[k], a, b);
    }
    assert forall|k: int| 0 <= k < d.next_stage@.len() implies (
    #[trigger] d.next_stage@[k]).all_known(b) by {
        lemma_known_stays(d.next_stage@[k], a, b);
    }
}

/// Stamping family depths changes no name.
pub proof fn lemma_stamped_known(
    before: DanmakuSpawnData,
    after: DanmakuSpawnData,
    depth: int,
    registered: Set<Seq<char>>,
)
    requires
        before.stamped(&after, depth),
        before.all_known(registered),
    ensures
        after.all_known(registered),
    decreases before,
{
    assert forall|k: int| 0 <= k < after.children@.len() implies (
    #[trigger] after.children@[k]).all_known(registered) by {
        lemma_stamped_known(before.children@[k], after.children@[k], depth + 1, registered);
    }
}

/// Settling a family depth changes no name.
pub proof fn lemma_settled_known(
    before: DanmakuSpawnData,
    depths: Map<i128, i16>,
    after: DanmakuSpawnData,
    registered: Set<Seq<char>>,
)
    requires
        before.settled_as(depths, &after),
        before.all_known(registered),
    ensures
        after.all_known(registered),
{
    if before.family_depth == UNRESOLVED && before.parent is Some {
        lemma_stamped_known(before, after, depths[before.parent->0] + 1, registered);
    }
}

/// Stamping family depths changes no signature.
pub proof fn lemma_stamped_bound_elsewhere(
    before: DanmakuSpawnData,
    after: DanmakuSpawnData,
    depth: int,
    signature: Seq<Seq<char>>,
)
    requires
        before.stamped(&after, depth),
        before.bound_elsewhere(signature),
    ensures
        after.bound_elsewhere(signature),
    decreases before,
{
    assert forall|k: int| 0 <= k < after.children@.len() implies (
    #[trigger] after.children@[k]).bound_elsewhere(signature) by {
        lemma_stamped_bound_elsewhere(
            before.children@[k],
            after.children@[k],
            depth + 1,
            signature,
        );
    }
}

/// Settling a family depth changes no signature.
pub proof fn lemma_settled_bound_elsewhere(
    before: DanmakuSpawnData,
    depths: Map<i128, i16>,
    after: DanmakuSpawnData,
    signature: Seq<Seq<char>>,
)
    requires
        before.settled_as(depths, &after),
        before.bound_elsewhere(signature),
    ensures
        after.bound_elsewhere(signature),
{
    if before.family_depth == UNRESOLVED && before.parent is Some {
        lemma_stamped_bound_elsewhere(before, after, depths[before.parent->0] + 1, signature);
    }
}

} // verus!
