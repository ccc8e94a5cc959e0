//! The standard behaviors.

use crate::behavior::{Act, Behavior};
use crate::column_set::{ColumnSet, StandardDataColumns};
use crate::columns::{ColumnsView, StandardColumns};
use crate::fields::{QuatField, ScalarField};
use crate::lanewise::{
    add_products, add_scalars, add_scalars_by_ticks, copy_quats, copy_scalars,
    lemma_one_scalar_changed, lemma_scalars_changed_twice, only_forward_changed,
    only_quats_changed, only_scalars_changed, rotate_quats, scalars_changed, turn_forward,
};
use crate::numeric::{
    is_rotation, is_sum, is_sum_with_product, is_sum_with_ticks, is_turned, Numerics, Unit3,
};
use crate::handlers::{registered_at, HandlerView, TopDanmakuBehaviorsHandler};
use crate::staging::{ended, mandatory_end_act};
use vstd::prelude::*;

verus! {

/// The identifier of the behavior for motion along the z axis.
pub const MOTION1_BEHAVIOR_ID: &'static str = "motion1";

/// The identifier of the behavior for gravity along the y axis.
pub const GRAVITY1_BEHAVIOR_ID: &'static str = "gravity1";

/// The identifier of the behavior for acceleration along the z axis.
pub const ACCELERATION1_BEHAVIOR_ID: &'static str = "acceleration1";

/// The identifier of the behavior for the turning of the orientation.
pub const ROTATE_ORIENTATION_BEHAVIOR_ID: &'static str = "rotate_orientation";

/// The identifier of the behavior for the turning of the forward direction.
pub const ROTATE_FORWARD_BEHAVIOR_ID: &'static str = "rotate_forward";

/// The identifier of the behavior for motion along all three axes.
pub const MOTION3_BEHAVIOR_ID: &'static str = "motion3";

/// The identifier of the behavior for gravity along all three axes.
pub const GRAVITY3_BEHAVIOR_ID: &'static str = "gravity3";

/// The identifier of the behavior for acceleration along the forward direction.
pub const ACCELERATION3_BEHAVIOR_ID: &'static str = "acceleration3";

/// The identifier of the behavior for the end of projectiles.
pub const MANDATORY_END_BEHAVIOR_ID: &'static str = "mandatory_end";

/// Along one axis, `after` is `before` moved by one tick over the first
/// `size` slots: the previous position is the position of `before`, and
/// the position is that position plus the motion.
pub open spec fn moved<N: Numerics>(
    numerics: &N,
    before: ColumnsView,
    after: ColumnsView,
    pos: ScalarField,
    old_pos: ScalarField,
    motion: ScalarField,
    size: int,
) -> bool {
    forall|i: int|
        0 <= i < size ==> #[trigger] after.scalar(old_pos)[i] == before.scalar(pos)[i] && is_sum(
            numerics,
            before.scalar(pos)[i],
            before.scalar(motion)[i],
            after.scalar(pos)[i],
        )
}

/// Over the first `size` slots, `to` of `after` is `to` of `before` plus
/// `other` of `before`.
pub open spec fn summed<N: Numerics>(
    numerics: &N,
    before: ColumnsView,
    after: ColumnsView,
    to: ScalarField,
    other: ScalarField,
    size: int,
) -> bool {
    forall|i: int|
        0 <= i < size ==> is_sum(
            numerics,
            before.scalar(to)[i],
            before.scalar(other)[i],
            #[trigger] after.scalar(to)[i],
        )
}

/// Over the first `size` slots, `to` of `after` is `to` of `before` plus
/// `rate` of `before` times the ticks that the slot has existed.
pub open spec fn summed_by_ticks<N: Numerics>(
    numerics: &N,
    before: ColumnsView,
    after: ColumnsView,
    to: ScalarField,
    rate: ScalarField,
    size: int,
) -> bool {
    forall|i: int|
        0 <= i < size ==> is_sum_with_ticks(
            numerics,
            before.scalar(to)[i],
            before.scalar(rate)[i],
            before.ticks_existed[i],
            #[trigger] after.scalar(to)[i],
        )
}

/// Over the first `size` slots, `to` of `after` is `to` of `before` plus
/// the product of `a` and `b` of `before`.
pub open spec fn summed_products<N: Numerics>(
    numerics: &N,
    before: ColumnsView,
    after: ColumnsView,
    to: ScalarField,
    a: ScalarField,
    b: ScalarField,
    size: int,
) -> bool {
    forall|i: int|
        0 <= i < size ==> is_sum_with_product(
            numerics,
            before.scalar(to)[i],
            before.scalar(a)[i],
            before.scalar(b)[i],
            #[trigger] after.scalar(to)[i],
        )
}

/// Moves the first `size` slots along the z axis: the previous position
/// takes the position, and the position grows by the motion.
pub fn motion1_act<N: Numerics>(numerics: &N, columns: &mut StandardColumns, size: usize)
    requires
        old(columns).wf(),
        size <= old(columns)@.capacity,
        old(columns)@.required.contains(StandardDataColumns::PosZ),
        old(columns)@.required.contains(StandardDataColumns::MotionZ),
    ensures
        final(columns).wf(),
        scalars_changed(
            old(columns)@,
            final(columns)@,
            set![ScalarField::PosZ, ScalarField::OldPosZ],
            size as int,
        ),
        moved(
            numerics,
            old(columns)@,
            final(columns)@,
            ScalarField::PosZ,
            ScalarField::OldPosZ,
            ScalarField::MotionZ,
            size as int,
        ),
{
    let ghost fields = set![ScalarField::PosZ, ScalarField::OldPosZ];
    move_axis(
        numerics,
        columns,
        ScalarField::PosZ,
        ScalarField::OldPosZ,
        ScalarField::MotionZ,
        Ghost(fields),
        size,
    );
}

/// Moves the first `size` slots along one axis: the previous position
/// takes the position, and the position grows by the motion.
fn move_axis<N: Numerics>(
    numerics: &N,
    columns: &mut StandardColumns,
    pos: ScalarField,
    old_pos: ScalarField,
    motion: ScalarField,
    Ghost(fields): Ghost<Set<ScalarField>>,
    size: usize,
)
    requires
        old(columns).wf(),
        size <= old(columns)@.capacity,
        old(columns)@.required.contains(pos.kind()),
        old(columns)@.required.contains(old_pos.kind()),
        old(columns)@.required.contains(motion.kind()),
        pos != old_pos,
        pos != motion,
        old_pos != motion,
        fields.contains(pos),
        fields.contains(old_pos),
    ensures
        final(columns).wf(),
        scalars_changed(old(columns)@, final(columns)@, fields, size as int),
        moved(numerics, old(columns)@, final(columns)@, pos, old_pos, motion, size as int),
        forall|f: ScalarField|
            f != pos && f != old_pos ==> #[trigger] final(columns)@.scalar(f) == old(
                columns,
            )@.scalar(f),
{
    let ghost a = columns@;
    copy_scalars(columns, old_pos, pos, size);
    let ghost b = columns@;
    add_scalars(numerics, columns, pos, motion, size);
    proof {
        let c = columns@;
        lemma_one_scalar_changed(a, b, old_pos, fields, size as int);
        lemma_one_scalar_changed(b, c, pos, fields, size as int);
        lemma_scalars_changed_twice(a, b, c, fields, size as int);
    }
}

/// Lets gravity act on the first `size` slots along the y axis: the
/// motion grows by the gravity times the ticks that the slot has existed.
pub fn gravity1_act<N: Numerics>(numerics: &N, columns: &mut StandardColumns, size: usize)
    requires
        old(columns).wf(),
        size <= old(columns)@.capacity,
        old(columns)@.required.contains(StandardDataColumns::MotionY),
        old(columns)@.required.contains(StandardDataColumns::GravityY),
    ensures
        final(columns).wf(),
        only_scalars_changed(old(columns)@, final(columns)@, ScalarField::MotionY, size as int),
        summed_by_ticks(
            numerics,
            old(columns)@,
            final(columns)@,
            ScalarField::MotionY,
            ScalarField::GravityY,
            size as int,
        ),
{
    add_scalars_by_ticks(numerics, columns, ScalarField::MotionY, ScalarField::GravityY, size);
}

/// Accelerates the first `size` slots along the z axis: the motion grows
/// by the acceleration.
pub fn acceleration1_act<N: Numerics>(numerics: &N, columns: &mut StandardColumns, size: usize)
    requires
        old(columns).wf(),
        size <= old(columns)@.capacity,
        old(columns)@.required.contains(StandardDataColumns::MotionZ),
        old(columns)@.required.contains(StandardDataColumns::SpeedAccel),
    ensures
        final(columns).wf(),
        only_scalars_changed(old(columns)@, final(columns)@, ScalarField::MotionZ, size as int),
        summed(
            numerics,
            old(columns)@,
            final(columns)@,
            ScalarField::MotionZ,
            ScalarField::SpeedAccel,
            size as int,
        ),
{
    add_scalars(numerics, columns, ScalarField::MotionZ, ScalarField::SpeedAccel, size);
}

/// `after` is `before` with the first `size` orientations turned: the
/// previous orientation is the orientation of `before`, and the
/// orientation is that orientation followed by the rotation.
pub open spec fn orientation_rotated<N: Numerics>(
    numerics: &N,
    before: ColumnsView,
    after: ColumnsView,
    size: int,
) -> bool {
    &&& after == (ColumnsView { quats: after.quats, ..before })
    &&& after.quats.len() == before.quats.len()
    &&& after.quat(QuatField::Rotation) == before.quat(QuatField::Rotation)
    &&& after.quat(QuatField::Orientation).len() == before.quat(QuatField::Orientation).len()
    &&& after.quat(QuatField::OldOrientation).len() == before.quat(
        QuatField::OldOrientation,
    ).len()
    &&& forall|i: int|
        0 <= i < size ==> #[trigger] after.quat(QuatField::OldOrientation)[i] == before.quat(
            QuatField::Orientation,
        )[i] && is_rotation(
            numerics,
            before.quat(QuatField::Orientation)[i],
            before.quat(QuatField::Rotation)[i],
            after.quat(QuatField::Orientation)[i],
        )
    &&& forall|i: int|
        size <= i < before.quat(QuatField::Orientation).len() ==> #[trigger] after.quat(
            QuatField::Orientation,
        )[i] == before.quat(QuatField::Orientation)[i] && after.quat(
            QuatField::OldOrientation,
        )[i] == before.quat(QuatField::OldOrientation)[i]
}

/// Turns the first `size` orientations: the previous orientation takes
/// the orientation, and the orientation is followed by the rotation.
pub fn rotate_orientation_act<N: Numerics>(
    numerics: &N,
    columns: &mut StandardColumns,
    size: usize,
)
    requires
        old(columns).wf(),
        size <= old(columns)@.capacity,
        old(columns)@.required.contains(StandardDataColumns::Rotation),
        old(columns)@.required.contains(StandardDataColumns::Orientation),
    ensures
        final(columns).wf(),
        orientation_rotated(numerics, old(columns)@, final(columns)@, size as int),
{
    let ghost a = columns@;
    copy_quats(columns, QuatField::OldOrientation, QuatField::Orientation, size);
    let ghost b = columns@;
    rotate_quats(numerics, columns, QuatField::Orientation, QuatField::Rotation, size);
    proof {
        let c = columns@;
        assert(c.quats.len() == a.quats.len());
        assert(c == (ColumnsView { quats: c.quats, ..a }));
    }
}

/// Turns the forward direction of the first `size` slots by the rotation
/// of each slot, and brings it back to length one.
pub fn rotate_forward_act<N: Numerics>(numerics: &N, columns: &mut StandardColumns, size: usize)
    requires
        old(columns).wf(),
        size <= old(columns)@.capacity,
        old(columns)@.required.contains(StandardDataColumns::Rotation),
        old(columns)@.required.contains(StandardDataColumns::Forward),
    ensures
        final(columns).wf(),
        only_forward_changed(old(columns)@, final(columns)@, size as int),
        forall|i: int|
            0 <= i < size ==> is_turned(
                numerics,
                old(columns)@.quat(QuatField::Rotation)[i],
                old(columns)@.scalar(ScalarField::ForwardX)[i],
                old(columns)@.scalar(ScalarField::ForwardY)[i],
                old(columns)@.scalar(ScalarField::ForwardZ)[i],
                Unit3 {
                    x: #[trigger] final(columns)@.scalar(ScalarField::ForwardX)[i],
                    y: final(columns)@.scalar(ScalarField::ForwardY)[i],
                    z: final(columns)@.scalar(ScalarField::ForwardZ)[i],
                },
            ),
{
    turn_forward(numerics, columns, size);
}

/// The columns that hold a position, now and one tick ago.
pub open spec fn position_fields() -> Set<ScalarField> {
    set![
        ScalarField::PosX,
        ScalarField::PosY,
        ScalarField::PosZ,
        ScalarField::OldPosX,
        ScalarField::OldPosY,
        ScalarField::OldPosZ,
    ]
}

/// The columns that hold a motion.
pub open spec fn motion_fields() -> Set<ScalarField> {
    set![ScalarField::MotionX, ScalarField::MotionY, ScalarField::MotionZ]
}

/// Moves the first `size` slots along all three axes: the previous
/// position takes the position, and the position grows by the motion.
pub fn motion3_act<N: Numerics>(numerics: &N, columns: &mut StandardColumns, size: usize)
    requires
        old(columns).wf(),
        size <= old(columns)@.capacity,
        old(columns)@.required.contains(StandardDataColumns::PosX),
        old(columns)@.required.contains(StandardDataColumns::PosY),
        old(columns)@.required.contains(StandardDataColumns::PosZ),
        old(columns)@.required.contains(StandardDataColumns::MotionX),
        old(columns)@.required.contains(StandardDataColumns::MotionY),
        old(columns)@.required.contains(StandardDataColumns::MotionZ),
    ensures
        final(columns).wf(),
        scalars_changed(old(columns)@, final(columns)@, position_fields(), size as int),
        moved(
            numerics,
            old(columns)@,
            final(columns)@,
            ScalarField::PosX,
            ScalarField::OldPosX,
            ScalarField::MotionX,
            size as int,
        ),
        moved(
            numerics,
            old(columns)@,
            final(columns)@,
            ScalarField::PosY,
            ScalarField::OldPosY,
            ScalarField::MotionY,
            size as int,
        ),
        moved(
            numerics,
            old(columns)@,
            final(columns)@,
            ScalarField::PosZ,
            ScalarField::OldPosZ,
            ScalarField::MotionZ,
            size as int,
        ),
{
    let ghost a = columns@;
    let ghost fields = position_fields();
    move_axis(
        numerics,
        columns,
        ScalarField::PosX,
        ScalarField::OldPosX,
        ScalarField::MotionX,
        Ghost(fields),
        size,
    );
    let ghost b = columns@;
    move_axis(
        numerics,
        columns,
        ScalarField::PosY,
        ScalarField::OldPosY,
        ScalarField::MotionY,
        Ghost(fields),
        size,
    );
    let ghost c = columns@;
    move_axis(
        numerics,
        columns,
        ScalarField::PosZ,
        ScalarField::OldPosZ,
        ScalarField::MotionZ,
        Ghost(fields),
        size,
    );
    proof {
        let d = columns@;
        lemma_scalars_changed_twice(a, b, c, fields, size as int);
        lemma_scalars_changed_twice(a, c, d, fields, size as int);
    }
}

/// Lets gravity act on the first `size` slots along all three axes: the
/// motion grows by the gravity times the ticks that the slot has existed.
pub fn gravity3_act<N: Numerics>(numerics: &N, columns: &mut StandardColumns, size: usize)
    requires
        old(columns).wf(),
        size <= old(columns)@.capacity,
        old(columns)@.required.contains(StandardDataColumns::MotionX),
        old(columns)@.required.contains(StandardDataColumns::MotionY),
        old(columns)@.required.contains(StandardDataColumns::MotionZ),
        old(columns)@.required.contains(StandardDataColumns::GravityX),
        old(columns)@.required.contains(StandardDataColumns::GravityY),
        old(columns)@.required.contains(StandardDataColumns::GravityZ),
    ensures
        final(columns).wf(),
        scalars_changed(old(columns)@, final(columns)@, motion_fields(), size as int),
        summed_by_ticks(
            numerics,
            old(columns)@,
            final(columns)@,
            ScalarField::MotionX,
            ScalarField::GravityX,
            size as int,
        ),
        summed_by_ticks(
            numerics,
            old(columns)@,
            final(columns)@,
            ScalarField::MotionY,
            ScalarField::GravityY,
            size as int,
        ),
        summed_by_ticks(
            numerics,
            old(columns)@,
            final(columns)@,
            ScalarField::MotionZ,
            ScalarField::GravityZ,
            size as int,
        ),
{
    let ghost a = columns@;
    let ghost fields = motion_fields();
    add_scalars_by_ticks(numerics, columns, ScalarField::MotionX, ScalarField::GravityX, size);
    let ghost b = columns@;
    add_scalars_by_ticks(numerics, columns, ScalarField::MotionY, ScalarField::GravityY, size);
    let ghost c = columns@;
    add_scalars_by_ticks(numerics, columns, ScalarField::MotionZ, ScalarField::GravityZ, size);
    proof {
        let d = columns@;
        lemma_one_scalar_changed(a, b, ScalarField::MotionX, fields, size as int);
        lemma_one_scalar_changed(b, c, ScalarField::MotionY, fields, size as int);
        lemma_one_scalar_changed(c, d, ScalarField::MotionZ, fields, size as int);
        lemma_scalars_changed_twice(a, b, c, fields, size as int);
        lemma_scalars_changed_twice(a, c, d, fields, size as int);
    }
}

/// Accelerates the first `size` slots along their forward direction: the
/// motion grows, axis by axis, by the forward direction times the
/// acceleration.
pub fn acceleration3_act<N: Numerics>(numerics: &N, columns: &mut StandardColumns, size: usize)
    requires
        old(columns).wf(),
        size <= old(columns)@.capacity,
        old(columns)@.required.contains(StandardDataColumns::SpeedAccel),
        old(columns)@.required.contains(StandardDataColumns::MotionX),
        old(columns)@.required.contains(StandardDataColumns::MotionY),
        old(columns)@.required.contains(StandardDataColumns::MotionZ),
        old(columns)@.required.contains(StandardDataColumns::Forward),
    ensures
        final(columns).wf(),
        scalars_changed(old(columns)@, final(columns)@, motion_fields(), size as int),
        summed_products(
            numerics,
            old(columns)@,
            final(columns)@,
            ScalarField::MotionX,
            ScalarField::ForwardX,
            ScalarField::SpeedAccel,
            size as int,
        ),
        summed_products(
            numerics,
            old(columns)@,
            final(columns)@,
            ScalarField::MotionY,
            ScalarField::ForwardY,
            ScalarField::SpeedAccel,
            size as int,
        ),
        summed_products(
            numerics,
            old(columns)@,
            final(columns)@,
            ScalarField::MotionZ,
            ScalarField::ForwardZ,
            ScalarField::SpeedAccel,
            size as int,
        ),
{
    let ghost a = columns@;
    let ghost fields = motion_fields();
    add_products(
        numerics,
        columns,
        ScalarField::MotionX,
        ScalarField::ForwardX,
        ScalarField::SpeedAccel,
        size,
    );
    let ghost b = columns@;
    add_products(
        numerics,
        columns,
        ScalarField::MotionY,
        ScalarField::ForwardY,
        ScalarField::SpeedAccel,
        size,
    );
    let ghost c = columns@;
    add_products(
        numerics,
        columns,
        ScalarField::MotionZ,
        ScalarField::ForwardZ,
        ScalarField::SpeedAccel,
        size,
    );
    proof {
        let d = columns@;
        lemma_one_scalar_changed(a, b, ScalarField::MotionX, fields, size as int);
        lemma_one_scalar_changed(b, c, ScalarField::MotionY, fields, size as int);
        lemma_one_scalar_changed(c, d, ScalarField::MotionZ, fields, size as int);
        lemma_scalars_changed_twice(a, b, c, fields, size as int);
        lemma_scalars_changed_twice(a, c, d, fields, size as int);
    }
}

/// The behaviors that come with the engine.
#[derive(Clone, Copy, PartialEq, Eq, Debug, Structural)]
pub enum Standard {
    /// Moves along the z axis.
    Motion1,
    /// Lets gravity act along the y axis.
    Gravity1,
    /// Accelerates along the z axis.
    Acceleration1,
    /// Turns the orientation by the rotation.
    RotateOrientation,
    /// Turns the forward direction by the rotation.
    RotateForward,
    /// Moves along all three axes.
    Motion3,
    /// Lets gravity act along all three axes.
    Gravity3,
    /// Accelerates along the forward direction.
    Acceleration3,
    /// Counts the ticks and ends the projectiles whose time is up. It needs no
    /// column but those that every store has, and runs last in every bucket.
    MandatoryEnd,
}

impl Standard {
    /// The kinds whose columns the behavior reads or writes.
    pub open spec fn columns(self) -> Set<StandardDataColumns> {
        match self {
            Standard::Motion1 => set![StandardDataColumns::PosZ, StandardDataColumns::MotionZ],
            Standard::Gravity1 => set![StandardDataColumns::MotionY, StandardDataColumns::GravityY],
            Standard::Acceleration1 => set![StandardDataColumns::MotionZ, StandardDataColumns::SpeedAccel],
            Standard::RotateOrientation => set![StandardDataColumns::Rotation, StandardDataColumns::Orientation],
            Standard::RotateForward => set![StandardDataColumns::Rotation, StandardDataColumns::Forward],
            Standard::Motion3 => set![StandardDataColumns::PosX, StandardDataColumns::PosY, StandardDataColumns::PosZ, StandardDataColumns::MotionX, StandardDataColumns::MotionY, StandardDataColumns::MotionZ],
            Standard::Gravity3 => set![StandardDataColumns::MotionX, StandardDataColumns::MotionY, StandardDataColumns::MotionZ, StandardDataColumns::GravityX, StandardDataColumns::GravityY, StandardDataColumns::GravityZ],
            Standard::Acceleration3 => set![StandardDataColumns::SpeedAccel, StandardDataColumns::MotionX, StandardDataColumns::MotionY, StandardDataColumns::MotionZ, StandardDataColumns::Forward],
            Standard::MandatoryEnd => Set::empty(),
        }
    }

    /// The kinds whose columns the behavior reads or writes.
    pub fn required_columns(self) -> (required: ColumnSet)
        ensures
            required@ == self.columns(),
    {
        let required = match self {
            Standard::Motion1 => ColumnSet::empty().with(StandardDataColumns::PosZ).with(StandardDataColumns::MotionZ),
            Standard::Gravity1 => ColumnSet::empty().with(StandardDataColumns::MotionY).with(StandardDataColumns::GravityY),
            Standard::Acceleration1 => ColumnSet::empty().with(StandardDataColumns::MotionZ).with(StandardDataColumns::SpeedAccel),
            Standard::RotateOrientation => ColumnSet::empty().with(StandardDataColumns::Rotation).with(StandardDataColumns::Orientation),
            Standard::RotateForward => ColumnSet::empty().with(StandardDataColumns::Rotation).with(StandardDataColumns::Forward),
            Standard::Motion3 => ColumnSet::empty().with(StandardDataColumns::PosX).with(StandardDataColumns::PosY).with(StandardDataColumns::PosZ).with(StandardDataColumns::MotionX).with(StandardDataColumns::MotionY).with(StandardDataColumns::MotionZ),
            Standard::Gravity3 => ColumnSet::empty().with(StandardDataColumns::MotionX).with(StandardDataColumns::MotionY).with(StandardDataColumns::MotionZ).with(StandardDataColumns::GravityX).with(StandardDataColumns::GravityY).with(StandardDataColumns::GravityZ),
            Standard::Acceleration3 => ColumnSet::empty().with(StandardDataColumns::SpeedAccel).with(StandardDataColumns::MotionX).with(StandardDataColumns::MotionY).with(StandardDataColumns::MotionZ).with(StandardDataColumns::Forward),
            Standard::MandatoryEnd => ColumnSet::empty(),
        };
        assert(required@ =~= self.columns());
        required
    }

    /// The identifier under which the behavior is registered.
    pub open spec fn name(self) -> &'static str {
        match self {
            Standard::Motion1 => MOTION1_BEHAVIOR_ID,
            Standard::Gravity1 => GRAVITY1_BEHAVIOR_ID,
            Standard::Acceleration1 => ACCELERATION1_BEHAVIOR_ID,
            Standard::RotateOrientation => ROTATE_ORIENTATION_BEHAVIOR_ID,
            Standard::RotateForward => ROTATE_FORWARD_BEHAVIOR_ID,
            Standard::Motion3 => MOTION3_BEHAVIOR_ID,
            Standard::Gravity3 => GRAVITY3_BEHAVIOR_ID,
            Standard::Acceleration3 => ACCELERATION3_BEHAVIOR_ID,
            Standard::MandatoryEnd => MANDATORY_END_BEHAVIOR_ID,
        }
    }

    /// The identifier under which the behavior is registered.
    pub fn identifier(self) -> (id: &'static str)
        ensures
            id == self.name(),
    {
        match self {
            Standard::Motion1 => MOTION1_BEHAVIOR_ID,
            Standard::Gravity1 => GRAVITY1_BEHAVIOR_ID,
            Standard::Acceleration1 => ACCELERATION1_BEHAVIOR_ID,
            Standard::RotateOrientation => ROTATE_ORIENTATION_BEHAVIOR_ID,
            Standard::RotateForward => ROTATE_FORWARD_BEHAVIOR_ID,
            Standard::Motion3 => MOTION3_BEHAVIOR_ID,
            Standard::Gravity3 => GRAVITY3_BEHAVIOR_ID,
            Standard::Acceleration3 => ACCELERATION3_BEHAVIOR_ID,
            Standard::MandatoryEnd => MANDATORY_END_BEHAVIOR_ID,
        }
    }
}

/// What running the standard behavior `which` on the first `size` slots
/// makes of `before`.
pub open spec fn acted<N: Numerics>(
    which: Standard,
    numerics: &N,
    before: ColumnsView,
    after: ColumnsView,
    size: int,
) -> bool {
    match which {
        Standard::Motion1 => scalars_changed(
            before,
            after,
            set![ScalarField::PosZ, ScalarField::OldPosZ],
            size,
        ) && moved(
            numerics,
            before,
            after,
            ScalarField::PosZ,
            ScalarField::OldPosZ,
            ScalarField::MotionZ,
            size,
        ),
        Standard::Gravity1 => only_scalars_changed(before, after, ScalarField::MotionY, size)
            && summed_by_ticks(
            numerics,
            before,
            after,
            ScalarField::MotionY,
            ScalarField::GravityY,
            size,
        ),
        Standard::Acceleration1 => only_scalars_changed(
            before,
            after,
            ScalarField::MotionZ,
            size,
        ) && summed(
            numerics,
            before,
            after,
            ScalarField::MotionZ,
            ScalarField::SpeedAccel,
            size,
        ),
        Standard::RotateOrientation => orientation_rotated(numerics, before, after, size),
        Standard::RotateForward => only_forward_changed(before, after, size) && forall|i: int|
            0 <= i < size ==> is_turned(
                numerics,
                before.quat(QuatField::Rotation)[i],
                before.scalar(ScalarField::ForwardX)[i],
                before.scalar(ScalarField::ForwardY)[i],
                before.scalar(ScalarField::ForwardZ)[i],
                Unit3 {
                    x: #[trigger] after.scalar(ScalarField::ForwardX)[i],
                    y: after.scalar(ScalarField::ForwardY)[i],
                    z: after.scalar(ScalarField::ForwardZ)[i],
                },
            ),
        Standard::Motion3 => scalars_changed(before, after, position_fields(), size) && moved(
            numerics,
            before,
            after,
            ScalarField::PosX,
            ScalarField::OldPosX,
            ScalarField::MotionX,
            size,
        ) && moved(
            numerics,
            before,
            after,
            ScalarField::PosY,
            ScalarField::OldPosY,
            ScalarField::MotionY,
            size,
        ) && moved(
            numerics,
            before,
            after,
            ScalarField::PosZ,
            ScalarField::OldPosZ,
            ScalarField::MotionZ,
            size,
        ),
        Standard::Gravity3 => scalars_changed(before, after, motion_fields(), size)
            && summed_by_ticks(
            numerics,
            before,
            after,
            ScalarField::MotionX,
            ScalarField::GravityX,
            size,
        ) && summed_by_ticks(
            numerics,
            before,
            after,
            ScalarField::MotionY,
            ScalarField::GravityY,
            size,
        ) && summed_by_ticks(
            numerics,
            before,
            after,
            ScalarField::MotionZ,
            ScalarField::GravityZ,
            size,
        ),
        Standard::Acceleration3 => scalars_changed(before, after, motion_fields(), size)
            && summed_products(
            numerics,
            before,
            after,
            ScalarField::MotionX,
            ScalarField::ForwardX,
            ScalarField::SpeedAccel,
            size,
        ) && summed_products(
            numerics,
            before,
            after,
            ScalarField::MotionY,
            ScalarField::ForwardY,
            ScalarField::SpeedAccel,
            size,
        ) && summed_products(
            numerics,
            before,
            after,
            ScalarField::MotionZ,
            ScalarField::ForwardZ,
            ScalarField::SpeedAccel,
            size,
        ),
        Standard::MandatoryEnd => ended(numerics, before, after, size),
    }
}

/// A standard behavior, with the arithmetic it computes with.
pub struct StandardAct<N> {
    pub which: Standard,
    pub numerics: N,
}

impl<N: Numerics> Act for StandardAct<N> {
    open spec fn needs(&self) -> Set<StandardDataColumns> {
        self.which.columns()
    }

    open spec fn effect(&self, before: ColumnsView, after: ColumnsView, size: int) -> bool {
        acted(self.which, &self.numerics, before, after, size)
    }

    fn act(&self, columns: &mut StandardColumns, size: usize) {
        match self.which {
            Standard::Motion1 => motion1_act(&self.numerics, columns, size),
            Standard::Gravity1 => gravity1_act(&self.numerics, columns, size),
            Standard::Acceleration1 => acceleration1_act(&self.numerics, columns, size),
            Standard::RotateOrientation => rotate_orientation_act(&self.numerics, columns, size),
            Standard::RotateForward => rotate_forward_act(&self.numerics, columns, size),
            Standard::Motion3 => motion3_act(&self.numerics, columns, size),
            Standard::Gravity3 => gravity3_act(&self.numerics, columns, size),
            Standard::Acceleration3 => acceleration3_act(&self.numerics, columns, size),
            Standard::MandatoryEnd => mandatory_end_act(&self.numerics, columns, size),
        }
        proof {
            assert forall|registered: Set<Seq<char>>|
                old(columns)@.asks_only(registered) implies #[trigger] columns@.asks_only(
                registered,
            ) by {
                if self.which == Standard::MandatoryEnd {
                    crate::staging::lemma_ended_asks_only(
                        &self.numerics,
                        old(columns)@,
                        columns@,
                        size as int,
                        registered,
                    );
                } else {
                    assert(columns@.next_stage == old(columns)@.next_stage);
                    assert(columns@.add_spawns == old(columns)@.add_spawns);
                }
            }
        }
    }
}

/// The standard behavior `which`, computing with `numerics`.
pub fn standard_behavior<N: Numerics>(which: Standard, numerics: N) -> (behavior: Behavior<
    StandardAct<N>,
>)
    ensures
        behavior.wf(),
        behavior.identifier == which.name(),
        behavior.required_columns@ == which.columns(),
        behavior.act == (StandardAct { which, numerics }),
{
    Behavior::new(which.identifier(), which.required_columns(), StandardAct { which, numerics })
}

/// The behavior `motion1`: moves along the z axis.
pub fn motion1_behavior<N: Numerics>(numerics: N) -> (behavior: Behavior<StandardAct<N>>)
    ensures
        behavior.wf(),
        behavior.identifier == MOTION1_BEHAVIOR_ID,
        behavior.required_columns@ == Standard::Motion1.columns(),
        behavior.act == (StandardAct { which: Standard::Motion1, numerics }),
{
    standard_behavior(Standard::Motion1, numerics)
}

/// The behavior `gravity1`: lets gravity act along the y axis.
pub fn gravity1_behavior<N: Numerics>(numerics: N) -> (behavior: Behavior<StandardAct<N>>)
    ensures
        behavior.wf(),
        behavior.identifier == GRAVITY1_BEHAVIOR_ID,
        behavior.required_columns@ == Standard::Gravity1.columns(),
        behavior.act == (StandardAct { which: Standard::Gravity1, numerics }),
{
    standard_behavior(Standard::Gravity1, numerics)
}

/// The behavior `acceleration1`: accelerates along the z axis.
pub fn acceleration1_behavior<N: Numerics>(numerics: N) -> (behavior: Behavior<StandardAct<N>>)
    ensures
        behavior.wf(),
        behavior.identifier == ACCELERATION1_BEHAVIOR_ID,
        behavior.required_columns@ == Standard::Acceleration1.columns(),
        behavior.act == (StandardAct { which: Standard::Acceleration1, numerics }),
{
    standard_behavior(Standard::Acceleration1, numerics)
}

/// The behavior `rotate_orientation`: turns the orientation by the rotation.
pub fn rotate_orientation_behavior<N: Numerics>(numerics: N) -> (behavior: Behavior<StandardAct<N>>)
    ensures
        behavior.wf(),
        behavior.identifier == ROTATE_ORIENTATION_BEHAVIOR_ID,
        behavior.required_columns@ == Standard::RotateOrientation.columns(),
        behavior.act == (StandardAct { which: Standard::RotateOrientation, numerics }),
{
    standard_behavior(Standard::RotateOrientation, numerics)
}

/// The behavior `rotate_forward`: turns the forward direction by the rotation.
pub fn rotate_forward_behavior<N: Numerics>(numerics: N) -> (behavior: Behavior<StandardAct<N>>)
    ensures
        behavior.wf(),
        behavior.identifier == ROTATE_FORWARD_BEHAVIOR_ID,
        behavior.required_columns@ == Standard::RotateForward.columns(),
        behavior.act == (StandardAct { which: Standard::RotateForward, numerics }),
{
    standard_behavior(Standard::RotateForward, numerics)
}

/// The behavior `motion3`: moves along all three axes.
pub fn motion3_behavior<N: Numerics>(numerics: N) -> (behavior: Behavior<StandardAct<N>>)
    ensures
        behavior.wf(),
        behavior.identifier == MOTION3_BEHAVIOR_ID,
        behavior.required_columns@ == Standard::Motion3.columns(),
        behavior.act == (StandardAct { which: Standard::Motion3, numerics }),
{
    standard_behavior(Standard::Motion3, numerics)
}

/// The behavior `gravity3`: lets gravity act along all three axes.
pub fn gravity3_behavior<N: Numerics>(numerics: N) -> (behavior: Behavior<StandardAct<N>>)
    ensures
        behavior.wf(),
        behavior.identifier == GRAVITY3_BEHAVIOR_ID,
        behavior.required_columns@ == Standard::Gravity3.columns(),
        behavior.act == (StandardAct { which: Standard::Gravity3, numerics }),
{
    standard_behavior(Standard::Gravity3, numerics)
}

/// The behavior `acceleration3`: accelerates along the forward direction.
pub fn acceleration3_behavior<N: Numerics>(numerics: N) -> (behavior: Behavior<StandardAct<N>>)
    ensures
        behavior.wf(),
        behavior.identifier == ACCELERATION3_BEHAVIOR_ID,
        behavior.required_columns@ == Standard::Acceleration3.columns(),
        behavior.act == (StandardAct { which: Standard::Acceleration3, numerics }),
{
    standard_behavior(Standard::Acceleration3, numerics)
}

/// The behavior `mandatory_end`: counts the ticks and ends the projectiles
/// whose time is up. It needs no column but those that every store has, and
/// runs last in every bucket.
pub fn mandatory_end<N: Numerics>(numerics: N) -> (behavior: Behavior<StandardAct<N>>)
    ensures
        behavior.wf(),
        behavior.identifier == MANDATORY_END_BEHAVIOR_ID,
        behavior.required_columns@ == Standard::MandatoryEnd.columns(),
        behavior.act == (StandardAct { which: Standard::MandatoryEnd, numerics }),
{
    standard_behavior(Standard::MandatoryEnd, numerics)
}

impl Standard {
    /// The position of the behavior among the standard ones, from 0.
    pub open spec fn index(self) -> int {
        match self {
            Standard::Motion1 => 0,
            Standard::Gravity1 => 1,
            Standard::Acceleration1 => 2,
            Standard::RotateOrientation => 3,
            Standard::RotateForward => 4,
            Standard::Motion3 => 5,
            Standard::Gravity3 => 6,
            Standard::Acceleration3 => 7,
            Standard::MandatoryEnd => 8,
        }
    }

    /// The standard behavior at position `i`.
    pub fn from_ordinal(i: usize) -> (which: Standard)
        requires
            i < 9,
        ensures
            which.index() == i,
    {
        if i == 0 {
            Standard::Motion1
        } else if i == 1 {
            Standard::Gravity1
        } else if i == 2 {
            Standard::Acceleration1
        } else if i == 3 {
            Standard::RotateOrientation
        } else if i == 4 {
            Standard::RotateForward
        } else if i == 5 {
            Standard::Motion3
        } else if i == 6 {
            Standard::Gravity3
        } else if i == 7 {
            Standard::Acceleration3
        } else {
            Standard::MandatoryEnd
        }
    }
}

/// No two standard behaviors share an identifier.
pub proof fn lemma_standard_names_differ(a: Standard, b: Standard)
    requires
        a != b,
    ensures
        a.name()@ != b.name()@,
{
    reveal_strlit("motion1");
    reveal_strlit("gravity1");
    reveal_strlit("acceleration1");
    reveal_strlit("rotate_orientation");
    reveal_strlit("rotate_forward");
    reveal_strlit("motion3");
    reveal_strlit("gravity3");
    reveal_strlit("acceleration3");
    reveal_strlit("mandatory_end");
    let x = a.name()@;
    let y = b.name()@;
    if x.len() == y.len() {
        assert(x[0] != y[0] || x[x.len() - 1] != y[y.len() - 1]);
    }
}

/// Whether the standard behavior `which`, computing with `numerics`, is
/// registered with a handler under its identifier.
pub open spec fn standard_registered<N: Numerics>(
    v: HandlerView<StandardAct<N>>,
    which: Standard,
    numerics: N,
) -> bool {
    registered_at(v.behaviors, which.name()@) matches Some(k) && v.behaviors[k].required_columns@
        == which.columns() && v.behaviors[k].act == (StandardAct { which, numerics })
}

/// A handler that runs the standard behaviors.
pub trait StandardTopHandlerExt<N> {
    /// Whether the handler is well-formed.
    spec fn ready(&self) -> bool;

    /// Whether `after` is this handler with the standard behaviors
    /// registered, computing with `numerics`, in the place of whatever
    /// went by their identifiers.
    spec fn with_standard(&self, numerics: N, after: &Self) -> bool;

    /// Registers the nine standard behaviors, computing with `numerics`.
    fn register_standard_behaviors(&mut self, numerics: N)
        requires
            old(self).ready(),
        ensures
            final(self).ready(),
            old(self).with_standard(numerics, final(self)),
    ;
}

impl<N: Numerics + Copy> StandardTopHandlerExt<N> for TopDanmakuBehaviorsHandler<StandardAct<N>> {
    open spec fn ready(&self) -> bool {
        self.wf()
    }

    open spec fn with_standard(&self, numerics: N, after: &Self) -> bool {
        &&& after@ == (HandlerView { behaviors: after@.behaviors, ..self@ })
        &&& forall|which: Standard| #[trigger] standard_registered(after@, which, numerics)
        &&& forall|name: Seq<char>|
            registered_at(self@.behaviors, name) is Some ==> #[trigger] registered_at(
                after@.behaviors,
                name,
            ) is Some
    }

    fn register_standard_behaviors(&mut self, numerics: N) {
        let ghost before = self@;
        let mut i: usize = 0;
        while i < 9
            invariant
                i <= 9,
                self.wf(),
                self@ == (HandlerView { behaviors: self@.behaviors, ..before }),
                forall|which: Standard|
                    which.index() < i ==> #[trigger] standard_registered(self@, which, numerics),
                forall|name: Seq<char>|
                    registered_at(before.behaviors, name) is Some ==> #[trigger] registered_at(
                        self@.behaviors,
                        name,
                    ) is Some,
            decreases 9 - i,
        {
            let ghost at = self@;
            let which = Standard::from_ordinal(i);
            let behavior = standard_behavior(which, numerics);
            self.register_behavior(behavior);
            proof {
                let now = self@;
                assert forall|name: Seq<char>| registered_at(at.behaviors, name) is Some implies registered_at(
                    now.behaviors,
                    name,
                ) is Some && (name != which.name()@ ==> now.behaviors[registered_at(
                    now.behaviors,
                    name,
                )->0] == at.behaviors[registered_at(at.behaviors, name)->0]) by {
                    let j = registered_at(at.behaviors, name)->0;
                    assert(now.behaviors[j].identifier@ == name);
                }
                assert forall|other: Standard| other.index() < i + 1 implies #[trigger] standard_registered(
                    now,
                    other,
                    numerics,
                ) by {
                    if other == which {
                        let j = match registered_at(at.behaviors, which.name()@) {
                            Some(j) => j,
                            None => at.behaviors.len() as int,
                        };
                        assert(now.behaviors[j].identifier@ == which.name()@);
                    } else {
                        lemma_standard_names_differ(other, which);
                        assert(standard_registered(at, other, numerics));
                    }
                }
            }
            i += 1;
        }
    }
}

} // verus!
