//! Death and staging: what happens when a projectile reaches its end
//! time.
//!
//! A projectile that dies hands its next stages to the store as spawn
//! requests. On the way each next stage takes over values of the dying
//! projectile: those of the kinds that its mask names are added to the
//! initial attributes of the next stage.

use crate::column_set::StandardDataColumns;
use crate::columns::{ColumnsView, StandardColumns};
use crate::fields::{ColorField, QuatField, ScalarField};
use crate::numeric::{is_direction, is_rotation, is_sum, Numerics, Quat, Scalar, Unit3};
use crate::spawn::{DanmakuSpawnData, StandardSpawnData};
use vstd::prelude::*;

verus! {

/// The tick count after `ticks`. The count wraps around at its greatest
/// value, so that a projectile whose end time is that value never dies.
pub open spec fn next_tick(ticks: i16) -> i16 {
    if ticks == i16::MAX {
        i16::MIN
    } else {
        (ticks + 1) as i16
    }
}

/// Whether the value that slot `i` holds of `kind` is folded into its next
/// stages: the column is allocated, and the mask of the slot names the
/// kind.
pub open spec fn folds(v: ColumnsView, i: int, kind: StandardDataColumns) -> bool {
    v.required.contains(kind) && v.next_stage_add_data[i].contains(kind)
}

/// `out` is the real number `plain` of a next stage of slot `i`, with the
/// value that the slot holds in `field` added where that value is folded
/// in.
pub open spec fn scalar_folded<N: Numerics>(
    numerics: &N,
    v: ColumnsView,
    i: int,
    field: ScalarField,
    plain: Scalar,
    out: Scalar,
) -> bool {
    if folds(v, i, field.kind()) {
        is_sum(numerics, plain, v.scalar(field)[i], out)
    } else {
        out == plain
    }
}

/// `out` is the color `plain` of a next stage of slot `i`, replaced by the
/// color that the slot holds in `field` where that value is folded in.
pub open spec fn color_folded(v: ColumnsView, i: int, field: ColorField, plain: i32, out: i32) -> bool {
    out == if folds(v, i, field.kind()) {
        v.color(field)[i]
    } else {
        plain
    }
}

/// `out` is the rotation `plain` of a next stage of slot `i`, multiplied
/// from the left by the rotation that the slot holds in `field` where that
/// column is allocated.
pub open spec fn quat_folded<N: Numerics>(
    numerics: &N,
    v: ColumnsView,
    i: int,
    field: QuatField,
    plain: Quat,
    out: Quat,
) -> bool {
    if v.required.contains(field.kind()) {
        is_rotation(numerics, v.quat(field)[i], plain, out)
    } else {
        out == plain
    }
}

/// `out` is the direction `plain` of a next stage of slot `i`, replaced
/// by the forward direction of the slot where that column is allocated.
pub open spec fn forward_folded<N: Numerics>(
    numerics: &N,
    v: ColumnsView,
    i: int,
    plain: Unit3,
    out: Unit3,
) -> bool {
    if v.required.contains(StandardDataColumns::Forward) {
        is_direction(
            numerics,
            v.scalar(ScalarField::ForwardX)[i],
            v.scalar(ScalarField::ForwardY)[i],
            v.scalar(ScalarField::ForwardZ)[i],
            out,
        )
    } else {
        out == plain
    }
}

/// `out` is the initial attribute `plain` of a next stage of slot `i`
/// after it has taken over what the slot holds: a real number has the
/// slot's added, a color is replaced by the slot's, a rotation is
/// multiplied from the left by the slot's, a direction is replaced by the
/// slot's, and an appearance stays.
pub open spec fn attribute_adjusted<N: Numerics>(
    numerics: &N,
    v: ColumnsView,
    i: int,
    plain: StandardSpawnData,
    out: StandardSpawnData,
) -> bool {
    match plain {
        StandardSpawnData::PosX(x) => out matches StandardSpawnData::PosX(y) && scalar_folded(
            numerics,
            v,
            i,
            ScalarField::PosX,
            x,
            y,
        ),
        StandardSpawnData::PosY(x) => out matches StandardSpawnData::PosY(y) && scalar_folded(
            numerics,
            v,
            i,
            ScalarField::PosY,
            x,
            y,
        ),
        StandardSpawnData::PosZ(x) => out matches StandardSpawnData::PosZ(y) && scalar_folded(
            numerics,
            v,
            i,
            ScalarField::PosZ,
            x,
            y,
        ),
        StandardSpawnData::Orientation(x) => out matches StandardSpawnData::Orientation(y)
            && quat_folded(numerics, v, i, QuatField::Orientation, x, y),
        StandardSpawnData::Appearance { form } => out == plain,
        StandardSpawnData::MainColor(x) => out matches StandardSpawnData::MainColor(y)
            && color_folded(v, i, ColorField::Main, x, y),
        StandardSpawnData::SecondaryColor(x) => out matches StandardSpawnData::SecondaryColor(y)
            && color_folded(v, i, ColorField::Secondary, x, y),
        StandardSpawnData::Damage(x) => out matches StandardSpawnData::Damage(y) && scalar_folded(
            numerics,
            v,
            i,
            ScalarField::Damage,
            x,
            y,
        ),
        StandardSpawnData::SizeX(x) => out matches StandardSpawnData::SizeX(y) && scalar_folded(
            numerics,
            v,
            i,
            ScalarField::ScaleX,
            x,
            y,
        ),
        StandardSpawnData::SizeY(x) => out matches StandardSpawnData::SizeY(y) && scalar_folded(
            numerics,
            v,
            i,
            ScalarField::ScaleY,
            x,
            y,
        ),
        StandardSpawnData::SizeZ(x) => out matches StandardSpawnData::SizeZ(y) && scalar_folded(
            numerics,
            v,
            i,
            ScalarField::ScaleZ,
            x,
            y,
        ),
        StandardSpawnData::MotionX(x) => out matches StandardSpawnData::MotionX(y)
            && scalar_folded(numerics, v, i, ScalarField::MotionX, x, y),
        StandardSpawnData::MotionY(x) => out matches StandardSpawnData::MotionY(y)
            && scalar_folded(numerics, v, i, ScalarField::MotionY, x, y),
        StandardSpawnData::MotionZ(x) => out matches StandardSpawnData::MotionZ(y)
            && scalar_folded(numerics, v, i, ScalarField::MotionZ, x, y),
        StandardSpawnData::GravityX(x) => out matches StandardSpawnData::GravityX(y)
            && scalar_folded(numerics, v, i, ScalarField::GravityX, x, y),
        StandardSpawnData::GravityY(x) => out matches StandardSpawnData::GravityY(y)
            && scalar_folded(numerics, v, i, ScalarField::GravityY, x, y),
        StandardSpawnData::GravityZ(x) => out matches StandardSpawnData::GravityZ(y)
            && scalar_folded(numerics, v, i, ScalarField::GravityZ, x, y),
        StandardSpawnData::SpeedAccel(x) => out matches StandardSpawnData::SpeedAccel(y)
            && scalar_folded(numerics, v, i, ScalarField::SpeedAccel, x, y),
        StandardSpawnData::Forward(x) => out matches StandardSpawnData::Forward(y)
            && forward_folded(numerics, v, i, x, y),
        StandardSpawnData::Rotation(x) => out matches StandardSpawnData::Rotation(y)
            && quat_folded(numerics, v, i, QuatField::Rotation, x, y),
    }
}

/// `out` is the next stage `plain` of slot `i` after each of its initial
/// attributes has taken over what the slot holds. Nothing else of the
/// descriptor changes.
pub open spec fn adjusted<N: Numerics>(
    numerics: &N,
    v: ColumnsView,
    i: int,
    plain: DanmakuSpawnData,
    out: DanmakuSpawnData,
) -> bool {
    &&& out == (DanmakuSpawnData { behavior_data: out.behavior_data, ..plain })
    &&& out.behavior_data@.len() == plain.behavior_data@.len()
    &&& forall|k: int|
        0 <= k < plain.behavior_data@.len() ==> attribute_adjusted(
            numerics,
            v,
            i,
            plain.behavior_data@[k],
            #[trigger] out.behavior_data@[k],
        )
}

/// The real number `plain` of a next stage of slot `i`, with the value
/// that the slot holds in `field` added where that value is folded in.
fn fold_scalar<N: Numerics>(
    numerics: &N,
    columns: &StandardColumns,
    i: usize,
    field: ScalarField,
    plain: Scalar,
) -> (out: Scalar)
    requires
        columns.wf(),
        i < columns@.capacity,
    ensures
        scalar_folded(numerics, columns@, i as int, field, plain, out),
{
    let kind = field.owner();
    if columns.required_columns().contains(kind) && columns.next_stage_add_data(i).contains(kind) {
        numerics.sum(plain, columns.scalar(field, i))
    } else {
        plain
    }
}

/// The color `plain` of a next stage of slot `i`, replaced by the color
/// that the slot holds in `field` where that value is folded in.
fn fold_color(columns: &StandardColumns, i: usize, field: ColorField, plain: i32) -> (out: i32)
    requires
        columns.wf(),
        i < columns@.capacity,
    ensures
        color_folded(columns@, i as int, field, plain, out),
{
    let kind = field.owner();
    if columns.required_columns().contains(kind) && columns.next_stage_add_data(i).contains(kind) {
        columns.color(field, i)
    } else {
        plain
    }
}

/// The rotation `plain` of a next stage of slot `i`, multiplied from the
/// left by the rotation that the slot holds in `field` where that column
/// is allocated.
fn fold_quat<N: Numerics>(
    numerics: &N,
    columns: &StandardColumns,
    i: usize,
    field: QuatField,
    plain: Quat,
) -> (out: Quat)
    requires
        columns.wf(),
        i < columns@.capacity,
    ensures
        quat_folded(numerics, columns@, i as int, field, plain, out),
{
    if columns.required_columns().contains(field.owner()) {
        numerics.rotate(columns.quat(field, i), plain)
    } else {
        plain
    }
}

/// The direction `plain` of a next stage of slot `i`, replaced by the
/// forward direction of the slot where that column is allocated.
fn fold_forward<N: Numerics>(numerics: &N, columns: &StandardColumns, i: usize, plain: Unit3) -> (out:
    Unit3)
    requires
        columns.wf(),
        i < columns@.capacity,
    ensures
        forward_folded(numerics, columns@, i as int, plain, out),
{
    if columns.required_columns().contains(StandardDataColumns::Forward) {
        numerics.normalize(
            columns.scalar(ScalarField::ForwardX, i),
            columns.scalar(ScalarField::ForwardY, i),
            columns.scalar(ScalarField::ForwardZ, i),
        )
    } else {
        plain
    }
}

/// An initial attribute of a next stage of slot `i` after it has taken
/// over what the slot holds.
pub fn adjust_attribute<N: Numerics>(
    numerics: &N,
    columns: &StandardColumns,
    i: usize,
    plain: StandardSpawnData,
) -> (out: StandardSpawnData)
    requires
        columns.wf(),
        i < columns@.capacity,
    ensures
        attribute_adjusted(numerics, columns@, i as int, plain, out),
{
    match plain {
        StandardSpawnData::PosX(x) => StandardSpawnData::PosX(
            fold_scalar(numerics, columns, i, ScalarField::PosX, x),
        ),
        StandardSpawnData::PosY(x) => StandardSpawnData::PosY(
            fold_scalar(numerics, columns, i, ScalarField::PosY, x),
        ),
        StandardSpawnData::PosZ(x) => StandardSpawnData::PosZ(
            fold_scalar(numerics, columns, i, ScalarField::PosZ, x),
        ),
        StandardSpawnData::Orientation(x) => StandardSpawnData::Orientation(
            fold_quat(numerics, columns, i, QuatField::Orientation, x),
        ),
        StandardSpawnData::Appearance { form } => StandardSpawnData::Appearance { form },
        StandardSpawnData::MainColor(x) => StandardSpawnData::MainColor(
            fold_color(columns, i, ColorField::Main, x),
        ),
        StandardSpawnData::SecondaryColor(x) => StandardSpawnData::SecondaryColor(
            fold_color(columns, i, ColorField::Secondary, x),
        ),
        StandardSpawnData::Damage(x) => StandardSpawnData::Damage(
            fold_scalar(numerics, columns, i, ScalarField::Damage, x),
        ),
        StandardSpawnData::SizeX(x) => StandardSpawnData::SizeX(
            fold_scalar(numerics, columns, i, ScalarField::ScaleX, x),
        ),
        StandardSpawnData::SizeY(x) => StandardSpawnData::SizeY(
            fold_scalar(numerics, columns, i, ScalarField::ScaleY, x),
        ),
        StandardSpawnData::SizeZ(x) => StandardSpawnData::SizeZ(
            fold_scalar(numerics, columns, i, ScalarField::ScaleZ, x),
        ),
        StandardSpawnData::MotionX(x) => StandardSpawnData::MotionX(
            fold_scalar(numerics, columns, i, ScalarField::MotionX, x),
        ),
        StandardSpawnData::MotionY(x) => StandardSpawnData::MotionY(
            fold_scalar(numerics, columns, i, ScalarField::MotionY, x),
        ),
        StandardSpawnData::MotionZ(x) => StandardSpawnData::MotionZ(
            fold_scalar(numerics, columns, i, ScalarField::MotionZ, x),
        ),
        StandardSpawnData::GravityX(x) => StandardSpawnData::GravityX(
            fold_scalar(numerics, columns, i, ScalarField::GravityX, x),
        ),
        StandardSpawnData::GravityY(x) => StandardSpawnData::GravityY(
            fold_scalar(numerics, columns, i, ScalarField::GravityY, x),
        ),
        StandardSpawnData::GravityZ(x) => StandardSpawnData::GravityZ(
            fold_scalar(numerics, columns, i, ScalarField::GravityZ, x),
        ),
        StandardSpawnData::SpeedAccel(x) => StandardSpawnData::SpeedAccel(
            fold_scalar(numerics, columns, i, ScalarField::SpeedAccel, x),
        ),
        StandardSpawnData::Forward(x) => StandardSpawnData::Forward(
            fold_forward(numerics, columns, i, x),
        ),
        StandardSpawnData::Rotation(x) => StandardSpawnData::Rotation(
            fold_quat(numerics, columns, i, QuatField::Rotation, x),
        ),
    }
}

/// A next stage of slot `i` after each of its initial attributes has
/// taken over what the slot holds.
pub fn adjust<N: Numerics>(
    numerics: &N,
    columns: &StandardColumns,
    i: usize,
    plain: DanmakuSpawnData,
) -> (out: DanmakuSpawnData)
    requires
        columns.wf(),
        i < columns@.capacity,
    ensures
        adjusted(numerics, columns@, i as int, plain, out),
{
    let mut out = plain;
    let n = out.behavior_data.len();
    let mut k: usize = 0;
    while k < n
        invariant
            k <= n,
            columns.wf(),
            i < columns@.capacity,
            n == plain.behavior_data@.len(),
            out.behavior_data@.len() == n,
            out == (DanmakuSpawnData { behavior_data: out.behavior_data, ..plain }),
            forall|j: int|
                0 <= j < k ==> attribute_adjusted(
                    numerics,
                    columns@,
                    i as int,
                    plain.behavior_data@[j],
                    #[trigger] out.behavior_data@[j],
                ),
            forall|j: int| k <= j < n ==> out.behavior_data@[j] == plain.behavior_data@[j],
        decreases n - k,
    {
        let attribute = adjust_attribute(numerics, columns, i, out.behavior_data[k]);
        out.behavior_data[k] = attribute;
        k += 1;
    }
    out
}

/// Whether the projectile in slot `i` dies when its tick count goes up by
/// one: it is not dead yet, and its count then exceeds its end time.
pub open spec fn dies(v: ColumnsView, i: int) -> bool {
    !v.dead[i] && next_tick(v.ticks_existed[i]) > v.end_time[i]
}

/// The slot that the next stages of slot `i` would like to take over: the
/// slot itself where there is exactly one next stage, and none otherwise.
pub open spec fn preferred_for(v: ColumnsView, i: int) -> Option<usize> {
    if v.next_stage[i].len() == 1 {
        Some(i as usize)
    } else {
        None
    }
}

/// The slots among the first `n` whose projectile dies, in their order.
pub open spec fn dying(v: ColumnsView, n: int) -> Seq<usize>
    decreases n,
{
    if n <= 0 {
        Seq::empty()
    } else if dies(v, n - 1) {
        dying(v, n - 1).push((n - 1) as usize)
    } else {
        dying(v, n - 1)
    }
}

/// The next stages that the first `n` slots ask to spawn, each by its slot
/// and its position among the next stages of that slot: those of the
/// slots whose projectile dies, slot by slot, in the order in which a slot
/// lists them.
pub open spec fn requests(v: ColumnsView, n: int) -> Seq<(int, int)>
    decreases n,
{
    if n <= 0 {
        Seq::empty()
    } else if dies(v, n - 1) {
        requests(v, n - 1) + Seq::new(v.next_stage[n - 1].len(), |stage: int| (n - 1, stage))
    } else {
        requests(v, n - 1)
    }
}

/// `spawns` is the list of spawn requests of `before`, followed by one
/// request for each next stage that the first `size` slots ask to spawn:
/// the next stage adjusted to its slot, with the slot it would like to
/// take over.
pub open spec fn spawns_staged<N: Numerics>(
    numerics: &N,
    before: ColumnsView,
    spawns: Seq<(DanmakuSpawnData, Option<usize>)>,
    size: int,
) -> bool {
    let asked = requests(before, size);
    let had = before.add_spawns.len() as int;
    &&& spawns.len() == had + asked.len()
    &&& forall|k: int| 0 <= k < had ==> #[trigger] spawns[k] == before.add_spawns[k]
    &&& forall|k: int|
        0 <= k < asked.len() ==> (#[trigger] spawns[had + k]).1 == preferred_for(
            before,
            asked[k].0,
        ) && adjusted(
            numerics,
            before,
            asked[k].0,
            before.next_stage[asked[k].0][asked[k].1],
            spawns[had + k].0,
        )
}

/// `after` is `before` one tick later, as far as the end of projectiles
/// goes, for the first `size` slots: each has existed one tick more; each
/// whose projectile thereby exceeds its end time is dead, has joined the
/// dead slots, and has handed its next stages over as spawn requests.
pub open spec fn ended<N: Numerics>(
    numerics: &N,
    before: ColumnsView,
    after: ColumnsView,
    size: int,
) -> bool {
    &&& after == (ColumnsView {
        ticks_existed: after.ticks_existed,
        dead: after.dead,
        current_dead: after.current_dead,
        next_stage: after.next_stage,
        add_spawns: after.add_spawns,
        ..before
    })
    &&& after.ticks_existed.len() == before.ticks_existed.len()
    &&& forall|i: int|
        0 <= i < before.ticks_existed.len() ==> #[trigger] after.ticks_existed[i] == if i < size {
            next_tick(before.ticks_existed[i])
        } else {
            before.ticks_existed[i]
        }
    &&& after.dead.len() == before.dead.len()
    &&& forall|i: int|
        0 <= i < before.dead.len() ==> #[trigger] after.dead[i] == (before.dead[i] || (i < size
            && dies(before, i)))
    &&& after.current_dead == before.current_dead + dying(before, size)
    &&& after.next_stage.len() == before.next_stage.len()
    &&& forall|i: int|
        0 <= i < before.next_stage.len() ==> #[trigger] after.next_stage[i] == if i < size
            && dies(before, i) {
            Seq::empty()
        } else {
            before.next_stage[i]
        }
    &&& spawns_staged(numerics, before, after.add_spawns, size)
}

/// Records the death of the projectile in slot `i` and hands its next
/// stages over as spawn requests, each adjusted to what the slot holds. A
/// single next stage asks for the slot itself.
fn stage_slot<N: Numerics>(numerics: &N, columns: &mut StandardColumns, i: usize)
    requires
        old(columns).wf(),
        i < old(columns)@.capacity,
        !old(columns)@.dead[i as int],
    ensures
        final(columns).wf(),
        final(columns)@ == (ColumnsView {
            dead: old(columns)@.dead.update(i as int, true),
            current_dead: old(columns)@.current_dead.push(i),
            next_stage: old(columns)@.next_stage.update(i as int, Seq::empty()),
            add_spawns: final(columns)@.add_spawns,
            ..old(columns)@
        }),
        final(columns)@.add_spawns.len() == old(columns)@.add_spawns.len() + old(columns)@.next_stage[i as int].len(),
        forall|k: int|
            0 <= k < old(columns)@.add_spawns.len() ==> #[trigger] final(columns)@.add_spawns[k]
                == old(columns)@.add_spawns[k],
        forall|k: int|
            0 <= k < old(columns)@.next_stage[i as int].len() ==> (#[trigger] final(columns)@.add_spawns[old(columns)@.add_spawns.len() + k]).1 == preferred_for(
                old(columns)@,
                i as int,
            ) && adjusted(
                numerics,
                old(columns)@,
                i as int,
                old(columns)@.next_stage[i as int][k],
                final(columns)@.add_spawns[old(columns)@.add_spawns.len() + k].0,
            ),
{
    let ghost before = columns@;
    columns.mark_dead(i);
    let stages = columns.take_next_stage(i);
    let ghost taken = columns@;
    let preferred = if stages.len() == 1 {
        Some(i)
    } else {
        None
    };
    for stage in it: stages.into_iter()
        invariant
            it.seq() == stages@,
            stages@ == before.next_stage[i as int],
            preferred == preferred_for(before, i as int),
            i < before.capacity,
            columns.wf(),
            columns@ == (ColumnsView { add_spawns: columns@.add_spawns, ..taken }),
            taken == (ColumnsView {
                dead: before.dead.update(i as int, true),
                current_dead: before.current_dead.push(i),
                next_stage: before.next_stage.update(i as int, Seq::empty()),
                ..before
            }),
            columns@.add_spawns.len() == before.add_spawns.len() + it.index(),
            forall|k: int|
                0 <= k < before.add_spawns.len() ==> #[trigger] columns@.add_spawns[k]
                    == before.add_spawns[k],
            forall|k: int|
                0 <= k < it.index() ==> (#[trigger] columns@.add_spawns[before.add_spawns.len()
                    + k]).1 == preferred && adjusted(
                    numerics,
                    before,
                    i as int,
                    stages@[k],
                    columns@.add_spawns[before.add_spawns.len() + k].0,
                ),
    {
        let ghost at = columns@;
        let made = adjust(numerics, columns, i, stage);
        proof {
            lemma_adjusted_reads(numerics, at, before, i as int, stage, made);
        }
        columns.push_spawn(made, preferred);
    }
}

/// An adjustment reads of the store only the attribute columns and the
/// mask of the slot: it comes out the same in a store that holds the same
/// there.
pub proof fn lemma_adjusted_reads<N: Numerics>(
    numerics: &N,
    a: ColumnsView,
    b: ColumnsView,
    i: int,
    plain: DanmakuSpawnData,
    out: DanmakuSpawnData,
)
    requires
        adjusted(numerics, a, i, plain, out),
        a.required == b.required,
        a.scalars == b.scalars,
        a.colors == b.colors,
        a.quats == b.quats,
        a.next_stage_add_data == b.next_stage_add_data,
    ensures
        adjusted(numerics, b, i, plain, out),
{
    assert forall|k: int| 0 <= k < plain.behavior_data@.len() implies attribute_adjusted(
        numerics,
        b,
        i,
        plain.behavior_data@[k],
        #[trigger] out.behavior_data@[k],
    ) by {
        assert(attribute_adjusted(
            numerics,
            a,
            i,
            plain.behavior_data@[k],
            out.behavior_data@[k],
        ));
    }
}

/// Ends a tick for the first `size` slots. Each has existed one tick more.
/// A projectile that thereby exceeds its end time dies: its slot is
/// flagged and joins the dead slots, and its next stages become spawn
/// requests, each adjusted to what the slot holds. A single next stage
/// asks for the slot of the projectile it follows.
pub fn mandatory_end_act<N: Numerics>(numerics: &N, columns: &mut StandardColumns, size: usize)
    requires
        old(columns).wf(),
        size <= old(columns)@.capacity,
    ensures
        final(columns).wf(),
        ended(numerics, old(columns)@, final(columns)@, size as int),
{
    let ghost before = columns@;
    let mut i: usize = 0;
    proof {
        assert(before.current_dead + dying(before, 0) =~= before.current_dead);
    }
    while i < size
        invariant
            i <= size,
            size <= before.capacity,
            before.wf(),
            columns.wf(),
            ended(numerics, before, columns@, i as int),
        decreases size - i,
    {
        proof {
            crate::packed::lemma_padded_covers(before.capacity, before.widths.ticks as nat);
        }
        let ticks = columns.ticks_existed(i);
        let ticks = if ticks == i16::MAX {
            i16::MIN
        } else {
            ticks + 1
        };
        columns.set_ticks_existed(i, ticks);
        let ghost ticked = columns@;
        if ticks > columns.end_time(i) && !columns.dead(i) {
            stage_slot(numerics, columns, i);
            proof {
                let after = columns@;
                let had = before.add_spawns.len() as int;
                let asked = requests(before, i as int);
                let more = requests(before, i + 1);
                let stages = before.next_stage[i as int];
                assert(dies(before, i as int));
                assert(more == asked + Seq::new(stages.len(), |stage: int| (i as int, stage)));
                assert(after.current_dead =~= before.current_dead + dying(before, i + 1));
                assert forall|k: int| 0 <= k < more.len() implies (#[trigger] after.add_spawns[had
                    + k]).1 == preferred_for(before, more[k].0) && adjusted(
                    numerics,
                    before,
                    more[k].0,
                    before.next_stage[more[k].0][more[k].1],
                    after.add_spawns[had + k].0,
                ) by {
                    if k < asked.len() {
                        assert(after.add_spawns[had + k] == ticked.add_spawns[had + k]);
                        assert(more[k] == asked[k]);
                    } else {
                        let j = k - asked.len();
                        assert(more[k] == (i as int, j));
                        assert(after.add_spawns[had + k] == after.add_spawns[ticked.add_spawns.len()
                            + j]);
                        lemma_adjusted_reads(
                            numerics,
                            ticked,
                            before,
                            i as int,
                            ticked.next_stage[i as int][j],
                            after.add_spawns[had + k].0,
                        );
                    }
                }
            }
        } else {
            proof {
                assert(!dies(before, i as int));
                assert(columns@.current_dead =~= before.current_dead + dying(before, i + 1));
            }
        }
        i += 1;
    }
}

/// Each request of the first `n` slots is for a next stage that one of
/// those slots holds.
pub proof fn lemma_requests_in_range(v: ColumnsView, n: int, k: int)
    requires
        0 <= k < requests(v, n).len(),
    ensures
        0 <= requests(v, n)[k].0 < n,
        0 <= requests(v, n)[k].1 < v.next_stage[requests(v, n)[k].0].len(),
    decreases n,
{
    if n > 0 {
        if dies(v, n - 1) {
            if k < requests(v, n - 1).len() {
                lemma_requests_in_range(v, n - 1, k);
            }
        } else {
            lemma_requests_in_range(v, n - 1, k);
        }
    }
}

/// An adjustment changes no name.
pub proof fn lemma_adjusted_known<N: Numerics>(
    numerics: &N,
    v: ColumnsView,
    i: int,
    plain: DanmakuSpawnData,
    out: DanmakuSpawnData,
    registered: Set<Seq<char>>,
)
    requires
        adjusted(numerics, v, i, plain, out),
        plain.all_known(registered),
    ensures
        out.all_known(registered),
{
    assert(out.behaviors == plain.behaviors);
    assert(out.children == plain.children);
    assert(out.next_stage == plain.next_stage);
}

/// The end of a tick brings in no name: the spawns it asks for are next
/// stages that the slots held.
pub proof fn lemma_ended_asks_only<N: Numerics>(
    numerics: &N,
    before: ColumnsView,
    after: ColumnsView,
    size: int,
    registered: Set<Seq<char>>,
)
    requires
        before.wf(),
        0 <= size <= before.capacity,
        ended(numerics, before, after, size),
        before.asks_only(registered),
    ensures
        after.asks_only(registered),
{
    let had = before.add_spawns.len() as int;
    let asked = requests(before, size);
    assert forall|k: int| 0 <= k < after.add_spawns.len() implies (
    #[trigger] after.add_spawns[k]).0.all_known(registered) by {
        if k < had {
            assert(after.add_spawns[k] == before.add_spawns[k]);
        } else {
            let j = k - had;
            lemma_requests_in_range(before, size, j);
            let slot = asked[j].0;
            let stage = asked[j].1;
            assert(after.add_spawns[had + j].1 == preferred_for(before, slot));
            assert(before.next_stage[slot][stage].all_known(registered));
            lemma_adjusted_known(
                numerics,
                before,
                slot,
                before.next_stage[slot][stage],
                after.add_spawns[had + j].0,
                registered,
            );
        }
    }
    assert forall|i: int, j: int|
        0 <= i < after.next_stage.len() && 0 <= j < after.next_stage[i].len() implies (
    #[trigger] after.next_stage[i][j]).all_known(registered) by {
        assert(after.next_stage[i] == before.next_stage[i]);
    }
}

} // verus!
