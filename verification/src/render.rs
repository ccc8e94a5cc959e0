//! Render data: what a frame shows of each live projectile.

use crate::color::ColorHex;
use crate::column_set::StandardDataColumns;
use crate::columns::{copy_of, ColumnsView, StandardColumns};
use crate::fields::{ColorField, QuatField, ScalarField};
use crate::form::Form;
use crate::numeric::{Mat4, Numerics, Pose, Quat, Scalar, Triple};
use vstd::prelude::*;

verus! {

/// What a frame shows of one projectile.
#[derive(Debug)]
pub struct RenderData {
    /// The shape.
    pub form: Form,
    /// Named values handed through to the renderer.
    pub render_properties: Vec<(&'static str, Scalar)>,
    /// The matrix that places the shape: in model space as a bucket gives
    /// it out, in world space once the parents are composed in.
    pub model_mat: Mat4,
    pub main_color: i32,
    pub secondary_color: i32,
    pub ticks_existed: i16,
    pub end_time: i16,
}

/// What slot `i` holds in the column of real numbers `field`, or `missing`
/// where that column is not allocated.
pub open spec fn scalar_or(v: ColumnsView, field: ScalarField, i: int, missing: Scalar) -> Scalar {
    if v.required.contains(field.kind()) {
        v.scalar(field)[i]
    } else {
        missing
    }
}

/// What slot `i` holds in the column of rotations `field`, or the identity
/// where that column is not allocated.
pub open spec fn quat_or_identity(v: ColumnsView, field: QuatField, i: int) -> Quat {
    if v.required.contains(field.kind()) {
        v.quat(field)[i]
    } else {
        Quat::spec_identity()
    }
}

/// The pose of slot `i`. What the store does not keep contributes
/// nothing: a missing scale is one, a missing position zero, a missing
/// orientation the identity.
pub open spec fn pose_of(v: ColumnsView, i: int) -> Pose {
    let one = Scalar { bits: 0x3F80_0000 };
    let zero = Scalar { bits: 0 };
    Pose {
        old_scale: Triple {
            x: scalar_or(v, ScalarField::OldScaleX, i, one),
            y: scalar_or(v, ScalarField::OldScaleY, i, one),
            z: scalar_or(v, ScalarField::OldScaleZ, i, one),
        },
        scale: Triple {
            x: scalar_or(v, ScalarField::ScaleX, i, one),
            y: scalar_or(v, ScalarField::ScaleY, i, one),
            z: scalar_or(v, ScalarField::ScaleZ, i, one),
        },
        old_pos: Triple {
            x: scalar_or(v, ScalarField::OldPosX, i, zero),
            y: scalar_or(v, ScalarField::OldPosY, i, zero),
            z: scalar_or(v, ScalarField::OldPosZ, i, zero),
        },
        pos: Triple {
            x: scalar_or(v, ScalarField::PosX, i, zero),
            y: scalar_or(v, ScalarField::PosY, i, zero),
            z: scalar_or(v, ScalarField::PosZ, i, zero),
        },
        old_orientation: quat_or_identity(v, QuatField::OldOrientation, i),
        orientation: quat_or_identity(v, QuatField::Orientation, i),
    }
}

/// `m` is what `numerics` gave for the model matrix of `pose` at
/// `partial_ticks`.
pub open spec fn is_transform<N: Numerics>(
    numerics: &N,
    pose: Pose,
    partial_ticks: Scalar,
    m: Mat4,
) -> bool {
    call_ensures(N::local_transform, (numerics, pose, partial_ticks), m)
}

/// `entries` are the entries of what `numerics` gave for the model matrix
/// of `pose` at `partial_ticks`.
pub open spec fn is_transform_entries<N: Numerics>(
    numerics: &N,
    pose: Pose,
    partial_ticks: Scalar,
    entries: Seq<Scalar>,
) -> bool {
    exists|m: Mat4| #[trigger] is_transform(numerics, pose, partial_ticks, m) && m.m@ == entries
}

/// Whether slot `i` is shown: the projectile in the slot is not dead.
pub open spec fn shown(v: ColumnsView, i: int) -> bool {
    !v.dead[i]
}

/// The shape of slot `i`, or the sphere where the store keeps no
/// appearance.
pub open spec fn form_or_sphere(v: ColumnsView, i: int) -> Form {
    if v.required.contains(StandardDataColumns::Appearance) {
        v.form[i]
    } else {
        Form { id: "sphere" }
    }
}

/// The values that slot `i` hands through to the renderer, or none where
/// the store keeps no appearance.
pub open spec fn properties_or_none(v: ColumnsView, i: int) -> Seq<(&'static str, Scalar)> {
    if v.required.contains(StandardDataColumns::Appearance) {
        v.render_properties[i]
    } else {
        Seq::empty()
    }
}

/// `after` is `before` with the local transform of each slot that is
/// shown among the first `size` computed anew for `partial_ticks`.
pub open spec fn transforms_computed<N: Numerics>(
    numerics: &N,
    before: ColumnsView,
    after: ColumnsView,
    size: int,
    partial_ticks: Scalar,
) -> bool {
    &&& after == (ColumnsView { transform_mats: after.transform_mats, ..before })
    &&& after.transform_mats.len() == before.transform_mats.len()
    &&& forall|i: int|
        0 <= i < before.transform_mats.len() ==> if i < size && shown(before, i) {
            is_transform_entries(
                numerics,
                pose_of(before, i),
                partial_ticks,
                #[trigger] after.transform_mats[i],
            )
        } else {
            after.transform_mats[i] == before.transform_mats[i]
        }
}

/// What slot `i` holds in the column of real numbers `field`, or `missing`
/// where that column is not allocated.
fn read_scalar(columns: &StandardColumns, field: ScalarField, i: usize, missing: Scalar) -> (v:
    Scalar)
    requires
        columns.wf(),
        i < columns@.capacity,
    ensures
        v == scalar_or(columns@, field, i as int, missing),
{
    if columns.required_columns().contains(field.owner()) {
        columns.scalar(field, i)
    } else {
        missing
    }
}

/// What slot `i` holds in the column of rotations `field`, or the identity
/// where that column is not allocated.
fn read_quat(columns: &StandardColumns, field: QuatField, i: usize) -> (v: Quat)
    requires
        columns.wf(),
        i < columns@.capacity,
    ensures
        v == quat_or_identity(columns@, field, i as int),
{
    if columns.required_columns().contains(field.owner()) {
        columns.quat(field, i)
    } else {
        Quat::identity()
    }
}

/// The pose of slot `i`.
pub fn pose<N: Numerics>(columns: &StandardColumns, i: usize) -> (pose: Pose)
    requires
        columns.wf(),
        i < columns@.capacity,
    ensures
        pose == pose_of(columns@, i as int),
{
    let one = Scalar::one();
    let zero = Scalar::zero();
    Pose {
        old_scale: Triple {
            x: read_scalar(columns, ScalarField::OldScaleX, i, one),
            y: read_scalar(columns, ScalarField::OldScaleY, i, one),
            z: read_scalar(columns, ScalarField::OldScaleZ, i, one),
        },
        scale: Triple {
            x: read_scalar(columns, ScalarField::ScaleX, i, one),
            y: read_scalar(columns, ScalarField::ScaleY, i, one),
            z: read_scalar(columns, ScalarField::ScaleZ, i, one),
        },
        old_pos: Triple {
            x: read_scalar(columns, ScalarField::OldPosX, i, zero),
            y: read_scalar(columns, ScalarField::OldPosY, i, zero),
            z: read_scalar(columns, ScalarField::OldPosZ, i, zero),
        },
        pos: Triple {
            x: read_scalar(columns, ScalarField::PosX, i, zero),
            y: read_scalar(columns, ScalarField::PosY, i, zero),
            z: read_scalar(columns, ScalarField::PosZ, i, zero),
        },
        old_orientation: read_quat(columns, QuatField::OldOrientation, i),
        orientation: read_quat(columns, QuatField::Orientation, i),
    }
}

/// Computes anew, for `partial_ticks` between the previous tick and the
/// current one, the local transform of each slot that is shown among the
/// first `current_size`.
pub fn compute_transform_mats<N: Numerics>(
    numerics: &N,
    columns: &mut StandardColumns,
    current_size: usize,
    partial_ticks: Scalar,
)
    requires
        old(columns).wf(),
        current_size <= old(columns)@.capacity,
    ensures
        final(columns).wf(),
        transforms_computed(
            numerics,
            old(columns)@,
            final(columns)@,
            current_size as int,
            partial_ticks,
        ),
{
    let ghost before = columns@;
    let mut i: usize = 0;
    while i < current_size
        invariant
            i <= current_size,
            current_size <= before.capacity,
            before.wf(),
            columns.wf(),
            transforms_computed(numerics, before, columns@, i as int, partial_ticks),
        decreases current_size - i,
    {
        let ghost mid = columns@;
        if !columns.dead(i) {
            refresh_transform(numerics, columns, i, partial_ticks);
            proof {
                lemma_pose_reads(mid, before, i as int);
            }
        }
        i += 1;
    }
}

/// Computes anew the local transform of slot `i`.
fn refresh_transform<N: Numerics>(
    numerics: &N,
    columns: &mut StandardColumns,
    i: usize,
    partial_ticks: Scalar,
)
    requires
        old(columns).wf(),
        i < old(columns)@.capacity,
    ensures
        final(columns).wf(),
        final(columns)@ == (ColumnsView {
            transform_mats: old(columns)@.transform_mats.update(
                i as int,
                final(columns)@.transform_mats[i as int],
            ),
            ..old(columns)@
        }),
        is_transform_entries(
            numerics,
            pose_of(old(columns)@, i as int),
            partial_ticks,
            final(columns)@.transform_mats[i as int],
        ),
{
    let at = pose::<N>(columns, i);
    let m = numerics.local_transform(at, partial_ticks);
    columns.set_transform(i, m);
    proof {
        assert(is_transform(numerics, at, partial_ticks, m));
    }
}

/// A pose reads of the store only the kinds it keeps and the columns of
/// real numbers and of rotations.
pub proof fn lemma_pose_reads(a: ColumnsView, b: ColumnsView, i: int)
    requires
        a.required == b.required,
        a.scalars == b.scalars,
        a.quats == b.quats,
    ensures
        pose_of(a, i) == pose_of(b, i),
{
}

/// `out` is the color of slot `i` in the column `now`, interpolated
/// towards the color in the column `previous` at `partial_ticks`; black
/// where the store does not keep that color.
pub open spec fn color_blended<N: Numerics>(
    numerics: &N,
    v: ColumnsView,
    i: int,
    now: ColorField,
    previous: ColorField,
    partial_ticks: Scalar,
    out: i32,
) -> bool {
    if v.required.contains(now.kind()) {
        call_ensures(
            N::blend_color,
            (numerics, ColorHex(v.color(now)[i]), ColorHex(v.color(previous)[i]), partial_ticks),
            ColorHex(out),
        )
    } else {
        out == 0
    }
}

/// `entry` is what a frame at `partial_ticks` shows of slot `i`, under
/// the identifier of its projectile.
pub open spec fn renders<N: Numerics>(
    numerics: &N,
    v: ColumnsView,
    i: int,
    partial_ticks: Scalar,
    entry: (i128, RenderData),
) -> bool {
    &&& entry.0 == v.id[i]
    &&& entry.1.form == form_or_sphere(v, i)
    &&& entry.1.render_properties@ == properties_or_none(v, i)
    &&& entry.1.model_mat.m@ == v.transform_mats[i]
    &&& color_blended(
        numerics,
        v,
        i,
        ColorField::Main,
        ColorField::OldMain,
        partial_ticks,
        entry.1.main_color,
    )
    &&& color_blended(
        numerics,
        v,
        i,
        ColorField::Secondary,
        ColorField::OldSecondary,
        partial_ticks,
        entry.1.secondary_color,
    )
    &&& entry.1.ticks_existed == v.ticks_existed[i]
    &&& entry.1.end_time == v.end_time[i]
}

/// The slots among the first `n` that are shown, in their order.
pub open spec fn shown_slots(v: ColumnsView, n: int) -> Seq<int>
    decreases n,
{
    if n <= 0 {
        Seq::empty()
    } else if shown(v, n - 1) {
        shown_slots(v, n - 1).push(n - 1)
    } else {
        shown_slots(v, n - 1)
    }
}

/// `data` is what a frame at `partial_ticks` shows of the first `size`
/// slots: one entry for each slot that is shown, in the order of the
/// slots.
pub open spec fn rendered<N: Numerics>(
    numerics: &N,
    v: ColumnsView,
    data: Seq<(i128, RenderData)>,
    size: int,
    partial_ticks: Scalar,
) -> bool {
    &&& data.len() == shown_slots(v, size).len()
    &&& forall|k: int|
        0 <= k < data.len() ==> renders(
            numerics,
            v,
            shown_slots(v, size)[k],
            partial_ticks,
            #[trigger] data[k],
        )
}

/// The color of slot `i` in the column `now`, interpolated towards the
/// color in the column `previous`; black where the store does not keep
/// that color.
fn blend<N: Numerics>(
    numerics: &N,
    columns: &StandardColumns,
    i: usize,
    now: ColorField,
    previous: ColorField,
    partial_ticks: Scalar,
) -> (out: i32)
    requires
        columns.wf(),
        i < columns@.capacity,
        now.kind() == previous.kind(),
    ensures
        color_blended(numerics, columns@, i as int, now, previous, partial_ticks, out),
{
    if columns.required_columns().contains(now.owner()) {
        let from = ColorHex(columns.color(now, i));
        let to = ColorHex(columns.color(previous, i));
        let blended = numerics.blend_color(from, to, partial_ticks);
        assert(blended == ColorHex(blended.0));
        blended.0
    } else {
        0
    }
}

/// Computes the local transforms for `partial_ticks` and gives out what
/// the frame shows of the first `current_size` slots: one entry for each
/// slot that is shown, in model space, under the identifier of its
/// projectile. A store that keeps no appearance shows spheres.
pub fn compute_and_get_render_data<N: Numerics>(
    numerics: &N,
    columns: &mut StandardColumns,
    current_size: usize,
    partial_ticks: Scalar,
) -> (data: Vec<(i128, RenderData)>)
    requires
        old(columns).wf(),
        current_size <= old(columns)@.capacity,
    ensures
        final(columns).wf(),
        transforms_computed(
            numerics,
            old(columns)@,
            final(columns)@,
            current_size as int,
            partial_ticks,
        ),
        rendered(numerics, final(columns)@, data@, current_size as int, partial_ticks),
{
    compute_transform_mats(numerics, columns, current_size, partial_ticks);
    let mut data: Vec<(i128, RenderData)> = Vec::new();
    let appears = columns.required_columns().contains(StandardDataColumns::Appearance);
    let mut i: usize = 0;
    while i < current_size
        invariant
            i <= current_size,
            current_size <= columns@.capacity,
            columns.wf(),
            appears == columns@.required.contains(StandardDataColumns::Appearance),
            rendered(numerics, columns@, data@, i as int, partial_ticks),
        decreases current_size - i,
    {
        if !columns.dead(i) {
            let main_color = blend(
                numerics,
                columns,
                i,
                ColorField::Main,
                ColorField::OldMain,
                partial_ticks,
            );
            let secondary_color = blend(
                numerics,
                columns,
                i,
                ColorField::Secondary,
                ColorField::OldSecondary,
                partial_ticks,
            );
            let form = if appears {
                columns.form(i)
            } else {
                Form::sphere()
            };
            let render_properties = if appears {
                copy_of(columns.render_properties(i))
            } else {
                Vec::new()
            };
            let entry = (
                columns.id(i),
                RenderData {
                    form,
                    render_properties,
                    model_mat: columns.transform(i),
                    main_color,
                    secondary_color,
                    ticks_existed: columns.ticks_existed(i),
                    end_time: columns.end_time(i),
                },
            );
            data.push(entry);
        }
        i += 1;
    }
    data
}

} // verus!
