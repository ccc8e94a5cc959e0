//! Operations on whole columns, slot by slot over the first slots of a
//! store: what the standard behaviors are made of.

use crate::columns::{ColumnsView, StandardColumns};
use crate::fields::{QuatField, ScalarField};
use crate::numeric::{
    is_rotation, is_sum, is_sum_with_product, is_sum_with_ticks, is_turned, Numerics, Quat, Scalar,
};
use vstd::prelude::*;

verus! {

/// `after` is `before` but for the first `size` rows of the column of real
/// numbers `field`.
pub open spec fn only_scalars_changed(
    before: ColumnsView,
    after: ColumnsView,
    field: ScalarField,
    size: int,
) -> bool {
    &&& after == (ColumnsView {
        scalars: before.scalars.update(field.index(), after.scalar(field)),
        ..before
    })
    &&& after.scalar(field).len() == before.scalar(field).len()
    &&& forall|i: int|
        size <= i < before.scalar(field).len() ==> #[trigger] after.scalar(field)[i]
            == before.scalar(field)[i]
}

/// `after` is `before` but for the first `size` rows of the column of
/// rotations `field`.
pub open spec fn only_quats_changed(
    before: ColumnsView,
    after: ColumnsView,
    field: QuatField,
    size: int,
) -> bool {
    &&& after == (ColumnsView {
        quats: before.quats.update(field.index(), after.quat(field)),
        ..before
    })
    &&& after.quat(field).len() == before.quat(field).len()
    &&& forall|i: int|
        size <= i < before.quat(field).len() ==> #[trigger] after.quat(field)[i] == before.quat(
            field,
        )[i]
}

/// Copies the first `size` rows of `from` to `to`.
pub fn copy_scalars(columns: &mut StandardColumns, to: ScalarField, from: ScalarField, size: usize)
    requires
        old(columns).wf(),
        size <= old(columns)@.capacity,
        old(columns)@.required.contains(to.kind()),
        old(columns)@.required.contains(from.kind()),
    ensures
        final(columns).wf(),
        only_scalars_changed(old(columns)@, final(columns)@, to, size as int),
        forall|i: int|
            0 <= i < size ==> #[trigger] final(columns)@.scalar(to)[i] == old(columns)@.scalar(
                from,
            )[i],
{
    let ghost before = columns@;
    let mut i: usize = 0;
    while i < size
        invariant
            i <= size,
            size <= before.capacity,
            before.wf(),
            columns.wf(),
            before.required.contains(to.kind()),
            before.required.contains(from.kind()),
            columns@ == (ColumnsView {
                scalars: before.scalars.update(to.index(), columns@.scalar(to)),
                ..before
            }),
            columns@.scalar(to).len() == before.scalar(to).len(),
            forall|j: int|
                i <= j < before.scalar(to).len() ==> #[trigger] columns@.scalar(to)[j]
                    == before.scalar(to)[j],
            forall|j: int|
                0 <= j < i ==> #[trigger] columns@.scalar(to)[j] == before.scalar(from)[j],
        decreases size - i,
    {
        proof {
            crate::packed::lemma_padded_covers(before.capacity, before.widths.scalar as nat);
        }
        let v = columns.scalar(from, i);
        columns.set_scalar(to, i, v);
        proof {
            assert(columns@.scalars =~~= before.scalars.update(to.index(), columns@.scalar(to)));
        }
        i += 1;
    }
}

/// Adds to each of the first `size` rows of `to` the row beside it in
/// `other`.
pub fn add_scalars<N: Numerics>(
    numerics: &N,
    columns: &mut StandardColumns,
    to: ScalarField,
    other: ScalarField,
    size: usize,
)
    requires
        old(columns).wf(),
        size <= old(columns)@.capacity,
        old(columns)@.required.contains(to.kind()),
        old(columns)@.required.contains(other.kind()),
    ensures
        final(columns).wf(),
        only_scalars_changed(old(columns)@, final(columns)@, to, size as int),
        forall|i: int|
            0 <= i < size ==> is_sum(
                numerics,
                old(columns)@.scalar(to)[i],
                old(columns)@.scalar(other)[i],
                #[trigger] final(columns)@.scalar(to)[i],
            ),
{
    let ghost before = columns@;
    let mut i: usize = 0;
    while i < size
        invariant
            i <= size,
            size <= before.capacity,
            before.wf(),
            columns.wf(),
            before.required.contains(to.kind()),
            before.required.contains(other.kind()),
            columns@ == (ColumnsView {
                scalars: before.scalars.update(to.index(), columns@.scalar(to)),
                ..before
            }),
            columns@.scalar(to).len() == before.scalar(to).len(),
            forall|j: int|
                i <= j < before.scalar(to).len() ==> #[trigger] columns@.scalar(to)[j]
                    == before.scalar(to)[j],
            forall|j: int|
                0 <= j < i ==> is_sum(
                    numerics,
                    before.scalar(to)[j],
                    before.scalar(other)[j],
                    #[trigger] columns@.scalar(to)[j],
                ),
        decreases size - i,
    {
        proof {
            crate::packed::lemma_padded_covers(before.capacity, before.widths.scalar as nat);
        }
        let a = columns.scalar(to, i);
        let b = columns.scalar(other, i);
        let r = numerics.sum(a, b);
        columns.set_scalar(to, i, r);
        proof {
            assert(columns@.scalars =~~= before.scalars.update(to.index(), columns@.scalar(to)));
        }
        i += 1;
    }
}

/// Adds to each of the first `size` rows of `to` the row beside it in
/// `rate`, times the number of ticks that the slot has existed.
pub fn add_scalars_by_ticks<N: Numerics>(
    numerics: &N,
    columns: &mut StandardColumns,
    to: ScalarField,
    rate: ScalarField,
    size: usize,
)
    requires
        old(columns).wf(),
        size <= old(columns)@.capacity,
        old(columns)@.required.contains(to.kind()),
        old(columns)@.required.contains(rate.kind()),
    ensures
        final(columns).wf(),
        only_scalars_changed(old(columns)@, final(columns)@, to, size as int),
        forall|i: int|
            0 <= i < size ==> is_sum_with_ticks(
                numerics,
                old(columns)@.scalar(to)[i],
                old(columns)@.scalar(rate)[i],
                old(columns)@.ticks_existed[i],
                #[trigger] final(columns)@.scalar(to)[i],
            ),
{
    let ghost before = columns@;
    let mut i: usize = 0;
    while i < size
        invariant
            i <= size,
            size <= before.capacity,
            before.wf(),
            columns.wf(),
            before.required.contains(to.kind()),
            before.required.contains(rate.kind()),
            columns@ == (ColumnsView {
                scalars: before.scalars.update(to.index(), columns@.scalar(to)),
                ..before
            }),
            columns@.scalar(to).len() == before.scalar(to).len(),
            forall|j: int|
                i <= j < before.scalar(to).len() ==> #[trigger] columns@.scalar(to)[j]
                    == before.scalar(to)[j],
            forall|j: int|
                0 <= j < i ==> is_sum_with_ticks(
                    numerics,
                    before.scalar(to)[j],
                    before.scalar(rate)[j],
                    before.ticks_existed[j],
                    #[trigger] columns@.scalar(to)[j],
                ),
        decreases size - i,
    {
        proof {
            crate::packed::lemma_padded_covers(before.capacity, before.widths.scalar as nat);
        }
        let a = columns.scalar(to, i);
        let b = columns.scalar(rate, i);
        let t = numerics.of_ticks(columns.ticks_existed(i));
        let p = numerics.product(b, t);
        let r = numerics.sum(a, p);
        columns.set_scalar(to, i, r);
        proof {
            assert(columns@.scalars =~~= before.scalars.update(to.index(), columns@.scalar(to)));
            assert(crate::numeric::is_product(numerics, b, t, p));
            assert(is_sum_with_product(numerics, a, b, t, r));
            assert(crate::numeric::is_ticks(numerics, before.ticks_existed[i as int], t));
        }
        i += 1;
    }
}

/// Adds to each of the first `size` rows of `to` the product of the rows
/// beside it in `a` and in `b`.
pub fn add_products<N: Numerics>(
    numerics: &N,
    columns: &mut StandardColumns,
    to: ScalarField,
    a: ScalarField,
    b: ScalarField,
    size: usize,
)
    requires
        old(columns).wf(),
        size <= old(columns)@.capacity,
        old(columns)@.required.contains(to.kind()),
        old(columns)@.required.contains(a.kind()),
        old(columns)@.required.contains(b.kind()),
    ensures
        final(columns).wf(),
        only_scalars_changed(old(columns)@, final(columns)@, to, size as int),
        forall|i: int|
            0 <= i < size ==> is_sum_with_product(
                numerics,
                old(columns)@.scalar(to)[i],
                old(columns)@.scalar(a)[i],
                old(columns)@.scalar(b)[i],
                #[trigger] final(columns)@.scalar(to)[i],
            ),
{
    let ghost before = columns@;
    let mut i: usize = 0;
    while i < size
        invariant
            i <= size,
            size <= before.capacity,
            before.wf(),
            columns.wf(),
            before.required.contains(to.kind()),
            before.required.contains(a.kind()),
            before.required.contains(b.kind()),
            columns@ == (ColumnsView {
                scalars: before.scalars.update(to.index(), columns@.scalar(to)),
                ..before
            }),
            columns@.scalar(to).len() == before.scalar(to).len(),
            forall|j: int|
                i <= j < before.scalar(to).len() ==> #[trigger] columns@.scalar(to)[j]
                    == before.scalar(to)[j],
            forall|j: int|
                0 <= j < i ==> is_sum_with_product(
                    numerics,
                    before.scalar(to)[j],
                    before.scalar(a)[j],
                    before.scalar(b)[j],
                    #[trigger] columns@.scalar(to)[j],
                ),
        decreases size - i,
    {
        proof {
            crate::packed::lemma_padded_covers(before.capacity, before.widths.scalar as nat);
        }
        let acc = columns.scalar(to, i);
        let x = columns.scalar(a, i);
        let y = columns.scalar(b, i);
        let p = numerics.product(x, y);
        let r = numerics.sum(acc, p);
        columns.set_scalar(to, i, r);
        proof {
            assert(columns@.scalars =~~= before.scalars.update(to.index(), columns@.scalar(to)));
            assert(crate::numeric::is_product(numerics, x, y, p));
        }
        i += 1;
    }
}

/// Copies the first `size` rows of the rotations `from` to `to`.
pub fn copy_quats(columns: &mut StandardColumns, to: QuatField, from: QuatField, size: usize)
    requires
        old(columns).wf(),
        size <= old(columns)@.capacity,
        old(columns)@.required.contains(to.kind()),
        old(columns)@.required.contains(from.kind()),
    ensures
        final(columns).wf(),
        only_quats_changed(old(columns)@, final(columns)@, to, size as int),
        forall|i: int|
            0 <= i < size ==> #[trigger] final(columns)@.quat(to)[i] == old(columns)@.quat(from)[i],
{
    let ghost before = columns@;
    let mut i: usize = 0;
    while i < size
        invariant
            i <= size,
            size <= before.capacity,
            before.wf(),
            columns.wf(),
            before.required.contains(to.kind()),
            before.required.contains(from.kind()),
            columns@ == (ColumnsView {
                quats: before.quats.update(to.index(), columns@.quat(to)),
                ..before
            }),
            columns@.quat(to).len() == before.quat(to).len(),
            forall|j: int|
                i <= j < before.quat(to).len() ==> #[trigger] columns@.quat(to)[j] == before.quat(
                    to,
                )[j],
            forall|j: int| 0 <= j < i ==> #[trigger] columns@.quat(to)[j] == before.quat(from)[j],
        decreases size - i,
    {
        let v = columns.quat(from, i);
        columns.set_quat(to, i, v);
        proof {
            assert(columns@.quats =~~= before.quats.update(to.index(), columns@.quat(to)));
        }
        i += 1;
    }
}

/// Follows each of the first `size` rotations of `to` by the rotation
/// beside it in `by`: the row becomes `to · by`.
pub fn rotate_quats<N: Numerics>(
    numerics: &N,
    columns: &mut StandardColumns,
    to: QuatField,
    by: QuatField,
    size: usize,
)
    requires
        old(columns).wf(),
        size <= old(columns)@.capacity,
        old(columns)@.required.contains(to.kind()),
        old(columns)@.required.contains(by.kind()),
    ensures
        final(columns).wf(),
        only_quats_changed(old(columns)@, final(columns)@, to, size as int),
        forall|i: int|
            0 <= i < size ==> is_rotation(
                numerics,
                old(columns)@.quat(to)[i],
                old(columns)@.quat(by)[i],
                #[trigger] final(columns)@.quat(to)[i],
            ),
{
    let ghost before = columns@;
    let mut i: usize = 0;
    while i < size
        invariant
            i <= size,
            size <= before.capacity,
            before.wf(),
            columns.wf(),
            before.required.contains(to.kind()),
            before.required.contains(by.kind()),
            columns@ == (ColumnsView {
                quats: before.quats.update(to.index(), columns@.quat(to)),
                ..before
            }),
            columns@.quat(to).len() == before.quat(to).len(),
            forall|j: int|
                i <= j < before.quat(to).len() ==> #[trigger] columns@.quat(to)[j] == before.quat(
                    to,
                )[j],
            forall|j: int|
                0 <= j < i ==> is_rotation(
                    numerics,
                    before.quat(to)[j],
                    before.quat(by)[j],
                    #[trigger] columns@.quat(to)[j],
                ),
        decreases size - i,
    {
        let a = columns.quat(to, i);
        let b = columns.quat(by, i);
        let r = numerics.rotate(a, b);
        columns.set_quat(to, i, r);
        proof {
            assert(columns@.quats =~~= before.quats.update(to.index(), columns@.quat(to)));
        }
        i += 1;
    }
}

/// `after` is `before` but for the first `size` rows of the three columns
/// of the forward direction.
pub open spec fn only_forward_changed(before: ColumnsView, after: ColumnsView, size: int) -> bool {
    &&& after == (ColumnsView { scalars: after.scalars, ..before })
    &&& after.scalars.len() == before.scalars.len()
    &&& forall|f: int|
        0 <= f < before.scalars.len() ==> (#[trigger] after.scalars[f]).len()
            == before.scalars[f].len()
    &&& forall|f: int|
        0 <= f < before.scalars.len() && f != ScalarField::ForwardX.index() && f
            != ScalarField::ForwardY.index() && f != ScalarField::ForwardZ.index()
            ==> #[trigger] after.scalars[f] == before.scalars[f]
    &&& forall|f: int, i: int|
        0 <= f < before.scalars.len() && size <= i < before.scalars[f].len()
            ==> #[trigger] after.scalars[f][i] == before.scalars[f][i]
}

/// Turns the forward direction of each of the first `size` slots by the
/// rotation of the slot, and brings it back to length one.
pub fn turn_forward<N: Numerics>(numerics: &N, columns: &mut StandardColumns, size: usize)
    requires
        old(columns).wf(),
        size <= old(columns)@.capacity,
        old(columns)@.required.contains(ScalarField::ForwardX.kind()),
        old(columns)@.required.contains(QuatField::Rotation.kind()),
    ensures
        final(columns).wf(),
        only_forward_changed(old(columns)@, final(columns)@, size as int),
        forall|i: int|
            0 <= i < size ==> is_turned(
                numerics,
                old(columns)@.quat(QuatField::Rotation)[i],
                old(columns)@.scalar(ScalarField::ForwardX)[i],
                old(columns)@.scalar(ScalarField::ForwardY)[i],
                old(columns)@.scalar(ScalarField::ForwardZ)[i],
                crate::numeric::Unit3 {
                    x: #[trigger] final(columns)@.scalar(ScalarField::ForwardX)[i],
                    y: final(columns)@.scalar(ScalarField::ForwardY)[i],
                    z: final(columns)@.scalar(ScalarField::ForwardZ)[i],
                },
            ),
{
    let ghost before = columns@;
    let mut i: usize = 0;
    while i < size
        invariant
            i <= size,
            size <= before.capacity,
            before.wf(),
            columns.wf(),
            before.required.contains(ScalarField::ForwardX.kind()),
            before.required.contains(QuatField::Rotation.kind()),
            columns@ == (ColumnsView { scalars: columns@.scalars, ..before }),
            columns@.scalars.len() == before.scalars.len(),
            forall|f: int|
                0 <= f < before.scalars.len() ==> (#[trigger] columns@.scalars[f]).len()
                    == before.scalars[f].len(),
            forall|f: int|
                0 <= f < before.scalars.len() && f != ScalarField::ForwardX.index() && f
                    != ScalarField::ForwardY.index() && f != ScalarField::ForwardZ.index()
                    ==> #[trigger] columns@.scalars[f] == before.scalars[f],
            forall|f: int, j: int|
                0 <= f < before.scalars.len() && i <= j < before.scalars[f].len()
                    ==> #[trigger] columns@.scalars[f][j] == before.scalars[f][j],
            forall|j: int|
                0 <= j < i ==> is_turned(
                    numerics,
                    before.quat(QuatField::Rotation)[j],
                    before.scalar(ScalarField::ForwardX)[j],
                    before.scalar(ScalarField::ForwardY)[j],
                    before.scalar(ScalarField::ForwardZ)[j],
                    crate::numeric::Unit3 {
                        x: #[trigger] columns@.scalar(ScalarField::ForwardX)[j],
                        y: columns@.scalar(ScalarField::ForwardY)[j],
                        z: columns@.scalar(ScalarField::ForwardZ)[j],
                    },
                ),
        decreases size - i,
    {
        proof {
            crate::packed::lemma_padded_covers(before.capacity, before.widths.scalar as nat);
        }
        let x = columns.scalar(ScalarField::ForwardX, i);
        let y = columns.scalar(ScalarField::ForwardY, i);
        let z = columns.scalar(ScalarField::ForwardZ, i);
        let by = columns.quat(QuatField::Rotation, i);
        let forward = numerics.normalize(x, y, z);
        let turned = numerics.turn(by, forward);
        columns.set_scalar(ScalarField::ForwardX, i, turned.x);
        columns.set_scalar(ScalarField::ForwardY, i, turned.y);
        columns.set_scalar(ScalarField::ForwardZ, i, turned.z);
        proof {
            assert(crate::numeric::is_direction(numerics, x, y, z, forward));
            assert(turned == crate::numeric::Unit3 { x: turned.x, y: turned.y, z: turned.z });
        }
        i += 1;
    }
}

/// `after` is `before` but for the first `size` rows of the columns of
/// real numbers in `fields`.
pub open spec fn scalars_changed(
    before: ColumnsView,
    after: ColumnsView,
    fields: Set<ScalarField>,
    size: int,
) -> bool {
    &&& after == (ColumnsView { scalars: after.scalars, ..before })
    &&& after.scalars.len() == before.scalars.len()
    &&& forall|f: int|
        0 <= f < before.scalars.len() ==> (#[trigger] after.scalars[f]).len()
            == before.scalars[f].len()
    &&& forall|f: int|
        0 <= f < before.scalars.len() && !fields.contains(ScalarField::at(f))
            ==> #[trigger] after.scalars[f] == before.scalars[f]
    &&& forall|f: int, i: int|
        0 <= f < before.scalars.len() && size <= i < before.scalars[f].len()
            ==> #[trigger] after.scalars[f][i] == before.scalars[f][i]
}

/// A change to one column is a change within any set of columns that
/// holds it.
pub proof fn lemma_one_scalar_changed(
    before: ColumnsView,
    after: ColumnsView,
    field: ScalarField,
    fields: Set<ScalarField>,
    size: int,
)
    requires
        before.wf(),
        only_scalars_changed(before, after, field, size),
        fields.contains(field),
    ensures
        scalars_changed(before, after, fields, size),
{
    assert forall|f: int| 0 <= f < before.scalars.len() && !fields.contains(
        ScalarField::at(f),
    ) implies #[trigger] after.scalars[f] == before.scalars[f] by {
        assert(ScalarField::at(field.index()) == field);
    }
}

/// Changes within a set of columns, one after the other, are a change
/// within that set.
pub proof fn lemma_scalars_changed_twice(
    a: ColumnsView,
    b: ColumnsView,
    c: ColumnsView,
    fields: Set<ScalarField>,
    size: int,
)
    requires
        scalars_changed(a, b, fields, size),
        scalars_changed(b, c, fields, size),
    ensures
        scalars_changed(a, c, fields, size),
{
    assert forall|f: int, i: int|
        0 <= f < a.scalars.len() && size <= i < a.scalars[f].len() implies #[trigger] c.scalars[f][i]
        == a.scalars[f][i] by {
        assert(b.scalars[f][i] == a.scalars[f][i]);
    }
}

} // verus!
