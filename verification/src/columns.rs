//! The column store of one bucket: a structure of arrays, one row per slot,
//! that allocates a column only where a behavior of the bucket needs it.

use crate::column_set::{ColumnSet, StandardDataColumns};
use crate::fields::{ColorField, QuatField, ScalarField, COLOR_FIELDS, QUAT_FIELDS, SCALAR_FIELDS};
use crate::form::Form;
use crate::lanes::{LaneWidths, MAX_LANES};
use crate::numeric::{Mat4, Quat, Scalar};
use crate::packed::{
    ceil_div, compact, compact_dense_group, compact_group, compact_lists, fit, fit_group, fit_lists,
    fitted, front, kept, lemma_kept_no_longer, lemma_padded_covers, lesser, resize_group,
    PackedColumn,
};
use crate::spawn::{last_scalar, DanmakuSpawnData, StandardSpawnData};
use vstd::prelude::*;

verus! {

/// What a column store holds, column by column.
///
/// A column that no behavior of the bucket needs is empty. A lane-packed
/// column that is allocated has the rows of whole blocks, so it may end in
/// rows that no slot uses; a dense one has as many rows as the store has
/// slots.
#[verifier::ext_equal]
pub struct ColumnsView {
    /// The kinds that the behaviors of the bucket need.
    pub required: Set<StandardDataColumns>,
    /// The lanes per block of the lane-packed columns.
    pub widths: LaneWidths,
    /// The number of slots.
    pub capacity: nat,
    /// The lane-packed columns of real numbers, by [`ScalarField::index`].
    pub scalars: Seq<Seq<Scalar>>,
    /// The lane-packed columns of colors, by [`ColorField::index`].
    pub colors: Seq<Seq<i32>>,
    /// The dense columns of rotations, by [`QuatField::index`].
    pub quats: Seq<Seq<Quat>>,
    pub form: Seq<Form>,
    pub render_properties: Seq<Seq<(&'static str, Scalar)>>,
    pub ticks_existed: Seq<i16>,
    pub end_time: Seq<i16>,
    pub id: Seq<i128>,
    pub dead: Seq<bool>,
    pub next_stage: Seq<Seq<DanmakuSpawnData>>,
    pub next_stage_add_data: Seq<Set<StandardDataColumns>>,
    pub parent: Seq<i128>,
    /// The cached local transforms, each by its 16 entries in column-major
    /// order.
    pub transform_mats: Seq<Seq<Scalar>>,
    pub family_depth: Seq<i16>,
    /// The slots whose projectile has died, in the order of their deaths.
    pub current_dead: Seq<usize>,
    /// The spawns that behaviors have asked for since they were last
    /// collected, each with the slot it would like to take over, if any.
    pub add_spawns: Seq<(DanmakuSpawnData, Option<usize>)>,
}

/// The parent of a slot whose projectile has none.
pub const NO_PARENT: i128 = -1;

impl ColumnsView {
    /// The number of rows of a lane-packed column of `width` lanes per
    /// block that holds every slot.
    pub open spec fn packed_rows(self, width: usize) -> nat {
        ceil_div(self.capacity, width as nat) * (width as nat)
    }

    /// The number of rows of a column that `kind` allocates: `rows` where
    /// the kind is needed, none where it is not.
    pub open spec fn rows_if(self, kind: StandardDataColumns, rows: nat) -> nat {
        if self.required.contains(kind) {
            rows
        } else {
            0
        }
    }

    /// Every column has the length that its kind and the capacity give it,
    /// and the list of dead slots names exactly the slots flagged dead.
    pub open spec fn wf(self) -> bool {
        &&& self.widths.wf()
        &&& self.capacity <= usize::MAX
        &&& self.scalars.len() == SCALAR_FIELDS
        &&& forall|f: int|
            0 <= f < SCALAR_FIELDS ==> (#[trigger] self.scalars[f]).len() == self.rows_if(
                ScalarField::at(f).kind(),
                self.packed_rows(self.widths.scalar),
            )
        &&& self.colors.len() == COLOR_FIELDS
        &&& forall|f: int|
            0 <= f < COLOR_FIELDS ==> (#[trigger] self.colors[f]).len() == self.rows_if(
                ColorField::at(f).kind(),
                self.packed_rows(self.widths.color),
            )
        &&& self.quats.len() == QUAT_FIELDS
        &&& forall|f: int|
            0 <= f < QUAT_FIELDS ==> (#[trigger] self.quats[f]).len() == self.rows_if(
                QuatField::at(f).kind(),
                self.capacity,
            )
        &&& self.form.len() == self.rows_if(StandardDataColumns::Appearance, self.capacity)
        &&& self.render_properties.len() == self.rows_if(
            StandardDataColumns::Appearance,
            self.capacity,
        )
        &&& self.ticks_existed.len() == self.packed_rows(self.widths.ticks)
        &&& self.end_time.len() == self.packed_rows(self.widths.ticks)
        &&& self.id.len() == self.capacity
        &&& self.dead.len() == self.capacity
        &&& self.next_stage.len() == self.capacity
        &&& self.next_stage_add_data.len() == self.capacity
        &&& self.parent.len() == self.capacity
        &&& self.transform_mats.len() == self.capacity
        &&& self.family_depth.len() == self.capacity
        &&& self.current_dead.no_duplicates()
        &&& forall|i: int|
            0 <= i < self.capacity ==> (#[trigger] self.dead[i] <==> self.current_dead.contains(
                i as usize,
            ))
        &&& forall|k: int|
            0 <= k < self.current_dead.len() ==> (#[trigger] self.current_dead[k]) < self.capacity
    }

    /// The column of real numbers `field`.
    pub open spec fn scalar(self, field: ScalarField) -> Seq<Scalar> {
        self.scalars[field.index()]
    }

    /// The column of colors `field`.
    pub open spec fn color(self, field: ColorField) -> Seq<i32> {
        self.colors[field.index()]
    }

    /// The column of rotations `field`.
    pub open spec fn quat(self, field: QuatField) -> Seq<Quat> {
        self.quats[field.index()]
    }

    /// The store of `capacity` slots for the kinds `required`, before any
    /// projectile has been written to it: every row of every allocated
    /// column holds the value that its column fills with.
    pub open spec fn fresh(
        required: Set<StandardDataColumns>,
        capacity: nat,
        widths: LaneWidths,
    ) -> ColumnsView {
        let shape = ColumnsView {
            required,
            widths,
            capacity,
            scalars: Seq::empty(),
            colors: Seq::empty(),
            quats: Seq::empty(),
            form: Seq::empty(),
            render_properties: Seq::empty(),
            ticks_existed: Seq::empty(),
            end_time: Seq::empty(),
            id: Seq::empty(),
            dead: Seq::empty(),
            next_stage: Seq::empty(),
            next_stage_add_data: Seq::empty(),
            parent: Seq::empty(),
            transform_mats: Seq::empty(),
            family_depth: Seq::empty(),
            current_dead: Seq::empty(),
            add_spawns: Seq::empty(),
        };
        shape.resized(capacity)
    }

    /// This store grown or shrunk to `capacity` slots: slots that stay keep
    /// their value, every other row holds the value that its column fills
    /// with, and the dead slots that are cut away are forgotten. A
    /// lane-packed column holds whole blocks, so it may have rows behind its
    /// last slot; what those held is dropped before the column is filled.
    pub open spec fn resized(self, capacity: nat) -> ColumnsView {
        let to = ColumnsView { capacity, ..self };
        let stay = lesser(self.capacity, capacity);
        ColumnsView {
            required: self.required,
            widths: self.widths,
            capacity,
            scalars: Seq::new(
                SCALAR_FIELDS as nat,
                |f: int|
                    refitted(
                        self.scalars,
                        f,
                        stay,
                        to.rows_if(
                            ScalarField::at(f).kind(),
                            to.packed_rows(self.widths.scalar),
                        ),
                        ScalarField::at(f).fill(),
                    ),
            ),
            colors: Seq::new(
                COLOR_FIELDS as nat,
                |f: int|
                    refitted(
                        self.colors,
                        f,
                        stay,
                        to.rows_if(ColorField::at(f).kind(), to.packed_rows(self.widths.color)),
                        0i32,
                    ),
            ),
            quats: Seq::new(
                QUAT_FIELDS as nat,
                |f: int|
                    fitted_or_empty(
                        self.quats,
                        f,
                        to.rows_if(QuatField::at(f).kind(), capacity),
                        Quat::spec_identity(),
                    ),
            ),
            form: fitted(
                self.form,
                to.rows_if(StandardDataColumns::Appearance, capacity),
                Form { id: "sphere" },
            ),
            render_properties: fitted(
                self.render_properties,
                to.rows_if(StandardDataColumns::Appearance, capacity),
                Seq::empty(),
            ),
            ticks_existed: fitted(
                front(self.ticks_existed, stay),
                to.packed_rows(self.widths.ticks),
                0i16,
            ),
            end_time: fitted(
                front(self.end_time, stay),
                to.packed_rows(self.widths.ticks),
                0i16,
            ),
            id: fitted(self.id, capacity, 0i128),
            dead: fitted(self.dead, capacity, false),
            next_stage: fitted(self.next_stage, capacity, Seq::empty()),
            next_stage_add_data: fitted(self.next_stage_add_data, capacity, Set::empty()),
            parent: fitted(self.parent, capacity, NO_PARENT),
            transform_mats: fitted(
                self.transform_mats,
                capacity,
                Mat4::identity_entries(),
            ),
            family_depth: fitted(self.family_depth, capacity, 0i16),
            current_dead: self.current_dead.filter(below(capacity)),
            add_spawns: self.add_spawns,
        }
    }

    /// Whether row `r` is as a new slot is: each column that has a row `r`
    /// holds there the value that it fills with, and the slot is not dead.
    pub open spec fn holds_fills(self, r: int) -> bool {
        &&& forall|f: int|
            0 <= f < self.scalars.len() && r < self.scalars[f].len() ==> (
            #[trigger] self.scalars[f])[r] == ScalarField::at(f).fill()
        &&& forall|f: int|
            0 <= f < self.colors.len() && r < self.colors[f].len() ==> (
            #[trigger] self.colors[f])[r] == 0i32
        &&& forall|f: int|
            0 <= f < self.quats.len() && r < self.quats[f].len() ==> (#[trigger] self.quats[f])[r]
                == Quat::spec_identity()
        &&& r < self.form.len() ==> self.form[r] == (Form { id: "sphere" })
        &&& r < self.render_properties.len() ==> self.render_properties[r] == Seq::<
            (&'static str, Scalar),
        >::empty()
        &&& r < self.ticks_existed.len() ==> self.ticks_existed[r] == 0i16
        &&& r < self.end_time.len() ==> self.end_time[r] == 0i16
        &&& r < self.id.len() ==> self.id[r] == 0i128
        &&& r < self.dead.len() ==> !self.dead[r]
        &&& r < self.next_stage.len() ==> self.next_stage[r] == Seq::<DanmakuSpawnData>::empty()
        &&& r < self.next_stage_add_data.len() ==> self.next_stage_add_data[r] == Set::<
            StandardDataColumns,
        >::empty()
        &&& r < self.parent.len() ==> self.parent[r] == NO_PARENT
        &&& r < self.transform_mats.len() ==> self.transform_mats[r] == Mat4::identity_entries()
        &&& r < self.family_depth.len() ==> self.family_depth[r] == 0i16
    }

    /// Whether the next stages that the slots hold and the spawns that
    /// are asked for, with their next stages and nested children, name no
    /// behavior but those that `registered` spells.
    pub open spec fn asks_only(self, registered: Set<Seq<char>>) -> bool {
        &&& forall|i: int, j: int|
            0 <= i < self.next_stage.len() && 0 <= j < self.next_stage[i].len() ==> (
            #[trigger] self.next_stage[i][j]).all_known(registered)
        &&& forall|k: int|
            0 <= k < self.add_spawns.len() ==> (#[trigger] self.add_spawns[k]).0.all_known(
                registered,
            )
    }

    /// No slot from `size` on is dead.
    pub open spec fn quiet_from(self, size: int) -> bool {
        forall|i: int| size <= i < self.capacity ==> !(#[trigger] self.dead[i])
    }

    /// This store has the capacity, the kinds and the lane widths of
    /// `other`.
    pub open spec fn shaped_like(self, other: ColumnsView) -> bool {
        &&& self.capacity == other.capacity
        &&& self.required == other.required
        &&& self.widths == other.widths
    }

    /// This store after slot `i` has taken one initial attribute. The
    /// attribute is written where its column is allocated and dropped
    /// where it is not; an appearance brings `properties` with it.
    pub open spec fn with_attribute(
        self,
        i: int,
        attribute: StandardSpawnData,
        properties: Seq<(&'static str, Scalar)>,
    ) -> ColumnsView {
        ColumnsView {
            scalars: Seq::new(
                self.scalars.len(),
                |f: int|
                    match attribute.scalar_for(ScalarField::at(f)) {
                        Some(v) => if self.required.contains(ScalarField::at(f).kind()) {
                            self.scalars[f].update(i, v)
                        } else {
                            self.scalars[f]
                        },
                        None => self.scalars[f],
                    },
            ),
            colors: Seq::new(
                self.colors.len(),
                |f: int|
                    match attribute.color_for(ColorField::at(f)) {
                        Some(v) => if self.required.contains(ColorField::at(f).kind()) {
                            self.colors[f].update(i, v)
                        } else {
                            self.colors[f]
                        },
                        None => self.colors[f],
                    },
            ),
            quats: Seq::new(
                self.quats.len(),
                |f: int|
                    match attribute.quat_for(QuatField::at(f)) {
                        Some(v) => if self.required.contains(QuatField::at(f).kind()) {
                            self.quats[f].update(i, v)
                        } else {
                            self.quats[f]
                        },
                        None => self.quats[f],
                    },
            ),
            form: match attribute.form_of() {
                Some(form) => if self.required.contains(StandardDataColumns::Appearance) {
                    self.form.update(i, form)
                } else {
                    self.form
                },
                None => self.form,
            },
            render_properties: match attribute.form_of() {
                Some(form) => if self.required.contains(StandardDataColumns::Appearance) {
                    self.render_properties.update(i, properties)
                } else {
                    self.render_properties
                },
                None => self.render_properties,
            },
            ..self
        }
    }

    /// This store after slot `i` has taken a list of initial attributes,
    /// one after the other.
    pub open spec fn with_attributes(
        self,
        i: int,
        attributes: Seq<StandardSpawnData>,
        properties: Seq<(&'static str, Scalar)>,
    ) -> ColumnsView
        decreases attributes.len(),
    {
        if attributes.len() == 0 {
            self
        } else {
            self.with_attributes(i, attributes.drop_last(), properties).with_attribute(
                i,
                attributes.last(),
                properties,
            )
        }
    }

    /// This store after the projectile that `danmaku` describes has been
    /// written to slot `i` under the identifier `id`: the slot takes the
    /// initial attributes whose columns are allocated, starts at tick 0,
    /// is not dead, and has the identity as its cached transform. Every
    /// other slot is as it was.
    pub open spec fn with_danmaku(self, i: int, danmaku: DanmakuSpawnData, id: i128) -> ColumnsView {
        let written = self.with_attributes(i, danmaku.behavior_data@, danmaku.render_properties@);
        ColumnsView {
            ticks_existed: self.ticks_existed.update(i, 0i16),
            end_time: self.end_time.update(i, danmaku.end_time),
            id: self.id.update(i, id),
            dead: self.dead.update(i, false),
            next_stage: self.next_stage.update(i, danmaku.next_stage@),
            next_stage_add_data: self.next_stage_add_data.update(i, danmaku.next_stage_add_data@),
            parent: self.parent.update(
                i,
                match danmaku.parent {
                    Some(parent) => parent,
                    None => NO_PARENT,
                },
            ),
            transform_mats: self.transform_mats.update(i, Mat4::identity_entries()),
            family_depth: self.family_depth.update(i, danmaku.family_depth),
            current_dead: self.current_dead.filter(other_than(i)),
            ..written
        }
    }

    /// This store without the rows of its dead slots: every column keeps
    /// the rows of the other slots, in their order, and no slot is dead.
    /// The rows that a lane-packed column has behind its last slot are
    /// dropped.
    pub open spec fn squeezed(self) -> ColumnsView {
        ColumnsView {
            required: self.required,
            widths: self.widths,
            capacity: self.capacity,
            scalars: Seq::new(
                self.scalars.len(),
                |f: int| kept(front(self.scalars[f], self.capacity), self.dead),
            ),
            colors: Seq::new(
                self.colors.len(),
                |f: int| kept(front(self.colors[f], self.capacity), self.dead),
            ),
            quats: Seq::new(self.quats.len(), |f: int| kept(self.quats[f], self.dead)),
            form: kept(self.form, self.dead),
            render_properties: kept(self.render_properties, self.dead),
            ticks_existed: kept(front(self.ticks_existed, self.capacity), self.dead),
            end_time: kept(front(self.end_time, self.capacity), self.dead),
            id: kept(self.id, self.dead),
            dead: Seq::empty(),
            next_stage: kept(self.next_stage, self.dead),
            next_stage_add_data: kept(self.next_stage_add_data, self.dead),
            parent: kept(self.parent, self.dead),
            transform_mats: kept(self.transform_mats, self.dead),
            family_depth: kept(self.family_depth, self.dead),
            current_dead: Seq::empty(),
            add_spawns: self.add_spawns,
        }
    }

    /// This store compacted into `capacity` slots: the rows of the dead
    /// slots are removed, the others move down in their order, and the
    /// columns are cut down or filled up to the new capacity.
    pub open spec fn compacted(self, capacity: nat) -> ColumnsView {
        self.squeezed().resized(capacity)
    }
}

/// Column `f` of `columns` cut down or filled up to `len` rows; a column
/// that `columns` lacks counts as empty.
pub open spec fn fitted_or_empty<T>(columns: Seq<Seq<T>>, f: int, len: nat, fill: T) -> Seq<T> {
    fitted(
        if 0 <= f < columns.len() {
            columns[f]
        } else {
            Seq::empty()
        },
        len,
        fill,
    )
}

/// The first `keep` rows of column `f` of `columns`, cut down or filled up
/// to `len` rows; a column that `columns` lacks counts as empty.
pub open spec fn refitted<T>(
    columns: Seq<Seq<T>>,
    f: int,
    keep: nat,
    len: nat,
    fill: T,
) -> Seq<T> {
    fitted(
        front(
            if 0 <= f < columns.len() {
                columns[f]
            } else {
                Seq::empty()
            },
            keep,
        ),
        len,
        fill,
    )
}

/// The slots other than `i`.
pub open spec fn other_than(i: int) -> spec_fn(usize) -> bool {
    |slot: usize| slot != i
}

/// The slots below `capacity`.
pub open spec fn below(capacity: nat) -> spec_fn(usize) -> bool {
    |slot: usize| slot < capacity
}


/// A list with one more element holds what it held, and that element.
pub proof fn lemma_push_contains<T>(s: Seq<T>, last: T, x: T)
    ensures
        s.push(last).contains(x) <==> (s.contains(x) || x == last),
{
    let t = s.push(last);
    if s.contains(x) {
        let k = choose|k: int| 0 <= k < s.len() && s[k] == x;
        assert(t[k] == x);
    }
    if x == last {
        assert(t[s.len() as int] == x);
    }
    if t.contains(x) {
        let k = choose|k: int| 0 <= k < t.len() && t[k] == x;
        if k < s.len() {
            assert(s[k] == x);
        }
    }
}

/// A list without repetition keeps none when slots are filtered out of it,
/// and holds afterwards the slots it held that pass the filter.
pub proof fn lemma_filter_no_duplicates(slots: Seq<usize>, pred: spec_fn(usize) -> bool)
    requires
        slots.no_duplicates(),
    ensures
        slots.filter(pred).no_duplicates(),
        forall|slot: usize|
            slots.filter(pred).contains(slot) <==> (slots.contains(slot) && pred(slot)),
    decreases slots.len(),
{
    reveal(Seq::filter);
    if slots.len() > 0 {
        let front = slots.drop_last();
        let last = slots.last();
        let passed = front.filter(pred);
        lemma_filter_no_duplicates(front, pred);
        assert(slots == front.push(last));
        assert(!front.contains(last)) by {
            if front.contains(last) {
                let k = choose|k: int| 0 <= k < front.len() && front[k] == last;
                assert(slots[k] == slots[slots.len() - 1]);
            }
        }
        assert forall|slot: usize|
            slots.filter(pred).contains(slot) <==> (slots.contains(slot) && pred(slot)) by {
            lemma_push_contains(front, last, slot);
            lemma_push_contains(passed, last, slot);
        }
    }
}

/// A lane-packed column for no slot has no row.
pub proof fn lemma_no_slots_no_rows(width: nat)
    requires
        width >= 1,
    ensures
        ceil_div(0, width) * width == 0,
{
    let blocks = ceil_div(0, width);
    assert(blocks == 0 && blocks * width == 0) by (nonlinear_arith)
        requires
            width >= 1,
            blocks == (width - 1) / (width as int),
    ;
}

/// Removing rows commutes with reading each row through `view`.
pub proof fn lemma_kept_map<A, B>(rows: Seq<A>, dead: Seq<bool>, view: spec_fn(A) -> B)
    ensures
        kept(rows.map_values(view), dead) == kept(rows, dead).map_values(view),
    decreases rows.len(),
{
    if rows.len() > 0 {
        lemma_kept_map(rows.drop_last(), dead, view);
        assert(rows.map_values(view).drop_last() == rows.drop_last().map_values(view));
    }
    assert(kept(rows.map_values(view), dead) =~= kept(rows, dead).map_values(view));
}

/// A well-formed store is well-formed after compaction, and none of its
/// slots is dead.
pub proof fn lemma_compacted_wf(v: ColumnsView, capacity: nat)
    requires
        v.wf(),
        capacity <= usize::MAX,
    ensures
        v.compacted(capacity).wf(),
        v.compacted(capacity).current_dead.len() == 0,
        forall|i: int| 0 <= i < capacity ==> !(#[trigger] v.compacted(capacity).dead[i]),
{
    reveal(Seq::filter);
    let r = v.compacted(capacity);
    assert(r.current_dead =~= Seq::empty());
}

/// After compaction the slots hold, from slot 0 and in their order, the
/// projectiles that were not dead: slot `k` holds what slot `from` held,
/// where `from` is the slot of the `k`-th of them.
pub proof fn lemma_compacted_keeps_order(v: ColumnsView, capacity: nat, k: int) -> (from: int)
    requires
        v.wf(),
        0 <= k < capacity,
        k < kept(v.id, v.dead).len(),
    ensures
        0 <= from < v.capacity,
        !v.dead[from],
        kept(v.id.take(from), v.dead).len() == k,
        v.compacted(capacity).id[k] == v.id[from],
        v.compacted(capacity).parent[k] == v.parent[from],
        v.compacted(capacity).family_depth[k] == v.family_depth[from],
        v.compacted(capacity).next_stage[k] == v.next_stage[from],
{
    let from = crate::packed::lemma_kept_rows_were_live(v.id, v.dead, k);
    lemma_kept_aligned(v.id, v.parent, v.dead, from);
    lemma_kept_aligned(v.id, v.family_depth, v.dead, from);
    lemma_kept_aligned(v.id, v.next_stage, v.dead, from);
    from
}

/// Two columns of one length stay aligned under compaction: the row that
/// a kept row of the one moves to is the row that the row beside it in
/// the other moves to.
pub proof fn lemma_kept_aligned<A, B>(a: Seq<A>, b: Seq<B>, dead: Seq<bool>, from: int)
    requires
        a.len() == b.len(),
        0 <= from < a.len(),
        !(from < dead.len() && dead[from]),
    ensures
        kept(a.take(from), dead).len() == kept(b.take(from), dead).len(),
        kept(b.take(from), dead).len() < kept(b, dead).len(),
        kept(b, dead)[kept(b.take(from), dead).len() as int] == b[from],
        kept(a, dead)[kept(a.take(from), dead).len() as int] == a[from],
{
    lemma_kept_same_len(a.take(from), b.take(from), dead);
    lemma_kept_at(a, dead, from);
    lemma_kept_at(b, dead, from);
}

/// Columns of one length keep as many rows.
pub proof fn lemma_kept_same_len<A, B>(a: Seq<A>, b: Seq<B>, dead: Seq<bool>)
    requires
        a.len() == b.len(),
    ensures
        kept(a, dead).len() == kept(b, dead).len(),
    decreases a.len(),
{
    if a.len() > 0 {
        lemma_kept_same_len(a.drop_last(), b.drop_last(), dead);
    }
}

/// A row that is not flagged is kept, behind the kept rows that came
/// before it.
pub proof fn lemma_kept_at<A>(rows: Seq<A>, dead: Seq<bool>, from: int)
    requires
        0 <= from < rows.len(),
        !(from < dead.len() && dead[from]),
    ensures
        kept(rows.take(from), dead).len() < kept(rows, dead).len(),
        kept(rows, dead)[kept(rows.take(from), dead).len() as int] == rows[from],
    decreases rows.len(),
{
    let last = rows.len() - 1;
    assert(rows.take(last) == rows.drop_last());
    if from < last {
        lemma_kept_at(rows.drop_last(), dead, from);
        assert(rows.drop_last().take(from) == rows.take(from));
    }
}

/// A fresh store is well-formed, and none of its slots is dead.
pub proof fn lemma_fresh_wf(required: Set<StandardDataColumns>, capacity: nat, widths: LaneWidths)
    requires
        widths.wf(),
        capacity <= usize::MAX,
    ensures
        ColumnsView::fresh(required, capacity, widths).wf(),
        ColumnsView::fresh(required, capacity, widths).quiet_from(0),
        ColumnsView::fresh(required, capacity, widths).required == required,
        ColumnsView::fresh(required, capacity, widths).capacity == capacity,
        ColumnsView::fresh(required, capacity, widths).widths == widths,
        ColumnsView::fresh(required, capacity, widths).current_dead.len() == 0,
        ColumnsView::fresh(required, capacity, widths).add_spawns.len() == 0,
{
    reveal(Seq::filter);
    let v = ColumnsView::fresh(required, capacity, widths);
    assert(v.current_dead =~= Seq::empty());
}

/// A well-formed store stays well-formed when it is resized.
pub proof fn lemma_resized_wf(v: ColumnsView, capacity: nat)
    requires
        v.wf(),
        capacity <= usize::MAX,
    ensures
        v.resized(capacity).wf(),
{
    let r = v.resized(capacity);
    lemma_filter_no_duplicates(v.current_dead, below(capacity));
    assert forall|i: int| 0 <= i < r.capacity implies (#[trigger] r.dead[i]
        <==> r.current_dead.contains(i as usize)) by {
        if i < v.capacity {
            assert(v.dead[i] <==> v.current_dead.contains(i as usize));
        } else {
            if v.current_dead.contains(i as usize) {
                let k = choose|k: int| 0 <= k < v.current_dead.len() && v.current_dead[k] == i;
                assert(v.current_dead[k] < v.capacity);
            }
        }
    }
    assert forall|k: int| 0 <= k < r.current_dead.len() implies (#[trigger] r.current_dead[k])
        < r.capacity by {
        assert(r.current_dead.contains(r.current_dead[k]));
    }
}

/// Resizing hands out new slots as new: every row at or beyond the old
/// capacity, a slot that the growth adds or a row that pads the last block
/// of a lane-packed column, holds what its column fills with, whatever was
/// written to the store before.
pub proof fn lemma_resized_new_slots(v: ColumnsView, capacity: nat, r: int)
    requires
        v.wf(),
        v.capacity <= r,
    ensures
        v.resized(capacity).holds_fills(r),
{
}

/// Compaction leaves the slots behind the kept projectiles as new: every
/// row at or beyond the number of slots that were not dead holds what its
/// column fills with.
pub proof fn lemma_compacted_free_slots(v: ColumnsView, capacity: nat, r: int)
    requires
        v.wf(),
        kept(v.id, v.dead).len() <= r,
    ensures
        v.compacted(capacity).holds_fills(r),
{
    let slots = v.capacity;
    let c = v.compacted(capacity);
    assert forall|f: int| 0 <= f < c.scalars.len() && r < c.scalars[f].len() implies (
    #[trigger] c.scalars[f])[r] == ScalarField::at(f).fill() by {
        lemma_padded_covers(slots, v.widths.scalar as nat);
        if v.scalars[f].len() > 0 {
            lemma_kept_same_len(front(v.scalars[f], slots), v.id, v.dead);
        }
    }
    assert forall|f: int| 0 <= f < c.colors.len() && r < c.colors[f].len() implies (
    #[trigger] c.colors[f])[r] == 0i32 by {
        lemma_padded_covers(slots, v.widths.color as nat);
        if v.colors[f].len() > 0 {
            lemma_kept_same_len(front(v.colors[f], slots), v.id, v.dead);
        }
    }
    assert forall|f: int| 0 <= f < c.quats.len() && r < c.quats[f].len() implies (
    #[trigger] c.quats[f])[r] == Quat::spec_identity() by {
        if v.quats[f].len() > 0 {
            lemma_kept_same_len(v.quats[f], v.id, v.dead);
        }
    }
    if v.required.contains(StandardDataColumns::Appearance) {
        lemma_kept_same_len(v.form, v.id, v.dead);
        lemma_kept_same_len(v.render_properties, v.id, v.dead);
    }
    lemma_padded_covers(slots, v.widths.ticks as nat);
    lemma_kept_same_len(front(v.ticks_existed, slots), v.id, v.dead);
    lemma_kept_same_len(front(v.end_time, slots), v.id, v.dead);
    lemma_kept_same_len(v.next_stage, v.id, v.dead);
    lemma_kept_same_len(v.next_stage_add_data, v.id, v.dead);
    lemma_kept_same_len(v.parent, v.id, v.dead);
    lemma_kept_same_len(v.transform_mats, v.id, v.dead);
    lemma_kept_same_len(v.family_depth, v.id, v.dead);
}

/// The column store of one bucket.
pub struct StandardColumns {
    required_columns: ColumnSet,
    widths: LaneWidths,
    capacity: usize,
    scalars: Vec<PackedColumn<Scalar>>,
    colors: Vec<PackedColumn<i32>>,
    quats: Vec<Vec<Quat>>,
    form: Vec<Form>,
    render_properties: Vec<Vec<(&'static str, Scalar)>>,
    ticks_existed: PackedColumn<i16>,
    end_time: PackedColumn<i16>,
    id: Vec<i128>,
    dead: Vec<bool>,
    next_stage: Vec<Vec<DanmakuSpawnData>>,
    next_stage_add_data: Vec<ColumnSet>,
    parent: Vec<i128>,
    transform_mats: Vec<Mat4>,
    family_depth: Vec<i16>,
    current_dead: Vec<usize>,
    add_spawns: Vec<(DanmakuSpawnData, Option<usize>)>,
}

/// The column store, by its short name.
pub type Columns = StandardColumns;

impl View for StandardColumns {
    type V = ColumnsView;

    closed spec fn view(&self) -> ColumnsView {
        ColumnsView {
            required: self.required_columns@,
            widths: self.widths,
            capacity: self.capacity as nat,
            scalars: Seq::new(self.scalars@.len(), |f: int| self.scalars@[f]@),
            colors: Seq::new(self.colors@.len(), |f: int| self.colors@[f]@),
            quats: Seq::new(self.quats@.len(), |f: int| self.quats@[f]@),
            form: self.form@,
            render_properties: Seq::new(
                self.render_properties@.len(),
                |i: int| self.render_properties@[i]@,
            ),
            ticks_existed: self.ticks_existed@,
            end_time: self.end_time@,
            id: self.id@,
            dead: self.dead@,
            next_stage: Seq::new(self.next_stage@.len(), |i: int| self.next_stage@[i]@),
            next_stage_add_data: Seq::new(
                self.next_stage_add_data@.len(),
                |i: int| self.next_stage_add_data@[i]@,
            ),
            parent: self.parent@,
            transform_mats: Seq::new(
                self.transform_mats@.len(),
                |i: int| self.transform_mats@[i].m@,
            ),
            family_depth: self.family_depth@,
            current_dead: self.current_dead@,
            add_spawns: self.add_spawns@,
        }
    }
}

impl StandardColumns {
    /// The store holds what its view says, in columns of the widths it was
    /// made with.
    pub open spec fn wf(&self) -> bool {
        self@.wf() && self.layout_wf()
    }

    /// Every lane-packed column holds whole blocks of its width, and the
    /// capacity leaves room for one more block.
    pub closed spec fn layout_wf(&self) -> bool {
        &&& self.capacity + MAX_LANES <= usize::MAX
        &&& forall|f: int|
            0 <= f < self.scalars@.len() ==> (#[trigger] self.scalars@[f]).wf()
                && self.scalars@[f].width() == self.widths.scalar
        &&& forall|f: int|
            0 <= f < self.colors@.len() ==> (#[trigger] self.colors@[f]).wf()
                && self.colors@[f].width() == self.widths.color
        &&& self.ticks_existed.wf()
        &&& self.ticks_existed.width() == self.widths.ticks
        &&& self.end_time.wf()
        &&& self.end_time.width() == self.widths.ticks
    }

    /// For each column of real numbers, whether it is allocated.
    fn scalar_allocation(&self) -> (flags: Vec<bool>)
        ensures
            flags@.len() == SCALAR_FIELDS,
            forall|f: int|
                0 <= f < SCALAR_FIELDS ==> #[trigger] flags@[f] == self@.required.contains(
                    ScalarField::at(f).kind(),
                ),
    {
        let mut flags: Vec<bool> = Vec::new();
        let mut f: usize = 0;
        while f < SCALAR_FIELDS
            invariant
                f <= SCALAR_FIELDS,
                flags@.len() == f,
                forall|g: int|
                    0 <= g < f ==> #[trigger] flags@[g] == self@.required.contains(
                        ScalarField::at(g).kind(),
                    ),
            decreases SCALAR_FIELDS - f,
        {
            flags.push(self.required_columns.contains(ScalarField::from_ordinal(f).owner()));
            f += 1;
        }
        flags
    }

    /// For each column of real numbers, the value that fills it.
    fn scalar_fills() -> (fills: Vec<Scalar>)
        ensures
            fills@.len() == SCALAR_FIELDS,
            forall|f: int| 0 <= f < SCALAR_FIELDS ==> #[trigger] fills@[f] == ScalarField::at(f).fill(),
    {
        let mut fills: Vec<Scalar> = Vec::new();
        let mut f: usize = 0;
        while f < SCALAR_FIELDS
            invariant
                f <= SCALAR_FIELDS,
                fills@.len() == f,
                forall|g: int| 0 <= g < f ==> #[trigger] fills@[g] == ScalarField::at(g).fill(),
            decreases SCALAR_FIELDS - f,
        {
            fills.push(ScalarField::from_ordinal(f).default_value());
            f += 1;
        }
        fills
    }

    /// For each column of colors, whether it is allocated.
    fn color_allocation(&self) -> (flags: Vec<bool>)
        ensures
            flags@.len() == COLOR_FIELDS,
            forall|f: int|
                0 <= f < COLOR_FIELDS ==> #[trigger] flags@[f] == self@.required.contains(
                    ColorField::at(f).kind(),
                ),
    {
        let mut flags: Vec<bool> = Vec::new();
        let mut f: usize = 0;
        while f < COLOR_FIELDS
            invariant
                f <= COLOR_FIELDS,
                flags@.len() == f,
                forall|g: int|
                    0 <= g < f ==> #[trigger] flags@[g] == self@.required.contains(
                        ColorField::at(g).kind(),
                    ),
            decreases COLOR_FIELDS - f,
        {
            flags.push(self.required_columns.contains(ColorField::from_ordinal(f).owner()));
            f += 1;
        }
        flags
    }

    /// For each column of rotations, whether it is allocated.
    fn quat_allocation(&self) -> (flags: Vec<bool>)
        ensures
            flags@.len() == QUAT_FIELDS,
            forall|f: int|
                0 <= f < QUAT_FIELDS ==> #[trigger] flags@[f] == self@.required.contains(
                    QuatField::at(f).kind(),
                ),
    {
        let mut flags: Vec<bool> = Vec::new();
        let mut f: usize = 0;
        while f < QUAT_FIELDS
            invariant
                f <= QUAT_FIELDS,
                flags@.len() == f,
                forall|g: int|
                    0 <= g < f ==> #[trigger] flags@[g] == self@.required.contains(
                        QuatField::at(g).kind(),
                    ),
            decreases QUAT_FIELDS - f,
        {
            flags.push(self.required_columns.contains(QuatField::from_ordinal(f).owner()));
            f += 1;
        }
        flags
    }

    /// A store of `max_column_size` slots that allocates the columns of
    /// the kinds in `required`, and those that every store has. Every row
    /// holds the value that its column fills with.
    pub fn new(max_column_size: usize, required: ColumnSet, widths: LaneWidths) -> (columns:
        StandardColumns)
        requires
            widths.wf(),
            max_column_size + MAX_LANES <= usize::MAX,
        ensures
            columns.wf(),
            columns@ == ColumnsView::fresh(required@, max_column_size as nat, widths),
            forall|r: int| 0 <= r ==> #[trigger] columns@.holds_fills(r),
    {
        let mut scalars: Vec<PackedColumn<Scalar>> = Vec::new();
        let mut f: usize = 0;
        while f < SCALAR_FIELDS
            invariant
                f <= SCALAR_FIELDS,
                widths.wf(),
                scalars@.len() == f,
                forall|g: int|
                    0 <= g < f ==> (#[trigger] scalars@[g]).wf() && scalars@[g].width()
                        == widths.scalar && scalars@[g]@.len() == 0,
            decreases SCALAR_FIELDS - f,
        {
            scalars.push(PackedColumn::unallocated(widths.scalar));
            f += 1;
        }
        let mut colors: Vec<PackedColumn<i32>> = Vec::new();
        let mut f: usize = 0;
        while f < COLOR_FIELDS
            invariant
                f <= COLOR_FIELDS,
                widths.wf(),
                colors@.len() == f,
                forall|g: int|
                    0 <= g < f ==> (#[trigger] colors@[g]).wf() && colors@[g].width()
                        == widths.color && colors@[g]@.len() == 0,
            decreases COLOR_FIELDS - f,
        {
            colors.push(PackedColumn::unallocated(widths.color));
            f += 1;
        }
        let mut quats: Vec<Vec<Quat>> = Vec::new();
        let mut f: usize = 0;
        while f < QUAT_FIELDS
            invariant
                f <= QUAT_FIELDS,
                quats@.len() == f,
                forall|g: int| 0 <= g < f ==> (#[trigger] quats@[g])@.len() == 0,
            decreases QUAT_FIELDS - f,
        {
            quats.push(Vec::new());
            f += 1;
        }
        let mut columns = StandardColumns {
            required_columns: required,
            widths,
            capacity: 0,
            scalars,
            colors,
            quats,
            form: Vec::new(),
            render_properties: Vec::new(),
            ticks_existed: PackedColumn::unallocated(widths.ticks),
            end_time: PackedColumn::unallocated(widths.ticks),
            id: Vec::new(),
            dead: Vec::new(),
            next_stage: Vec::new(),
            next_stage_add_data: Vec::new(),
            parent: Vec::new(),
            transform_mats: Vec::new(),
            family_depth: Vec::new(),
            current_dead: Vec::new(),
            add_spawns: Vec::new(),
        };
        proof {
            let v = columns@;
            lemma_no_slots_no_rows(widths.scalar as nat);
            lemma_no_slots_no_rows(widths.color as nat);
            lemma_no_slots_no_rows(widths.ticks as nat);
            assert(v.wf());
            let shape = ColumnsView {
                required: required@,
                widths,
                capacity: 0,
                scalars: Seq::empty(),
                colors: Seq::empty(),
                quats: Seq::empty(),
                form: Seq::empty(),
                render_properties: Seq::empty(),
                ticks_existed: Seq::empty(),
                end_time: Seq::empty(),
                id: Seq::empty(),
                dead: Seq::empty(),
                next_stage: Seq::empty(),
                next_stage_add_data: Seq::empty(),
                parent: Seq::empty(),
                transform_mats: Seq::empty(),
                family_depth: Seq::empty(),
                current_dead: Seq::empty(),
                add_spawns: Seq::empty(),
            };
            let cap = max_column_size as nat;
            assert(v.resized(cap).scalars =~~= shape.resized(cap).scalars);
            assert(v.resized(cap).colors =~~= shape.resized(cap).colors);
            assert(v.resized(cap).quats =~~= shape.resized(cap).quats);
            assert(v.resized(cap) =~~= ColumnsView { capacity: cap, ..shape }.resized(cap));
        }
        columns.resize(max_column_size);
        columns
    }

    /// Grows or shrinks every allocated column to `new_max_size` slots.
    /// Slots that stay keep what they hold; new slots hold the value that
    /// their column fills with, also where the store was larger before and
    /// the slot held something then.
    pub fn resize(&mut self, new_max_size: usize)
        requires
            old(self).wf(),
            new_max_size + MAX_LANES <= usize::MAX,
        ensures
            final(self).wf(),
            final(self)@ == old(self)@.resized(new_max_size as nat),
            forall|r: int|
                old(self)@.capacity <= r ==> #[trigger] final(self)@.holds_fills(r),
    {
        proof {
            lemma_resized_wf(self@, new_max_size as nat);
            assert forall|r: int| self@.capacity <= r implies #[trigger] self@.resized(
                new_max_size as nat,
            ).holds_fills(r) by {
                lemma_resized_new_slots(self@, new_max_size as nat, r);
            }
        }
        let ghost before = self@;
        let flags = self.scalar_allocation();
        let fills = Self::scalar_fills();
        resize_group(&mut self.scalars, &flags, &fills, self.capacity, new_max_size);
        let flags = self.color_allocation();
        let mut fills: Vec<i32> = Vec::new();
        fit(&mut fills, COLOR_FIELDS, 0i32);
        resize_group(&mut self.colors, &flags, &fills, self.capacity, new_max_size);
        let flags = self.quat_allocation();
        fit_group(&mut self.quats, &flags, Quat::identity(), new_max_size);
        if self.required_columns.contains(StandardDataColumns::Appearance) {
            fit(&mut self.form, new_max_size, Form::sphere());
            fit_lists(&mut self.render_properties, new_max_size);
        }
        self.ticks_existed.resize(self.capacity, new_max_size, 0i16);
        self.end_time.resize(self.capacity, new_max_size, 0i16);
        fit(&mut self.id, new_max_size, 0i128);
        fit(&mut self.dead, new_max_size, false);
        fit_lists(&mut self.next_stage, new_max_size);
        fit(&mut self.next_stage_add_data, new_max_size, ColumnSet::empty());
        fit(&mut self.parent, new_max_size, NO_PARENT);
        fit(&mut self.transform_mats, new_max_size, Mat4::identity());
        fit(&mut self.family_depth, new_max_size, 0i16);
        forget_beyond(&mut self.current_dead, new_max_size);
        self.capacity = new_max_size;
        proof {
            let after = before.resized(new_max_size as nat);
            assert(self@ =~~= after);
        }
    }

    /// The kinds whose columns are allocated.
    pub fn required_columns(&self) -> (required: ColumnSet)
        ensures
            required@ == self@.required,
    {
        self.required_columns
    }

    /// The number of slots.
    pub fn capacity(&self) -> (capacity: usize)
        ensures
            capacity == self@.capacity,
    {
        self.capacity
    }

    /// The lanes per block of the lane-packed columns.
    pub fn widths(&self) -> (widths: LaneWidths)
        ensures
            widths == self@.widths,
    {
        self.widths
    }

    /// The number of blocks of the column of real numbers `field`: as many
    /// as hold every slot where the column is allocated, and none where it
    /// is not.
    pub fn scalar_blocks(&self, field: ScalarField) -> (blocks: usize)
        requires
            self.wf(),
        ensures
            blocks == if self@.required.contains(field.kind()) {
                ceil_div(self@.capacity, self@.widths.scalar as nat)
            } else {
                0
            },
    {
        let f = field.ordinal();
        proof {
            crate::packed::lemma_blocks_of_padded(self@.capacity, self@.widths.scalar as nat);
            assert(self@.scalars[f as int] == self.scalars@[f as int]@);
            if !self@.required.contains(field.kind()) {
                assert(0nat / (self.widths.scalar as nat) == 0) by (nonlinear_arith)
                    requires
                        self.widths.scalar >= 1,
                ;
            }
        }
        self.scalars[f].len()
    }

    /// The number of blocks of the column of colors `field`.
    pub fn color_blocks(&self, field: ColorField) -> (blocks: usize)
        requires
            self.wf(),
        ensures
            blocks == if self@.required.contains(field.kind()) {
                ceil_div(self@.capacity, self@.widths.color as nat)
            } else {
                0
            },
    {
        let f = field.ordinal();
        proof {
            crate::packed::lemma_blocks_of_padded(self@.capacity, self@.widths.color as nat);
            assert(self@.colors[f as int] == self.colors@[f as int]@);
            if !self@.required.contains(field.kind()) {
                assert(0nat / (self.widths.color as nat) == 0) by (nonlinear_arith)
                    requires
                        self.widths.color >= 1,
                ;
            }
        }
        self.colors[f].len()
    }

    /// The number of blocks of the columns of tick counts.
    pub fn tick_blocks(&self) -> (blocks: usize)
        requires
            self.wf(),
        ensures
            blocks == ceil_div(self@.capacity, self@.widths.ticks as nat),
    {
        proof {
            crate::packed::lemma_blocks_of_padded(self@.capacity, self@.widths.ticks as nat);
        }
        self.ticks_existed.len()
    }

    /// The real number that slot `i` holds in `field`.
    pub fn scalar(&self, field: ScalarField, i: usize) -> (v: Scalar)
        requires
            self.wf(),
            self@.required.contains(field.kind()),
            i < self@.capacity,
        ensures
            v == self@.scalar(field)[i as int],
    {
        let f = field.ordinal();
        proof {
            lemma_padded_covers(self@.capacity, self@.widths.scalar as nat);
            assert(self@.scalars[f as int] == self.scalars@[f as int]@);
        }
        self.scalars[f].get(i)
    }

    /// Gives slot `i` the real number `v` in `field`.
    pub fn set_scalar(&mut self, field: ScalarField, i: usize, v: Scalar)
        requires
            old(self).wf(),
            old(self)@.required.contains(field.kind()),
            i < old(self)@.capacity,
        ensures
            final(self).wf(),
            final(self)@ == (ColumnsView {
                scalars: old(self)@.scalars.update(
                    field.index(),
                    old(self)@.scalar(field).update(i as int, v),
                ),
                ..old(self)@
            }),
    {
        let f = field.ordinal();
        let ghost before = self@;
        proof {
            lemma_padded_covers(self@.capacity, self@.widths.scalar as nat);
            assert(self@.scalars[f as int] == self.scalars@[f as int]@);
        }
        let column = &mut self.scalars[f];
        column.set(i, v);
        proof {
            let after = ColumnsView {
                scalars: before.scalars.update(
                    field.index(),
                    before.scalar(field).update(i as int, v),
                ),
                ..before
            };
            assert(self@ =~~= after);
        }
    }

    /// The color that slot `i` holds in `field`.
    pub fn color(&self, field: ColorField, i: usize) -> (v: i32)
        requires
            self.wf(),
            self@.required.contains(field.kind()),
            i < self@.capacity,
        ensures
            v == self@.color(field)[i as int],
    {
        let f = field.ordinal();
        proof {
            lemma_padded_covers(self@.capacity, self@.widths.color as nat);
            assert(self@.colors[f as int] == self.colors@[f as int]@);
        }
        self.colors[f].get(i)
    }

    /// Gives slot `i` the color `v` in `field`.
    pub fn set_color(&mut self, field: ColorField, i: usize, v: i32)
        requires
            old(self).wf(),
            old(self)@.required.contains(field.kind()),
            i < old(self)@.capacity,
        ensures
            final(self).wf(),
            final(self)@ == (ColumnsView {
                colors: old(self)@.colors.update(
                    field.index(),
                    old(self)@.color(field).update(i as int, v),
                ),
                ..old(self)@
            }),
    {
        let f = field.ordinal();
        let ghost before = self@;
        proof {
            lemma_padded_covers(self@.capacity, self@.widths.color as nat);
            assert(self@.colors[f as int] == self.colors@[f as int]@);
        }
        let column = &mut self.colors[f];
        column.set(i, v);
        proof {
            let after = ColumnsView {
                colors: before.colors.update(field.index(), before.color(field).update(i as int, v)),
                ..before
            };
            assert(self@ =~~= after);
        }
    }

    /// The rotation that slot `i` holds in `field`.
    pub fn quat(&self, field: QuatField, i: usize) -> (v: Quat)
        requires
            self.wf(),
            self@.required.contains(field.kind()),
            i < self@.capacity,
        ensures
            v == self@.quat(field)[i as int],
    {
        let f = field.ordinal();
        proof {
            assert(self@.quats[f as int] == self.quats@[f as int]@);
        }
        self.quats[f][i]
    }

    /// Gives slot `i` the rotation `v` in `field`.
    pub fn set_quat(&mut self, field: QuatField, i: usize, v: Quat)
        requires
            old(self).wf(),
            old(self)@.required.contains(field.kind()),
            i < old(self)@.capacity,
        ensures
            final(self).wf(),
            final(self)@ == (ColumnsView {
                quats: old(self)@.quats.update(
                    field.index(),
                    old(self)@.quat(field).update(i as int, v),
                ),
                ..old(self)@
            }),
    {
        let f = field.ordinal();
        let ghost before = self@;
        proof {
            assert(self@.quats[f as int] == self.quats@[f as int]@);
        }
        self.quats[f][i] = v;
        proof {
            let after = ColumnsView {
                quats: before.quats.update(field.index(), before.quat(field).update(i as int, v)),
                ..before
            };
            assert(self@ =~~= after);
        }
    }

    /// The shape of the projectile in slot `i`.
    pub fn form(&self, i: usize) -> (form: Form)
        requires
            self.wf(),
            self@.required.contains(StandardDataColumns::Appearance),
            i < self@.capacity,
        ensures
            form == self@.form[i as int],
    {
        self.form[i]
    }

    /// The values that slot `i` hands through to the renderer.
    pub fn render_properties(&self, i: usize) -> (properties: &Vec<(&'static str, Scalar)>)
        requires
            self.wf(),
            self@.required.contains(StandardDataColumns::Appearance),
            i < self@.capacity,
        ensures
            properties@ == self@.render_properties[i as int],
    {
        &self.render_properties[i]
    }

    /// The number of ticks that the projectile in slot `i` has existed.
    pub fn ticks_existed(&self, i: usize) -> (ticks: i16)
        requires
            self.wf(),
            i < self@.capacity,
        ensures
            ticks == self@.ticks_existed[i as int],
    {
        proof {
            lemma_padded_covers(self@.capacity, self@.widths.ticks as nat);
        }
        self.ticks_existed.get(i)
    }

    /// The tick count after which the projectile in slot `i` dies.
    pub fn end_time(&self, i: usize) -> (ticks: i16)
        requires
            self.wf(),
            i < self@.capacity,
        ensures
            ticks == self@.end_time[i as int],
    {
        proof {
            lemma_padded_covers(self@.capacity, self@.widths.ticks as nat);
        }
        self.end_time.get(i)
    }

    /// The identifier of the projectile in slot `i`.
    pub fn id(&self, i: usize) -> (id: i128)
        requires
            self.wf(),
            i < self@.capacity,
        ensures
            id == self@.id[i as int],
    {
        self.id[i]
    }

    /// Whether the projectile in slot `i` has died, so that the slot is
    /// free.
    pub fn dead(&self, i: usize) -> (dead: bool)
        requires
            self.wf(),
            i < self@.capacity,
        ensures
            dead == self@.dead[i as int],
    {
        self.dead[i]
    }

    /// The number of dead slots.
    pub fn current_dead_len(&self) -> (n: usize)
        ensures
            n == self@.current_dead.len(),
    {
        self.current_dead.len()
    }

    /// The parent of the projectile in slot `i`, or [`NO_PARENT`].
    pub fn parent(&self, i: usize) -> (parent: i128)
        requires
            self.wf(),
            i < self@.capacity,
        ensures
            parent == self@.parent[i as int],
    {
        self.parent[i]
    }

    /// The family depth of the projectile in slot `i`.
    pub fn family_depth(&self, i: usize) -> (depth: i16)
        requires
            self.wf(),
            i < self@.capacity,
        ensures
            depth == self@.family_depth[i as int],
    {
        self.family_depth[i]
    }

    /// The kinds whose values the projectile in slot `i` hands on to its
    /// next stages.
    pub fn next_stage_add_data(&self, i: usize) -> (mask: ColumnSet)
        requires
            self.wf(),
            i < self@.capacity,
        ensures
            mask@ == self@.next_stage_add_data[i as int],
    {
        self.next_stage_add_data[i]
    }

    /// The cached local transform of slot `i`.
    pub fn transform(&self, i: usize) -> (m: Mat4)
        requires
            self.wf(),
            i < self@.capacity,
        ensures
            m.m@ == self@.transform_mats[i as int],
    {
        self.transform_mats[i]
    }

    /// Caches `m` as the local transform of slot `i`.
    pub fn set_transform(&mut self, i: usize, m: Mat4)
        requires
            old(self).wf(),
            i < old(self)@.capacity,
        ensures
            final(self).wf(),
            final(self)@ == (ColumnsView {
                transform_mats: old(self)@.transform_mats.update(i as int, m.m@),
                ..old(self)@
            }),
    {
        let ghost before = self@;
        self.transform_mats[i] = m;
        proof {
            let after = ColumnsView {
                transform_mats: before.transform_mats.update(i as int, m.m@),
                ..before
            };
            assert(self@ =~~= after);
        }
    }

    /// Sets the number of ticks that the projectile in slot `i` has
    /// existed.
    pub fn set_ticks_existed(&mut self, i: usize, ticks: i16)
        requires
            old(self).wf(),
            i < old(self)@.capacity,
        ensures
            final(self).wf(),
            final(self)@ == (ColumnsView {
                ticks_existed: old(self)@.ticks_existed.update(i as int, ticks),
                ..old(self)@
            }),
    {
        let ghost before = self@;
        proof {
            lemma_padded_covers(self@.capacity, self@.widths.ticks as nat);
        }
        self.ticks_existed.set(i, ticks);
        proof {
            let after = ColumnsView {
                ticks_existed: before.ticks_existed.update(i as int, ticks),
                ..before
            };
            assert(self@ =~~= after);
        }
    }

    /// Records that the projectile in slot `i` has died: the slot is
    /// flagged, and it joins the list of dead slots.
    pub fn mark_dead(&mut self, i: usize)
        requires
            old(self).wf(),
            i < old(self)@.capacity,
            !old(self)@.dead[i as int],
        ensures
            final(self).wf(),
            final(self)@ == (ColumnsView {
                dead: old(self)@.dead.update(i as int, true),
                current_dead: old(self)@.current_dead.push(i),
                ..old(self)@
            }),
    {
        let ghost before = self@;
        self.dead[i] = true;
        self.current_dead.push(i);
        proof {
            let after = ColumnsView {
                dead: before.dead.update(i as int, true),
                current_dead: before.current_dead.push(i),
                ..before
            };
            assert(self@ =~~= after);
            assert(before.dead[i as int] <==> before.current_dead.contains(i));
            assert forall|j: int| 0 <= j < after.capacity implies (#[trigger] after.dead[j]
                <==> after.current_dead.contains(j as usize)) by {
                lemma_push_contains(before.current_dead, i, j as usize);
                assert(before.dead[j] <==> before.current_dead.contains(j as usize));
            }
            assert(after.current_dead.no_duplicates()) by {
                assert forall|a: int, b: int|
                    0 <= a < after.current_dead.len() && 0 <= b < after.current_dead.len() && a
                        != b implies after.current_dead[a] != after.current_dead[b] by {
                    if a < before.current_dead.len() {
                        assert(before.current_dead.contains(before.current_dead[a]));
                    }
                    if b < before.current_dead.len() {
                        assert(before.current_dead.contains(before.current_dead[b]));
                    }
                }
            }
        }
    }

    /// Hands over the next stages of the projectile in slot `i`, and
    /// leaves the slot without any.
    pub fn take_next_stage(&mut self, i: usize) -> (stages: Vec<DanmakuSpawnData>)
        requires
            old(self).wf(),
            i < old(self)@.capacity,
        ensures
            final(self).wf(),
            stages@ == old(self)@.next_stage[i as int],
            final(self)@ == (ColumnsView {
                next_stage: old(self)@.next_stage.update(i as int, Seq::empty()),
                ..old(self)@
            }),
    {
        let ghost before = self@;
        let mut stages: Vec<DanmakuSpawnData> = Vec::new();
        core::mem::swap(&mut self.next_stage[i], &mut stages);
        proof {
            let after = ColumnsView {
                next_stage: before.next_stage.update(i as int, Seq::empty()),
                ..before
            };
            assert(self@ =~~= after);
        }
        stages
    }

    /// Asks for a spawn: `danmaku` is to be created after this tick, in
    /// slot `preferred` if there is one and it is free by then.
    pub fn push_spawn(&mut self, danmaku: DanmakuSpawnData, preferred: Option<usize>)
        requires
            old(self).wf(),
        ensures
            final(self).wf(),
            final(self)@ == (ColumnsView {
                add_spawns: old(self)@.add_spawns.push((danmaku, preferred)),
                ..old(self)@
            }),
    {
        let ghost before = self@;
        self.add_spawns.push((danmaku, preferred));
        proof {
            let after = ColumnsView {
                add_spawns: before.add_spawns.push((danmaku, preferred)),
                ..before
            };
            assert(self@ =~~= after);
        }
    }

    /// Hands over the spawns that behaviors have asked for, and forgets
    /// them.
    pub fn grab_new_spawns(&mut self) -> (spawns: Vec<(DanmakuSpawnData, Option<usize>)>)
        requires
            old(self).wf(),
        ensures
            final(self).wf(),
            spawns@ == old(self)@.add_spawns,
            final(self)@ == (ColumnsView { add_spawns: Seq::empty(), ..old(self)@ }),
    {
        let ghost before = self@;
        let mut spawns: Vec<(DanmakuSpawnData, Option<usize>)> = Vec::new();
        core::mem::swap(&mut self.add_spawns, &mut spawns);
        proof {
            let after = ColumnsView { add_spawns: Seq::empty(), ..before };
            assert(self@ =~~= after);
        }
        spawns
    }

    /// Gives slot `i` the real number `v` in `field`, where that column is
    /// allocated.
    fn put_scalar(&mut self, field: ScalarField, i: usize, v: Scalar)
        requires
            old(self).wf(),
            i < old(self)@.capacity,
        ensures
            final(self).wf(),
            final(self)@ == (ColumnsView {
                scalars: if old(self)@.required.contains(field.kind()) {
                    old(self)@.scalars.update(
                        field.index(),
                        old(self)@.scalar(field).update(i as int, v),
                    )
                } else {
                    old(self)@.scalars
                },
                ..old(self)@
            }),
    {
        if self.required_columns.contains(field.owner()) {
            self.set_scalar(field, i, v);
        }
    }

    /// Gives slot `i` the color `v` in `field`, where that column is
    /// allocated.
    fn put_color(&mut self, field: ColorField, i: usize, v: i32)
        requires
            old(self).wf(),
            i < old(self)@.capacity,
        ensures
            final(self).wf(),
            final(self)@ == (ColumnsView {
                colors: if old(self)@.required.contains(field.kind()) {
                    old(self)@.colors.update(
                        field.index(),
                        old(self)@.color(field).update(i as int, v),
                    )
                } else {
                    old(self)@.colors
                },
                ..old(self)@
            }),
    {
        if self.required_columns.contains(field.owner()) {
            self.set_color(field, i, v);
        }
    }

    /// Gives slot `i` the rotation `v` in `field`, where that column is
    /// allocated.
    fn put_quat(&mut self, field: QuatField, i: usize, v: Quat)
        requires
            old(self).wf(),
            i < old(self)@.capacity,
        ensures
            final(self).wf(),
            final(self)@ == (ColumnsView {
                quats: if old(self)@.required.contains(field.kind()) {
                    old(self)@.quats.update(
                        field.index(),
                        old(self)@.quat(field).update(i as int, v),
                    )
                } else {
                    old(self)@.quats
                },
                ..old(self)@
            }),
    {
        if self.required_columns.contains(field.owner()) {
            self.set_quat(field, i, v);
        }
    }

    /// Gives slot `i` a shape and the values to hand through to the
    /// renderer, where the store keeps appearances.
    fn put_appearance(&mut self, i: usize, form: Form, properties: &Vec<(&'static str, Scalar)>)
        requires
            old(self).wf(),
            i < old(self)@.capacity,
        ensures
            final(self).wf(),
            final(self)@ == (ColumnsView {
                form: if old(self)@.required.contains(StandardDataColumns::Appearance) {
                    old(self)@.form.update(i as int, form)
                } else {
                    old(self)@.form
                },
                render_properties: if old(self)@.required.contains(
                    StandardDataColumns::Appearance,
                ) {
                    old(self)@.render_properties.update(i as int, properties@)
                } else {
                    old(self)@.render_properties
                },
                ..old(self)@
            }),
    {
        let ghost before = self@;
        if self.required_columns.contains(StandardDataColumns::Appearance) {
            self.form[i] = form;
            self.render_properties[i] = copy_of(properties);
            proof {
                let after = ColumnsView {
                    form: before.form.update(i as int, form),
                    render_properties: before.render_properties.update(i as int, properties@),
                    ..before
                };
                assert(self@ =~~= after);
            }
        }
    }

    /// Writes the real number of an initial attribute to slot `i`: into the
    /// column `first`, and into `second` where the attribute goes to two
    /// columns.
    fn apply_scalar(
        &mut self,
        i: usize,
        Ghost(attribute): Ghost<StandardSpawnData>,
        Ghost(properties): Ghost<Seq<(&'static str, Scalar)>>,
        first: ScalarField,
        second: Option<ScalarField>,
        v: Scalar,
    )
        requires
            old(self).wf(),
            i < old(self)@.capacity,
            forall|f: ScalarField|
                #[trigger] attribute.scalar_for(f) == if f == first || second == Some(f) {
                    Some(v)
                } else {
                    None
                },
            forall|f: ColorField| #[trigger] attribute.color_for(f) is None,
            forall|f: QuatField| #[trigger] attribute.quat_for(f) is None,
            attribute.form_of() is None,
        ensures
            final(self).wf(),
            final(self)@ == old(self)@.with_attribute(i as int, attribute, properties),
    {
        let ghost before = self@;
        self.put_scalar(first, i, v);
        match second {
            Some(second) => {
                self.put_scalar(second, i, v);
            },
            None => {},
        }
        proof {
            let after = before.with_attribute(i as int, attribute, properties);
            lemma_padded_covers(before.capacity, before.widths.scalar as nat);
            let mid = ColumnsView {
                scalars: if before.required.contains(first.kind()) {
                    before.scalars.update(first.index(), before.scalar(first).update(i as int, v))
                } else {
                    before.scalars
                },
                ..before
            };
            assert(ScalarField::at(first.index()) == first);
            assert forall|f: int| 0 <= f < SCALAR_FIELDS implies #[trigger] self@.scalars[f]
                == after.scalars[f] by {
                let field = ScalarField::at(f);
                assert(field.index() == f);
                assert(attribute.scalar_for(field) == if field == first || second == Some(field) {
                    Some(v)
                } else {
                    None
                });
                if second is Some {
                    let other = second->0;
                    assert(ScalarField::at(other.index()) == other);
                    if f == other.index() {
                        assert(field == other);
                    } else if f == first.index() {
                        assert(field == first);
                        assert(self@.scalars[f] == mid.scalars[f]);
                    } else {
                        assert(self@.scalars[f] == before.scalars[f]);
                    }
                } else {
                    if f == first.index() {
                        assert(field == first);
                    } else {
                        assert(self@.scalars[f] == before.scalars[f]);
                    }
                }
            }
            assert(self@.scalars =~= after.scalars);
            assert(self@ =~~= after);
        }
    }

    /// Writes the color of an initial attribute to slot `i`: into the
    /// columns `first` and `second`.
    fn apply_color(
        &mut self,
        i: usize,
        Ghost(attribute): Ghost<StandardSpawnData>,
        Ghost(properties): Ghost<Seq<(&'static str, Scalar)>>,
        first: ColorField,
        second: ColorField,
        v: i32,
    )
        requires
            old(self).wf(),
            i < old(self)@.capacity,
            forall|f: ColorField|
                #[trigger] attribute.color_for(f) == if f == first || f == second {
                    Some(v)
                } else {
                    None
                },
            forall|f: ScalarField| #[trigger] attribute.scalar_for(f) is None,
            forall|f: QuatField| #[trigger] attribute.quat_for(f) is None,
            attribute.form_of() is None,
        ensures
            final(self).wf(),
            final(self)@ == old(self)@.with_attribute(i as int, attribute, properties),
    {
        let ghost before = self@;
        self.put_color(first, i, v);
        self.put_color(second, i, v);
        proof {
            let after = before.with_attribute(i as int, attribute, properties);
            lemma_padded_covers(before.capacity, before.widths.color as nat);
            assert(ColorField::at(first.index()) == first);
            assert(ColorField::at(second.index()) == second);
            assert forall|f: int| 0 <= f < COLOR_FIELDS implies #[trigger] self@.colors[f]
                == after.colors[f] by {
                let field = ColorField::at(f);
                assert(field.index() == f);
                assert(ColorField::at(first.index()) == first);
                assert(ColorField::at(second.index()) == second);
            }
            assert(self@.colors =~= after.colors);
            assert(self@ =~~= after);
        }
    }

    /// Writes the rotation of an initial attribute to slot `i`: into the
    /// column `first`, and into `second` where the attribute goes to two
    /// columns.
    fn apply_quat(
        &mut self,
        i: usize,
        Ghost(attribute): Ghost<StandardSpawnData>,
        Ghost(properties): Ghost<Seq<(&'static str, Scalar)>>,
        first: QuatField,
        second: Option<QuatField>,
        v: Quat,
    )
        requires
            old(self).wf(),
            i < old(self)@.capacity,
            forall|f: QuatField|
                #[trigger] attribute.quat_for(f) == if f == first || second == Some(f) {
                    Some(v)
                } else {
                    None
                },
            forall|f: ScalarField| #[trigger] attribute.scalar_for(f) is None,
            forall|f: ColorField| #[trigger] attribute.color_for(f) is None,
            attribute.form_of() is None,
        ensures
            final(self).wf(),
            final(self)@ == old(self)@.with_attribute(i as int, attribute, properties),
    {
        let ghost before = self@;
        self.put_quat(first, i, v);
        match second {
            Some(second) => {
                self.put_quat(second, i, v);
            },
            None => {},
        }
        proof {
            let after = before.with_attribute(i as int, attribute, properties);
            assert forall|f: int| 0 <= f < QUAT_FIELDS implies #[trigger] self@.quats[f]
                == after.quats[f] by {
                let field = QuatField::at(f);
                assert(field.index() == f);
                assert(QuatField::at(first.index()) == first);
                if second is Some {
                    assert(QuatField::at(second->0.index()) == second->0);
                }
            }
            assert(self@.quats =~= after.quats);
            assert(self@ =~~= after);
        }
    }

    /// Writes the direction of an initial attribute to slot `i`: each
    /// coordinate into its column.
    fn apply_forward(
        &mut self,
        i: usize,
        Ghost(properties): Ghost<Seq<(&'static str, Scalar)>>,
        v: crate::numeric::Unit3,
    )
        requires
            old(self).wf(),
            i < old(self)@.capacity,
        ensures
            final(self).wf(),
            final(self)@ == old(self)@.with_attribute(
                i as int,
                StandardSpawnData::Forward(v),
                properties,
            ),
    {
        let ghost before = self@;
        self.put_scalar(ScalarField::ForwardX, i, v.x);
        self.put_scalar(ScalarField::ForwardY, i, v.y);
        self.put_scalar(ScalarField::ForwardZ, i, v.z);
        proof {
            let after = before.with_attribute(i as int, StandardSpawnData::Forward(v), properties);
            lemma_padded_covers(before.capacity, before.widths.scalar as nat);
            assert forall|f: int| 0 <= f < SCALAR_FIELDS implies #[trigger] self@.scalars[f]
                == after.scalars[f] by {
                let field = ScalarField::at(f);
                assert(field.index() == f);
            }
            assert(self@.scalars =~= after.scalars);
            assert(self@ =~~= after);
        }
    }

    /// Writes the appearance of an initial attribute to slot `i`.
    fn apply_appearance(&mut self, i: usize, form: Form, properties: &Vec<(&'static str, Scalar)>)
        requires
            old(self).wf(),
            i < old(self)@.capacity,
        ensures
            final(self).wf(),
            final(self)@ == old(self)@.with_attribute(
                i as int,
                StandardSpawnData::Appearance { form },
                properties@,
            ),
    {
        let ghost before = self@;
        self.put_appearance(i, form, properties);
        proof {
            let after = before.with_attribute(
                i as int,
                StandardSpawnData::Appearance { form },
                properties@,
            );
            assert(self@ =~~= after);
        }
    }

    /// Writes one initial attribute to slot `i`: into the columns it
    /// belongs to, where they are allocated.
    fn apply_attribute(
        &mut self,
        i: usize,
        attribute: StandardSpawnData,
        properties: &Vec<(&'static str, Scalar)>,
    )
        requires
            old(self).wf(),
            i < old(self)@.capacity,
        ensures
            final(self).wf(),
            final(self)@ == old(self)@.with_attribute(i as int, attribute, properties@),
    {
        let ghost a = attribute;
        let ghost p = properties@;
        match attribute {
            StandardSpawnData::PosX(v) => {
                self.apply_scalar(
                    i,
                    Ghost(a),
                    Ghost(p),
                    ScalarField::PosX,
                    Some(ScalarField::OldPosX),
                    v,
                );
            },
            StandardSpawnData::PosY(v) => {
                self.apply_scalar(
                    i,
                    Ghost(a),
                    Ghost(p),
                    ScalarField::PosY,
                    Some(ScalarField::OldPosY),
                    v,
                );
            },
            StandardSpawnData::PosZ(v) => {
                self.apply_scalar(
                    i,
                    Ghost(a),
                    Ghost(p),
                    ScalarField::PosZ,
                    Some(ScalarField::OldPosZ),
                    v,
                );
            },
            StandardSpawnData::Orientation(v) => {
                self.apply_quat(
                    i,
                    Ghost(a),
                    Ghost(p),
                    QuatField::Orientation,
                    Some(QuatField::OldOrientation),
                    v,
                );
            },
            StandardSpawnData::Appearance { form } => {
                self.apply_appearance(i, form, properties);
            },
            StandardSpawnData::MainColor(v) => {
                self.apply_color(i, Ghost(a), Ghost(p), ColorField::Main, ColorField::OldMain, v);
            },
            StandardSpawnData::SecondaryColor(v) => {
                self.apply_color(
                    i,
                    Ghost(a),
                    Ghost(p),
                    ColorField::Secondary,
                    ColorField::OldSecondary,
                    v,
                );
            },
            StandardSpawnData::Damage(v) => {
                self.apply_scalar(i, Ghost(a), Ghost(p), ScalarField::Damage, None, v);
            },
            StandardSpawnData::SizeX(v) => {
                self.apply_scalar(
                    i,
                    Ghost(a),
                    Ghost(p),
                    ScalarField::ScaleX,
                    Some(ScalarField::OldScaleX),
                    v,
                );
            },
            StandardSpawnData::SizeY(v) => {
                self.apply_scalar(
                    i,
                    Ghost(a),
                    Ghost(p),
                    ScalarField::ScaleY,
                    Some(ScalarField::OldScaleY),
                    v,
                );
            },
            StandardSpawnData::SizeZ(v) => {
                self.apply_scalar(
                    i,
                    Ghost(a),
                    Ghost(p),
                    ScalarField::ScaleZ,
                    Some(ScalarField::OldScaleZ),
                    v,
                );
            },
            StandardSpawnData::MotionX(v) => {
                self.apply_scalar(i, Ghost(a), Ghost(p), ScalarField::MotionX, None, v);
            },
            StandardSpawnData::MotionY(v) => {
                self.apply_scalar(i, Ghost(a), Ghost(p), ScalarField::MotionY, None, v);
            },
            StandardSpawnData::MotionZ(v) => {
                self.apply_scalar(i, Ghost(a), Ghost(p), ScalarField::MotionZ, None, v);
            },
            StandardSpawnData::GravityX(v) => {
                self.apply_scalar(i, Ghost(a), Ghost(p), ScalarField::GravityX, None, v);
            },
            StandardSpawnData::GravityY(v) => {
                self.apply_scalar(i, Ghost(a), Ghost(p), ScalarField::GravityY, None, v);
            },
            StandardSpawnData::GravityZ(v) => {
                self.apply_scalar(i, Ghost(a), Ghost(p), ScalarField::GravityZ, None, v);
            },
            StandardSpawnData::SpeedAccel(v) => {
                self.apply_scalar(i, Ghost(a), Ghost(p), ScalarField::SpeedAccel, None, v);
            },
            StandardSpawnData::Forward(v) => {
                self.apply_forward(i, Ghost(p), v);
            },
            StandardSpawnData::Rotation(v) => {
                self.apply_quat(i, Ghost(a), Ghost(p), QuatField::Rotation, None, v);
            },
        }
    }

    /// Writes the projectile that `danmaku` describes to slot `idx` under
    /// the identifier `id`, and hands back the children it asks for.
    ///
    /// Each initial attribute is written where its column is allocated and
    /// dropped where it is not. The slot starts at tick 0 and is no longer
    /// dead.
    pub fn add_danmaku_at_idx(&mut self, idx: usize, danmaku: DanmakuSpawnData, id: i128) -> (children:
        Vec<DanmakuSpawnData>)
        requires
            old(self).wf(),
            idx < old(self)@.capacity,
        ensures
            final(self).wf(),
            children == danmaku.children,
            final(self)@ == old(self)@.with_danmaku(idx as int, danmaku, id),
    {
        let ghost before = self@;
        let DanmakuSpawnData {
            end_time,
            behavior_data,
            render_properties,
            behaviors,
            next_stage_add_data,
            next_stage,
            parent,
            children,
            family_depth,
        } = danmaku;
        let n = behavior_data.len();
        let mut k: usize = 0;
        while k < n
            invariant
                k <= n,
                n == behavior_data@.len(),
                self.wf(),
                idx < before.capacity,
                self@ == before.with_attributes(
                    idx as int,
                    behavior_data@.take(k as int),
                    render_properties@,
                ),
                self@.capacity == before.capacity,
            decreases n - k,
        {
            proof {
                assert(behavior_data@.take(k + 1).drop_last() == behavior_data@.take(k as int));
            }
            self.apply_attribute(idx, behavior_data[k], &render_properties);
            k += 1;
        }
        proof {
            assert(behavior_data@.take(n as int) == behavior_data@);
            lemma_padded_covers(self@.capacity, self@.widths.ticks as nat);
            lemma_filter_no_duplicates(before.current_dead, other_than(idx as int));
        }
        let ghost written = self@;
        self.ticks_existed.set(idx, 0i16);
        self.end_time.set(idx, end_time);
        self.id[idx] = id;
        self.dead[idx] = false;
        self.next_stage[idx] = next_stage;
        self.next_stage_add_data[idx] = next_stage_add_data;
        self.parent[idx] = match parent {
            Some(parent) => parent,
            None => NO_PARENT,
        };
        self.transform_mats[idx] = Mat4::identity();
        self.family_depth[idx] = family_depth;
        forget_slot(&mut self.current_dead, idx);
        proof {
            let after = before.with_danmaku(idx as int, danmaku, id);
            lemma_with_attributes_shape(
                before,
                idx as int,
                danmaku.behavior_data@,
                danmaku.render_properties@,
            );
            assert(self@ =~~= after);
            assert forall|j: int| 0 <= j < after.capacity implies (#[trigger] after.dead[j]
                <==> after.current_dead.contains(j as usize)) by {
                assert(before.dead[j] <==> before.current_dead.contains(j as usize));
            }
            assert forall|j: int| 0 <= j < after.current_dead.len() implies (
            #[trigger] after.current_dead[j]) < after.capacity by {
                let slot = after.current_dead[j];
                assert(after.current_dead.contains(slot));
                assert(before.current_dead.contains(slot));
                let k = choose|k: int|
                    0 <= k < before.current_dead.len() && before.current_dead[k] == slot;
                assert(before.current_dead[k] < before.capacity);
            }
        }
        children
    }

    /// Removes the rows of the dead slots from every allocated column,
    /// lane by lane for the lane-packed ones, so that the other slots move
    /// down in their order, and cuts the columns down or fills them up to
    /// `new_max_size` slots. Afterwards no slot is dead, and the slots
    /// behind the kept ones hold the values that their columns fill with.
    pub fn compact(&mut self, new_max_size: usize)
        requires
            old(self).wf(),
            new_max_size + MAX_LANES <= usize::MAX,
        ensures
            final(self).wf(),
            final(self)@ == old(self)@.compacted(new_max_size as nat),
            final(self)@.capacity == new_max_size,
            final(self)@.dead.len() == new_max_size,
            forall|i: int| 0 <= i < new_max_size ==> !(#[trigger] final(self)@.dead[i]),
            final(self)@.current_dead.len() == 0,
            forall|k: int|
                0 <= k < new_max_size && k < kept(old(self)@.id, old(self)@.dead).len()
                    ==> #[trigger] final(self)@.id[k] == kept(old(self)@.id, old(self)@.dead)[k],
            forall|r: int|
                kept(old(self)@.id, old(self)@.dead).len() <= r
                    ==> #[trigger] final(self)@.holds_fills(r),
    {
        proof {
            lemma_compacted_wf(self@, new_max_size as nat);
            assert forall|r: int| kept(self@.id, self@.dead).len() <= r implies #[trigger] self@.compacted(
                new_max_size as nat,
            ).holds_fills(r) by {
                lemma_compacted_free_slots(self@, new_max_size as nat, r);
            }
        }
        let ghost before = self@;
        let ghost old_properties = self.render_properties@;
        let ghost old_stages = self.next_stage@;
        let ghost old_masks = self.next_stage_add_data@;
        let ghost old_mats = self.transform_mats@;
        let flags = self.scalar_allocation();
        let fills = Self::scalar_fills();
        compact_group(&mut self.scalars, &flags, &fills, &self.dead, self.capacity, new_max_size);
        let flags = self.color_allocation();
        let mut fills: Vec<i32> = Vec::new();
        fit(&mut fills, COLOR_FIELDS, 0i32);
        compact_group(&mut self.colors, &flags, &fills, &self.dead, self.capacity, new_max_size);
        let flags = self.quat_allocation();
        compact_dense_group(&mut self.quats, &flags, Quat::identity(), &self.dead, new_max_size);
        if self.required_columns.contains(StandardDataColumns::Appearance) {
            compact(&mut self.form, &self.dead, new_max_size, Form::sphere());
            compact_lists(&mut self.render_properties, &self.dead, new_max_size);
        }
        self.ticks_existed.compact(&self.dead, self.capacity, new_max_size, 0i16);
        self.end_time.compact(&self.dead, self.capacity, new_max_size, 0i16);
        compact(&mut self.id, &self.dead, new_max_size, 0i128);
        compact_lists(&mut self.next_stage, &self.dead, new_max_size);
        compact(&mut self.next_stage_add_data, &self.dead, new_max_size, ColumnSet::empty());
        compact(&mut self.parent, &self.dead, new_max_size, NO_PARENT);
        compact(&mut self.transform_mats, &self.dead, new_max_size, Mat4::identity());
        compact(&mut self.family_depth, &self.dead, new_max_size, 0i16);
        self.dead.clear();
        fit(&mut self.dead, new_max_size, false);
        self.current_dead.clear();
        self.capacity = new_max_size;
        proof {
            reveal(Seq::filter);
            let after = before.compacted(new_max_size as nat);
            let dead = before.dead;
            lemma_kept_map(old_properties, dead, |r: Vec<(&'static str, Scalar)>| r@);
            assert(before.render_properties =~= old_properties.map_values(
                |r: Vec<(&'static str, Scalar)>| r@,
            ));
            lemma_kept_map(old_stages, dead, |r: Vec<DanmakuSpawnData>| r@);
            assert(before.next_stage =~= old_stages.map_values(|r: Vec<DanmakuSpawnData>| r@));
            lemma_kept_map(old_masks, dead, |r: ColumnSet| r@);
            assert(before.next_stage_add_data =~= old_masks.map_values(|r: ColumnSet| r@));
            lemma_kept_map(old_mats, dead, |r: Mat4| r.m@);
            assert(before.transform_mats =~= old_mats.map_values(|r: Mat4| r.m@));
            let slots = before.capacity;
            assert forall|f: int| 0 <= f < SCALAR_FIELDS implies kept(
                front(#[trigger] before.scalars[f], slots),
                dead,
            ).len() <= slots by {
                lemma_kept_no_longer(front(before.scalars[f], slots), dead);
            }
            assert forall|f: int| 0 <= f < COLOR_FIELDS implies kept(
                front(#[trigger] before.colors[f], slots),
                dead,
            ).len() <= slots by {
                lemma_kept_no_longer(front(before.colors[f], slots), dead);
            }
            lemma_kept_no_longer(front(before.ticks_existed, slots), dead);
            lemma_kept_no_longer(front(before.end_time, slots), dead);
            assert(self@ =~~= after);
        }
    }
}

/// Drops from a list of slots those at or beyond `capacity`.
fn forget_beyond(slots: &mut Vec<usize>, capacity: usize)
    ensures
        final(slots)@ == old(slots)@.filter(below(capacity as nat)),
{
    let mut within: Vec<usize> = Vec::new();
    let mut k: usize = 0;
    while k < slots.len()
        invariant
            k <= slots.len(),
            slots@ == old(slots)@,
            within@ == old(slots)@.take(k as int).filter(below(capacity as nat)),
        decreases slots.len() - k,
    {
        proof {
            reveal(Seq::filter);
            assert(old(slots)@.take(k + 1).drop_last() == old(slots)@.take(k as int));
        }
        if slots[k] < capacity {
            within.push(slots[k]);
        }
        k += 1;
    }
    proof {
        reveal(Seq::filter);
        assert(old(slots)@.take(k as int) == old(slots)@);
    }
    *slots = within;
}

/// Drops slot `i` from a list of slots.
fn forget_slot(slots: &mut Vec<usize>, i: usize)
    ensures
        final(slots)@ == old(slots)@.filter(other_than(i as int)),
{
    let mut others: Vec<usize> = Vec::new();
    let mut k: usize = 0;
    while k < slots.len()
        invariant
            k <= slots.len(),
            slots@ == old(slots)@,
            others@ == old(slots)@.take(k as int).filter(other_than(i as int)),
        decreases slots.len() - k,
    {
        proof {
            reveal(Seq::filter);
            assert(old(slots)@.take(k + 1).drop_last() == old(slots)@.take(k as int));
        }
        if slots[k] != i {
            others.push(slots[k]);
        }
        k += 1;
    }
    proof {
        reveal(Seq::filter);
        assert(old(slots)@.take(k as int) == old(slots)@);
    }
    *slots = others;
}

/// A copy of a list of named values.
pub(crate) fn copy_of(properties: &Vec<(&'static str, Scalar)>) -> (copy: Vec<(&'static str, Scalar)>)
    ensures
        copy@ == properties@,
{
    let mut copy: Vec<(&'static str, Scalar)> = Vec::new();
    let mut k: usize = 0;
    while k < properties.len()
        invariant
            k <= properties.len(),
            copy@ == properties@.take(k as int),
        decreases properties.len() - k,
    {
        copy.push(properties[k]);
        assert(copy@ =~= properties@.take(k + 1));
        k += 1;
    }
    assert(properties@.take(k as int) == properties@);
    copy
}

/// Taking an initial attribute changes what a slot holds in the attribute
/// columns, and nothing else: no column changes its length.
pub proof fn lemma_with_attribute_shape(
    v: ColumnsView,
    i: int,
    attribute: StandardSpawnData,
    properties: Seq<(&'static str, Scalar)>,
)
    requires
        v.wf(),
        0 <= i < v.capacity,
    ensures
        v.with_attribute(i, attribute, properties).wf(),
{
    let w = v.with_attribute(i, attribute, properties);
    lemma_padded_covers(v.capacity, v.widths.scalar as nat);
    lemma_padded_covers(v.capacity, v.widths.color as nat);
    assert forall|f: int| 0 <= f < SCALAR_FIELDS implies (#[trigger] w.scalars[f]).len()
        == v.scalars[f].len() by {}
    assert forall|f: int| 0 <= f < COLOR_FIELDS implies (#[trigger] w.colors[f]).len()
        == v.colors[f].len() by {}
    assert forall|f: int| 0 <= f < QUAT_FIELDS implies (#[trigger] w.quats[f]).len()
        == v.quats[f].len() by {}
}

/// Taking initial attributes changes what a slot holds in the attribute
/// columns, and nothing else: no column changes its length.
pub proof fn lemma_with_attributes_shape(
    v: ColumnsView,
    i: int,
    attributes: Seq<StandardSpawnData>,
    properties: Seq<(&'static str, Scalar)>,
)
    requires
        v.wf(),
        0 <= i < v.capacity,
    ensures
        v.with_attributes(i, attributes, properties).wf(),
        v.with_attributes(i, attributes, properties) == (ColumnsView {
            scalars: v.with_attributes(i, attributes, properties).scalars,
            colors: v.with_attributes(i, attributes, properties).colors,
            quats: v.with_attributes(i, attributes, properties).quats,
            form: v.with_attributes(i, attributes, properties).form,
            render_properties: v.with_attributes(i, attributes, properties).render_properties,
            ..v
        }),
    decreases attributes.len(),
{
    if attributes.len() > 0 {
        lemma_with_attributes_shape(v, i, attributes.drop_last(), properties);
        lemma_with_attribute_shape(
            v.with_attributes(i, attributes.drop_last(), properties),
            i,
            attributes.last(),
            properties,
        );
    }
}

/// Writing a projectile to a slot leaves the store with its capacity, its
/// kinds and its lane widths; it changes the dead flag of that slot alone,
/// and no spawn request.
pub proof fn lemma_with_danmaku_shape(v: ColumnsView, i: int, danmaku: DanmakuSpawnData, id: i128)
    requires
        v.wf(),
        0 <= i < v.capacity,
    ensures
        v.with_danmaku(i, danmaku, id).shaped_like(v),
        v.with_danmaku(i, danmaku, id).dead == v.dead.update(i, false),
        v.with_danmaku(i, danmaku, id).add_spawns == v.add_spawns,
        v.with_danmaku(i, danmaku, id).id == v.id.update(i, id),
        v.with_danmaku(i, danmaku, id).current_dead == v.current_dead.filter(other_than(i)),
{
    lemma_with_attributes_shape(v, i, danmaku.behavior_data@, danmaku.render_properties@);
}

/// A well-formed store is well-formed after a projectile has been written
/// to one of its slots.
pub proof fn lemma_with_danmaku_wf(v: ColumnsView, i: int, danmaku: DanmakuSpawnData, id: i128)
    requires
        v.wf(),
        0 <= i < v.capacity,
    ensures
        v.with_danmaku(i, danmaku, id).wf(),
        v.with_danmaku(i, danmaku, id).shaped_like(v),
        v.with_danmaku(i, danmaku, id).dead == v.dead.update(i, false),
{
    lemma_with_attributes_shape(v, i, danmaku.behavior_data@, danmaku.render_properties@);
    lemma_padded_covers(v.capacity, v.widths.ticks as nat);
    lemma_filter_no_duplicates(v.current_dead, other_than(i));
    let after = v.with_danmaku(i, danmaku, id);
    assert forall|j: int| 0 <= j < after.capacity implies (#[trigger] after.dead[j]
        <==> after.current_dead.contains(j as usize)) by {
        assert(v.dead[j] <==> v.current_dead.contains(j as usize));
    }
    assert forall|j: int| 0 <= j < after.current_dead.len() implies (
    #[trigger] after.current_dead[j]) < after.capacity by {
        let slot = after.current_dead[j];
        assert(after.current_dead.contains(slot));
        assert(v.current_dead.contains(slot));
        let k = choose|k: int| 0 <= k < v.current_dead.len() && v.current_dead[k] == slot;
        assert(v.current_dead[k] < v.capacity);
    }
}

/// Of several initial attributes for one column, the last one stays: after
/// a slot has taken a list of attributes, it holds in each allocated
/// column of real numbers the last value that the list gives to that
/// column, and what it held before where the list gives none.
pub proof fn lemma_last_attribute_stays(
    v: ColumnsView,
    i: int,
    attributes: Seq<StandardSpawnData>,
    properties: Seq<(&'static str, Scalar)>,
    field: ScalarField,
)
    requires
        v.wf(),
        0 <= i < v.capacity,
        v.required.contains(field.kind()),
    ensures
        v.with_attributes(i, attributes, properties).scalar(field)[i] == match last_scalar(
            attributes,
            field,
        ) {
            Some(value) => value,
            None => v.scalar(field)[i],
        },
    decreases attributes.len(),
{
    lemma_padded_covers(v.capacity, v.widths.scalar as nat);
    if attributes.len() > 0 {
        lemma_with_attributes_shape(v, i, attributes.drop_last(), properties);
        lemma_last_attribute_stays(v, i, attributes.drop_last(), properties, field);
        lemma_padded_covers(v.capacity, v.widths.scalar as nat);
        assert(ScalarField::at(field.index()) == field);
    }
}

/// Every lane-packed column that is allocated holds as many blocks as it
/// takes to hold every slot, and whole blocks alone; every dense column
/// that is allocated holds one row for each slot.
pub proof fn lemma_lane_packing(v: ColumnsView)
    requires
        v.wf(),
    ensures
        forall|field: ScalarField|
            v.required.contains(field.kind()) ==> (#[trigger] v.scalar(field)).len() / (
            v.widths.scalar as nat) == ceil_div(v.capacity, v.widths.scalar as nat) && v.scalar(
                field,
            ).len() % (v.widths.scalar as nat) == 0 && v.scalar(field).len() >= v.capacity,
        forall|field: ColorField|
            v.required.contains(field.kind()) ==> (#[trigger] v.color(field)).len() / (
            v.widths.color as nat) == ceil_div(v.capacity, v.widths.color as nat) && v.color(
                field,
            ).len() % (v.widths.color as nat) == 0 && v.color(field).len() >= v.capacity,
        forall|field: QuatField|
            v.required.contains(field.kind()) ==> (#[trigger] v.quat(field)).len() == v.capacity,
        v.ticks_existed.len() / (v.widths.ticks as nat) == ceil_div(
            v.capacity,
            v.widths.ticks as nat,
        ),
        v.end_time.len() / (v.widths.ticks as nat) == ceil_div(v.capacity, v.widths.ticks as nat),
{
    crate::packed::lemma_blocks_of_padded(v.capacity, v.widths.scalar as nat);
    crate::packed::lemma_blocks_of_padded(v.capacity, v.widths.color as nat);
    crate::packed::lemma_blocks_of_padded(v.capacity, v.widths.ticks as nat);
    lemma_padded_covers(v.capacity, v.widths.scalar as nat);
    lemma_padded_covers(v.capacity, v.widths.color as nat);
    assert forall|field: ScalarField| v.required.contains(field.kind()) implies (
    #[trigger] v.scalar(field)).len() == v.packed_rows(v.widths.scalar) by {
        assert(ScalarField::at(field.index()) == field);
        assert(v.scalars[field.index()].len() == v.rows_if(
            ScalarField::at(field.index()).kind(),
            v.packed_rows(v.widths.scalar),
        ));
    }
    assert forall|field: ColorField| v.required.contains(field.kind()) implies (#[trigger] v.color(
        field,
    )).len() == v.packed_rows(v.widths.color) by {
        assert(ColorField::at(field.index()) == field);
        assert(v.colors[field.index()].len() == v.rows_if(
            ColorField::at(field.index()).kind(),
            v.packed_rows(v.widths.color),
        ));
    }
    assert forall|field: QuatField| v.required.contains(field.kind()) implies (#[trigger] v.quat(
        field,
    )).len() == v.capacity by {
        assert(QuatField::at(field.index()) == field);
        assert(v.quats[field.index()].len() == v.rows_if(
            QuatField::at(field.index()).kind(),
            v.capacity,
        ));
    }
}

/// Resizing a store brings in no name.
pub proof fn lemma_resized_asks_only(v: ColumnsView, capacity: nat, registered: Set<Seq<char>>)
    requires
        v.asks_only(registered),
    ensures
        v.resized(capacity).asks_only(registered),
{
    let r = v.resized(capacity);
    assert forall|i: int, j: int|
        0 <= i < r.next_stage.len() && 0 <= j < r.next_stage[i].len() implies (
    #[trigger] r.next_stage[i][j]).all_known(registered) by {
        if i < v.next_stage.len() {
            assert(r.next_stage[i] == v.next_stage[i]);
        }
    }
}

/// Writing a projectile to a slot brings in the names of its next stages
/// and no other.
pub proof fn lemma_with_danmaku_asks_only(
    v: ColumnsView,
    i: int,
    danmaku: DanmakuSpawnData,
    id: i128,
    registered: Set<Seq<char>>,
)
    requires
        v.wf(),
        0 <= i < v.capacity,
        v.asks_only(registered),
        danmaku.all_known(registered),
    ensures
        v.with_danmaku(i, danmaku, id).asks_only(registered),
{
    lemma_with_attributes_shape(v, i, danmaku.behavior_data@, danmaku.render_properties@);
    let w = v.with_danmaku(i, danmaku, id);
    assert(w.next_stage == v.next_stage.update(i, danmaku.next_stage@));
    assert(w.add_spawns == v.add_spawns);
    assert forall|a: int, b: int|
        0 <= a < w.next_stage.len() && 0 <= b < w.next_stage[a].len() implies (
    #[trigger] w.next_stage[a][b]).all_known(registered) by {
        if a == i {
            assert(danmaku.next_stage@[b].all_known(registered));
        } else {
            assert(w.next_stage[a] == v.next_stage[a]);
        }
    }
}

/// A store that names registered behaviors alone still does so when more
/// behaviors are registered.
pub proof fn lemma_asks_only_stays(v: ColumnsView, a: Set<Seq<char>>, b: Set<Seq<char>>)
    requires
        v.asks_only(a),
        a.subset_of(b),
    ensures
        v.asks_only(b),
{
    assert forall|i: int, j: int|
        0 <= i < v.next_stage.len() && 0 <= j < v.next_stage[i].len() implies (
    #[trigger] v.next_stage[i][j]).all_known(b) by {
        crate::spawn::lemma_known_stays(v.next_stage[i][j], a, b);
    }
    assert forall|k: int| 0 <= k < v.add_spawns.len() implies (
    #[trigger] v.add_spawns[k]).0.all_known(b) by {
        crate::spawn::lemma_known_stays(v.add_spawns[k].0, a, b);
    }
}

} // verus!
