//! Buckets: the projectiles that share one behavior signature, in one
//! column store, with the policy that sizes it.

use crate::behavior::{ran, Act, Behavior};
use crate::column_set::{ColumnSet, StandardDataColumns};
use crate::columns::{ColumnsView, StandardColumns};
use crate::fields::{ColorField, QuatField, ScalarField};
use crate::lanes::{LaneWidths, MAX_LANES};
use crate::numeric::{Numerics, Scalar};
use crate::render::{rendered, transforms_computed, RenderData};
use crate::spawn::DanmakuSpawnData;
use std::collections::HashMap;
use std::rc::Rc;
use vstd::arithmetic::power2::{lemma2_to64, lemma_pow2_strictly_increases, lemma_pow2_unfold, pow2};
use vstd::prelude::*;

verus! {

/// The size exponent of a new bucket: it starts with 128 slots.
pub const MIN_SIZE_EXP: u8 = 7;

/// The greatest size exponent: a bucket never holds more than 2³¹ slots.
pub const MAX_SIZE_EXP: u8 = 31;

/// The number by which a bucket identifier is multiplied in a projectile
/// identifier: 2⁶⁴.
pub const ID_STRIDE: i128 = 0x1_0000_0000_0000_0000;

/// The identifier of the projectile that bucket `bucket` creates as its
/// `local`-th: the bucket identifier in the upper 64 bits, the count in
/// the lower.
pub open spec fn make_id(bucket: int, local: int) -> int {
    bucket * ID_STRIDE + local
}

/// Projectiles of different buckets, or created at different counts of
/// one bucket, have different identifiers.
pub proof fn lemma_ids_differ(bucket_a: int, local_a: int, bucket_b: int, local_b: int)
    requires
        0 <= local_a < ID_STRIDE,
        0 <= local_b < ID_STRIDE,
        bucket_a != bucket_b || local_a != local_b,
    ensures
        make_id(bucket_a, local_a) != make_id(bucket_b, local_b),
{
}

/// What a bucket is, by its parts.
pub struct BucketView<A> {
    /// Whether the bucket stays when it holds no live projectile.
    pub always_keep: bool,
    /// The identifier of the bucket.
    pub identifier: i64,
    /// The count that the next projectile takes its identifier from.
    pub next_dan_identifier: i64,
    /// The capacity is 2 to this power.
    pub size_exp: u8,
    /// The number of slots in use: every projectile, live or dead, is in a
    /// slot below.
    pub current_size: usize,
    /// The identifiers of the behaviors, in the order in which they run.
    pub signature: Seq<&'static str>,
    /// The behaviors, in the order in which they run.
    pub behaviors: Seq<Rc<Behavior<A>>>,
    /// The store.
    pub columns: ColumnsView,
}

impl<A: Act> BucketView<A> {
    /// The number of slots.
    pub open spec fn capacity(self) -> nat {
        pow2(self.size_exp as nat)
    }

    /// The number of live projectiles.
    pub open spec fn count(self) -> int {
        self.current_size - self.columns.current_dead.len()
    }

    /// Whether an insertion of `length` projectiles behind the slots in
    /// use has to grow the bucket first: it would leave less than a tenth
    /// of the capacity free.
    pub open spec fn must_resize_before_add(self, length: int) -> bool {
        self.current_size + length > self.capacity() - (self.capacity() + 9) / 10
    }

    /// Whether the bucket is close to full: the slots in use and a tenth
    /// of the capacity exceed the capacity. A bucket of more than 2³⁰
    /// slots never counts as close to full.
    pub open spec fn should_resize_up_soon(self) -> bool {
        self.size_exp <= 30 && 10 * self.current_size > 9 * self.capacity()
    }

    /// Whether the bucket could do with half its capacity: it has at least
    /// 256 slots, and the slots in use would leave more than a tenth of
    /// the halved capacity free.
    pub open spec fn should_resize_down_soon(self) -> bool {
        self.size_exp >= 8 && self.current_size <= self.capacity() / 2 && 10 * (self.capacity()
            / 2 - self.current_size) > self.capacity() / 2
    }

    /// Whether slot `idx` can be taken over by a new projectile: there is
    /// such a slot, and its projectile is dead.
    pub open spec fn reusable(self, idx: Option<usize>) -> bool {
        idx matches Some(i) && i < self.columns.capacity && self.columns.dead[i as int]
    }

    /// This bucket after a resize step. A forced step, or one on a bucket
    /// close to full, doubles the capacity, unless the bucket has its
    /// greatest size already. Otherwise a bucket that could do with half
    /// its capacity is compacted into it, and the live projectiles are the
    /// slots in use. Otherwise nothing changes.
    pub open spec fn resized(self, force_up: bool) -> BucketView<A> {
        if force_up || self.should_resize_up_soon() {
            if self.size_exp < MAX_SIZE_EXP {
                BucketView {
                    size_exp: (self.size_exp + 1) as u8,
                    columns: self.columns.resized(pow2((self.size_exp + 1) as nat)),
                    ..self
                }
            } else {
                self
            }
        } else if self.should_resize_down_soon() {
            BucketView {
                size_exp: (self.size_exp - 1) as u8,
                current_size: (self.current_size - self.columns.current_dead.len()) as usize,
                columns: self.columns.compacted(pow2((self.size_exp - 1) as nat)),
                ..self
            }
        } else {
            self
        }
    }

    /// Whether the bucket cannot take a projectile that asks for slot
    /// `idx`: its identifiers are used up, or the projectile would have to
    /// go behind the slots in use and the bucket is full at its greatest
    /// size.
    pub open spec fn refuses(self, idx: Option<usize>) -> bool {
        self.next_dan_identifier == i64::MAX || (!self.reusable(idx) && self.size_exp
            == MAX_SIZE_EXP && self.current_size == self.capacity())
    }

    /// Whether the bucket grows before it takes a projectile that asks for
    /// slot `idx`: the projectile goes behind the slots in use, that
    /// leaves too little room, and the bucket can still grow.
    pub open spec fn grows_for(self, idx: Option<usize>) -> bool {
        !self.reusable(idx) && self.must_resize_before_add(1) && self.size_exp < MAX_SIZE_EXP
    }

    /// The slot that a projectile goes to that asks for slot `idx`: that
    /// slot where it can be taken over, and else the first slot behind
    /// those in use.
    pub open spec fn slot_for(self, idx: Option<usize>) -> int {
        if self.reusable(idx) {
            idx->0 as int
        } else {
            self.current_size as int
        }
    }

    /// The identifier of the next projectile of this bucket.
    pub open spec fn next_id(self) -> i128 {
        make_id(self.identifier as int, self.next_dan_identifier as int) as i128
    }

    /// This bucket after it has taken the projectile that `danmaku`
    /// describes, which asks for slot `idx`.
    pub open spec fn inserted(self, danmaku: DanmakuSpawnData, idx: Option<usize>) -> BucketView<A> {
        let grown = if self.grows_for(idx) {
            self.resized(true)
        } else {
            self
        };
        BucketView {
            next_dan_identifier: (self.next_dan_identifier + 1) as i64,
            current_size: if self.reusable(idx) {
                self.current_size
            } else {
                (self.current_size + 1) as usize
            },
            columns: grown.columns.with_danmaku(self.slot_for(idx), danmaku, self.next_id()),
            ..grown
        }
    }

    /// Whether this bucket is `before` some steps later: the same bucket,
    /// with no fewer slots in use, no smaller store and no earlier count.
    pub open spec fn follows(self, before: BucketView<A>) -> bool {
        &&& self.identifier == before.identifier
        &&& self.signature == before.signature
        &&& self.behaviors == before.behaviors
        &&& self.always_keep == before.always_keep
        &&& self.next_dan_identifier >= before.next_dan_identifier
        &&& self.current_size >= before.current_size
        &&& self.size_exp >= before.size_exp
    }

    /// Whether the bucket stays when the buckets are cleaned up: it is to
    /// be kept always, or it holds a live projectile.
    pub open spec fn stays(self) -> bool {
        self.always_keep || self.count() > 0
    }

    /// The bucket under `identifier` for the projectiles that run
    /// `behaviors`, as it is made: 128 slots, none in use, with the columns
    /// allocated that its behaviors want.
    pub open spec fn fresh(
        identifier: i64,
        behaviors: Seq<Rc<Behavior<A>>>,
        always_keep: bool,
        widths: LaneWidths,
    ) -> BucketView<A> {
        BucketView {
            always_keep,
            identifier,
            next_dan_identifier: 0,
            size_exp: MIN_SIZE_EXP,
            current_size: 0,
            signature: Seq::new(behaviors.len(), |k: int| behaviors[k].identifier),
            behaviors,
            columns: ColumnsView::fresh(
                Set::new(|kind: StandardDataColumns| wanted(behaviors, kind)),
                128,
                widths,
            ),
        }
    }

    /// The bucket is sized by its exponent, between 128 and 2³¹ slots; the
    /// slots in use fit, and no slot beyond them is dead; the store
    /// allocates the columns that the behaviors want, and no other.
    pub open spec fn wf(self) -> bool {
        &&& MIN_SIZE_EXP <= self.size_exp <= MAX_SIZE_EXP
        &&& self.columns.wf()
        &&& self.columns.capacity == self.capacity()
        &&& self.current_size <= self.columns.capacity
        &&& self.columns.quiet_from(self.current_size as int)
        &&& 0 <= self.next_dan_identifier
        &&& self.signature.len() == self.behaviors.len()
        &&& forall|k: int|
            0 <= k < self.behaviors.len() ==> (#[trigger] self.behaviors[k]).wf()
                && self.signature[k] == self.behaviors[k].identifier
        &&& forall|kind: StandardDataColumns|
            self.columns.required.contains(kind) <==> wanted(self.behaviors, kind)
    }
}

/// Whether one of `behaviors` wants the columns of `kind` allocated.
pub open spec fn wanted<A>(behaviors: Seq<Rc<Behavior<A>>>, kind: StandardDataColumns) -> bool {
    exists|k: int|
        0 <= k < behaviors.len() && (#[trigger] behaviors[k]).required_columns@.contains(kind)
}

/// The projectiles that share one behavior signature.
pub struct DanmakuBehaviorHandler<A> {
    always_keep: bool,
    identifier: i64,
    next_dan_identifier: i64,
    size_exp: u8,
    current_size: usize,
    signature: Vec<&'static str>,
    behaviors: Vec<Rc<Behavior<A>>>,
    columns: StandardColumns,
}

impl<A: Act> View for DanmakuBehaviorHandler<A> {
    type V = BucketView<A>;

    closed spec fn view(&self) -> BucketView<A> {
        BucketView {
            always_keep: self.always_keep,
            identifier: self.identifier,
            next_dan_identifier: self.next_dan_identifier,
            size_exp: self.size_exp,
            current_size: self.current_size,
            signature: self.signature@,
            behaviors: self.behaviors@,
            columns: self.columns@,
        }
    }
}

/// 2 to the power of each size exponent fits the machine's word, with room
/// for one more block of lanes.
pub proof fn lemma_capacity_fits(size_exp: u8)
    requires
        size_exp <= MAX_SIZE_EXP,
    ensures
        pow2(size_exp as nat) + MAX_LANES <= usize::MAX,
        pow2(size_exp as nat) <= 0x8000_0000,
        size_exp >= MIN_SIZE_EXP ==> pow2(size_exp as nat) >= 128,
{
    lemma2_to64();
    if size_exp < MAX_SIZE_EXP {
        lemma_pow2_strictly_increases(size_exp as nat, MAX_SIZE_EXP as nat);
    }
    if size_exp > MIN_SIZE_EXP {
        lemma_pow2_strictly_increases(MIN_SIZE_EXP as nat, size_exp as nat);
    }
}

impl<A: Act> DanmakuBehaviorHandler<A> {
    /// The bucket is what its view says, over a store that is laid out as
    /// its own view says.
    pub open spec fn wf(&self) -> bool {
        self@.wf() && self.store_wf()
    }

    /// The store of the bucket is well-formed.
    pub closed spec fn store_wf(&self) -> bool {
        self.columns.wf()
    }

    /// A bucket under `identifier` for the projectiles that run
    /// `behaviors`, in that order. It starts with 128 slots, none in use,
    /// and allocates the columns that its behaviors want.
    pub fn new(
        identifier: i64,
        behaviors: Vec<Rc<Behavior<A>>>,
        always_keep: bool,
        widths: LaneWidths,
    ) -> (bucket: Self)
        requires
            widths.wf(),
            forall|k: int| 0 <= k < behaviors@.len() ==> (#[trigger] behaviors@[k]).wf(),
        ensures
            bucket.wf(),
            bucket@ == BucketView::fresh(identifier, behaviors@, always_keep, widths),
            bucket@.current_size == 0,
            bucket@.size_exp == 7,
            bucket@.columns.capacity == 128,
            forall|kind: StandardDataColumns|
                bucket@.columns.required.contains(kind) <==> wanted(behaviors@, kind),
            forall|k: int, kind: StandardDataColumns|
                0 <= k < behaviors@.len() && (#[trigger] behaviors@[k]).required_columns@.contains(
                    kind,
                ) ==> #[trigger] bucket@.columns.required.contains(kind),
            forall|field: ScalarField|
                bucket@.columns.required.contains(field.kind()) ==> (#[trigger] bucket@.columns.scalar(
                    field,
                )).len() >= 128,
            forall|field: ColorField|
                bucket@.columns.required.contains(field.kind()) ==> (#[trigger] bucket@.columns.color(
                    field,
                )).len() >= 128,
            forall|field: QuatField|
                bucket@.columns.required.contains(field.kind()) ==> (#[trigger] bucket@.columns.quat(
                    field,
                )).len() == 128,
    {
        let mut required = ColumnSet::empty();
        let mut signature: Vec<&'static str> = Vec::new();
        let mut k: usize = 0;
        while k < behaviors.len()
            invariant
                k <= behaviors@.len(),
                signature@.len() == k,
                forall|j: int| 0 <= j < k ==> #[trigger] signature@[j] == behaviors@[j].identifier,
                forall|kind: StandardDataColumns|
                    required@.contains(kind) <==> wanted(behaviors@.take(k as int), kind),
            decreases behaviors@.len() - k,
        {
            let ghost before = required@;
            required = required.union(behaviors[k].required_columns);
            signature.push(behaviors[k].identifier);
            proof {
                let seen = behaviors@.take(k as int);
                let more = behaviors@.take(k + 1);
                assert forall|kind: StandardDataColumns|
                    required@.contains(kind) <==> wanted(more, kind) by {
                    if wanted(seen, kind) {
                        let j = choose|j: int|
                            0 <= j < seen.len() && (#[trigger] seen[j]).required_columns@.contains(
                                kind,
                            );
                        assert(more[j].required_columns@.contains(kind));
                    }
                    if behaviors@[k as int].required_columns@.contains(kind) {
                        assert(more[k as int].required_columns@.contains(kind));
                    }
                    if wanted(more, kind) {
                        let j = choose|j: int|
                            0 <= j < more.len() && (#[trigger] more[j]).required_columns@.contains(
                                kind,
                            );
                        if j < k {
                            assert(seen[j].required_columns@.contains(kind));
                        }
                    }
                }
            }
            k += 1;
        }
        proof {
            assert(behaviors@.take(k as int) == behaviors@);
            lemma_capacity_fits(MIN_SIZE_EXP);
            lemma2_to64();
            crate::columns::lemma_fresh_wf(required@, 128, widths);
        }
        let columns = StandardColumns::new(128, required, widths);
        proof {
            crate::columns::lemma_lane_packing(columns@);
            assert(required@ =~= Set::new(|kind: StandardDataColumns| wanted(behaviors@, kind)));
            assert(signature@ =~= Seq::new(
                behaviors@.len(),
                |k: int| behaviors@[k].identifier,
            ));
        }
        DanmakuBehaviorHandler {
            always_keep,
            identifier,
            next_dan_identifier: 0,
            size_exp: MIN_SIZE_EXP,
            current_size: 0,
            signature,
            behaviors,
            columns,
        }
    }

    /// The identifier of the bucket.
    pub fn identifier(&self) -> (identifier: i64)
        ensures
            identifier == self@.identifier,
    {
        self.identifier
    }

    /// Whether the bucket stays when it holds no live projectile.
    pub fn always_keep(&self) -> (keep: bool)
        ensures
            keep == self@.always_keep,
    {
        self.always_keep
    }

    /// The identifiers of the behaviors, in the order in which they run.
    pub fn signature(&self) -> (signature: &Vec<&'static str>)
        ensures
            signature@ == self@.signature,
    {
        &self.signature
    }

    /// The store.
    pub fn columns(&self) -> (columns: &StandardColumns)
        ensures
            columns@ == self@.columns,
            self.wf() ==> columns.wf(),
    {
        &self.columns
    }

    /// The number of slots in use.
    pub fn current_size(&self) -> (size: usize)
        ensures
            size == self@.current_size,
    {
        self.current_size
    }

    /// The number of slots.
    pub fn current_max_size(&self) -> (capacity: usize)
        requires
            self.wf(),
        ensures
            capacity == self@.capacity(),
            capacity >= 128,
    {
        proof {
            lemma_capacity_fits(self.size_exp);
        }
        self.columns.capacity()
    }

    /// The number of dead projectiles.
    pub fn dead(&self) -> (dead: usize)
        ensures
            dead == self@.columns.current_dead.len(),
    {
        self.columns.current_dead_len()
    }

    /// The number of live projectiles.
    pub fn count(&self) -> (count: usize)
        requires
            self.wf(),
        ensures
            count == self@.count(),
    {
        proof {
            lemma_dead_slots_fit(self@.columns, self@.current_size as int);
        }
        self.current_size - self.dead()
    }

    /// Whether the bucket stays when the buckets are cleaned up.
    pub fn stays(&self) -> (stays: bool)
        requires
            self.wf(),
        ensures
            stays == self@.stays(),
    {
        self.always_keep || self.count() > 0
    }

    /// The count that the next projectile takes its identifier from.
    pub fn next_dan_identifier(&self) -> (next: i64)
        ensures
            next == self@.next_dan_identifier,
    {
        self.next_dan_identifier
    }

    /// Whether the bucket is close to full.
    pub fn should_resize_up_soon(&self) -> (soon: bool)
        requires
            self.wf(),
        ensures
            soon == self@.should_resize_up_soon(),
    {
        if self.size_exp > 30 {
            return false;
        }
        proof {
            lemma_capacity_fits(self.size_exp);
        }
        let max = self.current_max_size() as u64;
        10 * (self.current_size as u64) > 9 * max
    }

    /// Whether the bucket could do with half its capacity.
    pub fn should_resize_down_soon(&self) -> (soon: bool)
        requires
            self.wf(),
        ensures
            soon == self@.should_resize_down_soon(),
    {
        if self.size_exp < 8 {
            return false;
        }
        proof {
            lemma_capacity_fits(self.size_exp);
        }
        let step_down_max_size = (self.current_max_size() / 2) as u64;
        if self.current_size as u64 > step_down_max_size {
            return false;
        }
        let surplus_if_step_down = step_down_max_size - self.current_size as u64;
        10 * surplus_if_step_down > step_down_max_size
    }

    /// Whether an insertion of `length` projectiles behind the slots in
    /// use has to grow the bucket first.
    pub fn must_resize_before_add(&self, length: usize) -> (must: bool)
        requires
            self.wf(),
        ensures
            must == self@.must_resize_before_add(length as int),
    {
        proof {
            lemma_capacity_fits(self.size_exp);
        }
        let max = self.current_max_size() as u128;
        let reserve = (max + 9) / 10;
        self.current_size as u128 + length as u128 > max - reserve
    }

    /// Takes one step of the capacity policy. A forced step, or one on a
    /// bucket close to full, doubles the capacity. Otherwise a bucket that
    /// could do with half its capacity is compacted into it. Otherwise
    /// nothing changes.
    pub fn resize(&mut self, force_up: bool)
        requires
            old(self).wf(),
        ensures
            final(self).wf(),
            final(self)@ == old(self)@.resized(force_up),
    {
        proof {
            lemma_resized_bucket_wf(self@, force_up);
            lemma_capacity_fits(self.size_exp);
        }
        if force_up || self.should_resize_up_soon() {
            if self.size_exp < MAX_SIZE_EXP {
                proof {
                    lemma_capacity_fits((self.size_exp + 1) as u8);
                    lemma_pow2_unfold((self.size_exp + 1) as nat);
                }
                let capacity = self.current_max_size() * 2;
                self.size_exp += 1;
                self.columns.resize(capacity);
            }
        } else if self.should_resize_down_soon() {
            proof {
                lemma_capacity_fits((self.size_exp - 1) as u8);
                lemma_pow2_unfold(self.size_exp as nat);
                lemma_dead_slots_fit(self@.columns, self@.current_size as int);
            }
            let dead = self.dead();
            let capacity = self.current_max_size() / 2;
            self.size_exp -= 1;
            self.columns.compact(capacity);
            self.current_size -= dead;
        }
    }

    /// Takes the projectile that `danmaku` describes into the bucket and
    /// hands back its children, each with the new projectile as its
    /// parent.
    ///
    /// The projectile goes to slot `idx` where that slot is dead, and else
    /// behind the slots in use, for which the bucket grows first where
    /// that would leave less than a tenth of it free. It gets the next
    /// identifier of the bucket, under which its family depth and its
    /// parent are recorded.
    ///
    /// A bucket whose identifiers are used up, or that is full at its
    /// greatest size, takes nothing and hands `danmaku` back.
    pub fn add_danmaku_with_preffered_index(
        &mut self,
        danmaku: DanmakuSpawnData,
        idx: Option<usize>,
        global_family_depth_map: &mut HashMap<i128, i16>,
        global_parent_map: &mut HashMap<i128, i128>,
    ) -> (result: Result<Vec<DanmakuSpawnData>, DanmakuSpawnData>)
        requires
            old(self).wf(),
        ensures
            final(self).wf(),
            old(self)@.refuses(idx) <==> result is Err,
            result matches Err(refused) ==> {
                &&& refused == danmaku
                &&& final(self)@ == old(self)@
                &&& final(global_family_depth_map)@ == old(global_family_depth_map)@
                &&& final(global_parent_map)@ == old(global_parent_map)@
            },
            result matches Ok(children) ==> {
                &&& final(self)@ == old(self)@.inserted(danmaku, idx)
                &&& final(self)@.columns.id[old(self)@.slot_for(idx)] == make_id(
                    old(self)@.identifier as int,
                    old(self)@.next_dan_identifier as int,
                )
                &&& final(self)@.next_dan_identifier == old(self)@.next_dan_identifier + 1
                &&& children@.len() == danmaku.children@.len()
                &&& forall|k: int|
                    0 <= k < children@.len() ==> #[trigger] children@[k] == (DanmakuSpawnData {
                        parent: Some(old(self)@.next_id()),
                        ..danmaku.children@[k]
                    })
                &&& final(global_family_depth_map)@ == old(global_family_depth_map)@.insert(
                    old(self)@.next_id(),
                    danmaku.family_depth,
                )
                &&& final(global_parent_map)@ == match danmaku.parent {
                    Some(parent) => old(global_parent_map)@.insert(old(self)@.next_id(), parent),
                    None => old(global_parent_map)@,
                }
            },
    {
        let ghost before = self@;
        proof {
            lemma_capacity_fits(self.size_exp);
        }
        let reuse = match idx {
            Some(i) => i < self.columns.capacity() && self.columns.dead(i),
            None => false,
        };
        if self.next_dan_identifier == i64::MAX {
            return Err(danmaku);
        }
        if !reuse && self.size_exp == MAX_SIZE_EXP && self.current_size
            == self.current_max_size() {
            return Err(danmaku);
        }
        let i = match idx {
            Some(i) => if reuse {
                i
            } else {
                self.current_size
            },
            None => self.current_size,
        };
        if !reuse && self.must_resize_before_add(1) && self.size_exp < MAX_SIZE_EXP {
            self.resize(true);
        }
        let ghost grown = self@;
        proof {
            lemma_resized_bucket_wf(before, true);
            lemma_capacity_fits(self.size_exp);
            if before.grows_for(idx) {
                lemma_pow2_strictly_increases(before.size_exp as nat, grown.size_exp as nat);
            }
            crate::columns::lemma_with_danmaku_shape(
                grown.columns,
                i as int,
                danmaku,
                before.next_id(),
            );
        }
        let this_id: i128 = (self.identifier as i128) * ID_STRIDE + (
        self.next_dan_identifier as i128);
        let parent = danmaku.parent;
        let family_depth = danmaku.family_depth;
        let mut children = self.columns.add_danmaku_at_idx(i, danmaku, this_id);
        self.next_dan_identifier += 1;
        if !reuse {
            self.current_size += 1;
        }
        let n = children.len();
        let mut k: usize = 0;
        while k < n
            invariant
                k <= n,
                n == danmaku.children@.len(),
                children@.len() == n,
                forall|j: int|
                    0 <= j < k ==> #[trigger] children@[j] == (DanmakuSpawnData {
                        parent: Some(this_id),
                        ..danmaku.children@[j]
                    }),
                forall|j: int| k <= j < n ==> children@[j] == danmaku.children@[j],
            decreases n - k,
        {
            children[k].parent = Some(this_id);
            k += 1;
        }
        match parent {
            Some(parent_id) => {
                global_parent_map.insert(this_id, parent_id);
            },
            None => {},
        }
        global_family_depth_map.insert(this_id, family_depth);
        Ok(children)
    }

    /// Runs the behaviors of the bucket in their order on the slots in
    /// use, and hands over the spawns they ask for.
    pub fn tick(&mut self) -> (spawns: Vec<(DanmakuSpawnData, Option<usize>)>)
        requires
            old(self).wf(),
        ensures
            final(self).wf(),
            final(self)@ == (BucketView { columns: final(self)@.columns, ..old(self)@ }),
            final(self)@.columns.shaped_like(old(self)@.columns),
            final(self)@.columns.add_spawns.len() == 0,
            ran(
                old(self)@.behaviors,
                old(self)@.behaviors.len() as int,
                old(self)@.columns,
                ColumnsView { add_spawns: spawns@, ..final(self)@.columns },
                old(self)@.current_size as int,
            ),
            forall|registered: Set<Seq<char>>|
                old(self)@.columns.asks_only(registered) ==> #[trigger] final(self)@.columns.asks_only(registered) && forall|k: int|
                    0 <= k < spawns@.len() ==> (#[trigger] spawns@[k]).0.all_known(registered),
    {
        let ghost before = self@;
        let n = self.behaviors.len();
        let mut k: usize = 0;
        while k < n
            invariant
                k <= n,
                n == before.behaviors.len(),
                before.wf(),
                self.columns.wf(),
                self@ == (BucketView { columns: self@.columns, ..before }),
                self@.columns.shaped_like(before.columns),
                self@.columns.quiet_from(before.current_size as int),
                ran(before.behaviors, k as int, before.columns, self@.columns, before.current_size as int),
                forall|registered: Set<Seq<char>>|
                    before.columns.asks_only(registered) ==> #[trigger] self@.columns.asks_only(
                        registered,
                    ),
            decreases n - k,
        {
            let ghost mid = self@.columns;
            proof {
                assert(before.behaviors[k as int].wf());
                assert forall|kind: StandardDataColumns|
                    before.behaviors[k as int].act.needs().contains(
                        kind,
                    ) implies before.columns.required.contains(kind) by {
                    assert(before.behaviors[k as int].required_columns@.contains(kind));
                    assert(wanted(before.behaviors, kind));
                }
            }
            self.behaviors[k].act.act(&mut self.columns, self.current_size);
            k += 1;
            proof {
                let size = before.current_size as int;
                crate::behavior::lemma_ran_step(
                    before.behaviors,
                    k as int,
                    before.columns,
                    mid,
                    self@.columns,
                    size,
                );
            }
        }
        let ghost acted = self@.columns;
        let spawns = self.columns.grab_new_spawns();
        proof {
            assert(acted =~~= (ColumnsView { add_spawns: spawns@, ..self@.columns }));
            assert forall|registered: Set<Seq<char>>|
                before.columns.asks_only(registered) implies #[trigger] self@.columns.asks_only(
                registered,
            ) && forall|k: int|
                0 <= k < spawns@.len() ==> (#[trigger] spawns@[k]).0.all_known(registered) by {
                assert(acted.asks_only(registered));
                assert(self@.columns.next_stage == acted.next_stage);
            }
        }
        spawns
    }

    /// Computes anew, for `partial_ticks` between the previous tick and
    /// the current one, the local transform of each live projectile.
    pub fn compute_transform_mats<N: Numerics>(&mut self, numerics: &N, partial_ticks: Scalar)
        requires
            old(self).wf(),
        ensures
            final(self).wf(),
            final(self)@ == (BucketView { columns: final(self)@.columns, ..old(self)@ }),
            transforms_computed(
                numerics,
                old(self)@.columns,
                final(self)@.columns,
                old(self)@.current_size as int,
                partial_ticks,
            ),
    {
        crate::render::compute_transform_mats(
            numerics,
            &mut self.columns,
            self.current_size,
            partial_ticks,
        );
    }

    /// Computes the local transforms for `partial_ticks` and gives out
    /// what the frame shows of the bucket: one entry for each live
    /// projectile, in model space, under its identifier.
    pub fn compute_and_get_render_data<N: Numerics>(
        &mut self,
        numerics: &N,
        partial_ticks: Scalar,
    ) -> (data: Vec<(i128, RenderData)>)
        requires
            old(self).wf(),
        ensures
            final(self).wf(),
            final(self)@ == (BucketView { columns: final(self)@.columns, ..old(self)@ }),
            transforms_computed(
                numerics,
                old(self)@.columns,
                final(self)@.columns,
                old(self)@.current_size as int,
                partial_ticks,
            ),
            rendered(
                numerics,
                final(self)@.columns,
                data@,
                old(self)@.current_size as int,
                partial_ticks,
            ),
    {
        crate::render::compute_and_get_render_data(
            numerics,
            &mut self.columns,
            self.current_size,
            partial_ticks,
        )
    }
}

/// The dead slots are no more than the slots in use.
pub proof fn lemma_dead_slots_fit(v: ColumnsView, size: int)
    requires
        v.wf(),
        0 <= size <= v.capacity,
        v.quiet_from(size),
    ensures
        v.current_dead.len() <= size,
{
    assert forall|k: int| 0 <= k < v.current_dead.len() implies (#[trigger] v.current_dead[k])
        < size by {
        let slot = v.current_dead[k];
        assert(v.current_dead.contains(slot));
        assert(v.dead[slot as int]);
    }
    lemma_slots_fit(v.current_dead, size as nat);
}

/// A list of slots below `n` without repetition has at most `n` slots.
pub proof fn lemma_slots_fit(slots: Seq<usize>, n: nat)
    requires
        slots.no_duplicates(),
        forall|k: int| 0 <= k < slots.len() ==> (#[trigger] slots[k]) < n,
    ensures
        slots.len() <= n,
    decreases n,
{
    if slots.len() > 0 {
        assert(slots[0] < n);
        let top = (n - 1) as usize;
        if slots.contains(top) {
            let at = choose|j: int| 0 <= j < slots.len() && slots[j] == top;
            let rest = slots.remove(at);
            assert forall|k: int| 0 <= k < rest.len() implies (#[trigger] rest[k]) < n - 1 by {
                if k < at {
                    assert(rest[k] == slots[k]);
                } else {
                    assert(rest[k] == slots[k + 1]);
                }
            }
            assert(rest.no_duplicates()) by {
                assert forall|a: int, b: int|
                    0 <= a < rest.len() && 0 <= b < rest.len() && a != b implies rest[a]
                    != rest[b] by {
                    let a0 = if a < at {
                        a
                    } else {
                        a + 1
                    };
                    let b0 = if b < at {
                        b
                    } else {
                        b + 1
                    };
                    assert(rest[a] == slots[a0] && rest[b] == slots[b0]);
                }
            }
            lemma_slots_fit(rest, (n - 1) as nat);
        } else {
            assert forall|k: int| 0 <= k < slots.len() implies (#[trigger] slots[k]) < n - 1 by {
                assert(slots.contains(slots[k]));
            }
            lemma_slots_fit(slots, (n - 1) as nat);
        }
    }
}

/// A well-formed bucket stays well-formed through a resize step.
pub proof fn lemma_resized_bucket_wf<A: Act>(v: BucketView<A>, force_up: bool)
    requires
        v.wf(),
    ensures
        v.resized(force_up).wf(),
        v.resized(force_up).columns.required == v.columns.required,
{
    lemma_capacity_fits(v.size_exp);
    if force_up || v.should_resize_up_soon() {
        if v.size_exp < MAX_SIZE_EXP {
            lemma_capacity_fits((v.size_exp + 1) as u8);
            lemma_pow2_unfold((v.size_exp + 1) as nat);
            crate::columns::lemma_resized_wf(v.columns, pow2((v.size_exp + 1) as nat));
        }
    } else if v.should_resize_down_soon() {
        lemma_capacity_fits((v.size_exp - 1) as u8);
        lemma_pow2_unfold(v.size_exp as nat);
        lemma_dead_slots_fit(v.columns, v.current_size as int);
        crate::columns::lemma_compacted_wf(v.columns, pow2((v.size_exp - 1) as nat));
    }
}

/// A bucket as it is made is well-formed, and refuses no projectile.
pub proof fn lemma_fresh_bucket_wf<A: Act>(
    identifier: i64,
    behaviors: Seq<Rc<Behavior<A>>>,
    always_keep: bool,
    widths: LaneWidths,
)
    requires
        widths.wf(),
        forall|k: int| 0 <= k < behaviors.len() ==> (#[trigger] behaviors[k]).wf(),
    ensures
        BucketView::fresh(identifier, behaviors, always_keep, widths).wf(),
        !BucketView::fresh(identifier, behaviors, always_keep, widths).refuses(None),
        forall|slot: usize|
            !BucketView::fresh(identifier, behaviors, always_keep, widths).refuses(Some(slot)),
{
    lemma_capacity_fits(MIN_SIZE_EXP);
    lemma2_to64();
    crate::columns::lemma_fresh_wf(
        Set::new(|kind: StandardDataColumns| wanted(behaviors, kind)),
        128,
        widths,
    );
}

/// A bucket that has taken a projectile is well-formed; it has its
/// identifier, its signature and its behaviors, and has passed one count
/// more.
pub proof fn lemma_inserted_wf<A: Act>(
    v: BucketView<A>,
    danmaku: DanmakuSpawnData,
    idx: Option<usize>,
)
    requires
        v.wf(),
        !v.refuses(idx),
    ensures
        v.inserted(danmaku, idx).wf(),
        v.inserted(danmaku, idx).identifier == v.identifier,
        v.inserted(danmaku, idx).signature == v.signature,
        v.inserted(danmaku, idx).behaviors == v.behaviors,
        v.inserted(danmaku, idx).always_keep == v.always_keep,
        v.inserted(danmaku, idx).next_dan_identifier == v.next_dan_identifier + 1,
        v.inserted(danmaku, idx).current_size >= v.current_size,
        v.inserted(danmaku, idx).size_exp >= v.size_exp,
{
    lemma_capacity_fits(v.size_exp);
    lemma_resized_bucket_wf(v, true);
    let grown = if v.grows_for(idx) {
        v.resized(true)
    } else {
        v
    };
    lemma_capacity_fits(grown.size_exp);
    if v.grows_for(idx) {
        lemma_pow2_strictly_increases(v.size_exp as nat, grown.size_exp as nat);
    }
    let slot = v.slot_for(idx);
    crate::columns::lemma_with_danmaku_wf(grown.columns, slot, danmaku, v.next_id());
}

/// In a bucket, every behavior finds the columns it wants: each is
/// allocated, with a row for every slot.
pub proof fn lemma_behaviors_find_their_columns<A: Act>(
    v: BucketView<A>,
    k: int,
    kind: StandardDataColumns,
)
    requires
        v.wf(),
        0 <= k < v.behaviors.len(),
        v.behaviors[k].required_columns@.contains(kind),
    ensures
        v.columns.required.contains(kind),
        v.behaviors[k].act.needs().subset_of(v.columns.required),
        forall|field: ScalarField|
            field.kind() == kind ==> (#[trigger] v.columns.scalar(field)).len()
                >= v.columns.capacity,
        forall|field: ColorField|
            field.kind() == kind ==> (#[trigger] v.columns.color(field)).len()
                >= v.columns.capacity,
        forall|field: QuatField|
            field.kind() == kind ==> (#[trigger] v.columns.quat(field)).len()
                == v.columns.capacity,
        kind == StandardDataColumns::Appearance ==> v.columns.form.len() == v.columns.capacity
            && v.columns.render_properties.len() == v.columns.capacity,
{
    assert(wanted(v.behaviors, kind));
    assert(v.behaviors[k].wf());
    assert forall|other: StandardDataColumns|
        v.behaviors[k].act.needs().contains(other) implies v.columns.required.contains(other) by {
        assert(v.behaviors[k].required_columns@.contains(other));
        assert(wanted(v.behaviors, other));
    }
    crate::columns::lemma_lane_packing(v.columns);
}

/// The capacity of a bucket is a power of two, and at least 128.
pub proof fn lemma_capacity_is_power_of_two<A: Act>(v: BucketView<A>)
    requires
        v.wf(),
    ensures
        v.columns.capacity == pow2(v.size_exp as nat),
        v.columns.capacity >= 128,
        v.current_size <= v.columns.capacity,
{
    lemma_capacity_fits(v.size_exp);
}

/// A resize step takes slots out of use only where it compacts: where the
/// slots in use go down, the step was not forced, the bucket could do
/// with half its capacity, the store is the old one compacted, and no
/// slot is dead.
pub proof fn lemma_size_shrinks_by_compaction_alone<A: Act>(v: BucketView<A>, force_up: bool)
    requires
        v.wf(),
        v.resized(force_up).current_size < v.current_size,
    ensures
        !force_up,
        v.should_resize_down_soon(),
        v.resized(force_up).columns == v.columns.compacted(pow2((v.size_exp - 1) as nat)),
        v.resized(force_up).current_size == v.count(),
        forall|i: int|
            0 <= i < v.resized(force_up).columns.capacity ==> !(#[trigger] v.resized(
                force_up,
            ).columns.dead[i]),
{
    lemma_capacity_fits((v.size_exp - 1) as u8);
    lemma_dead_slots_fit(v.columns, v.current_size as int);
    crate::columns::lemma_compacted_wf(v.columns, pow2((v.size_exp - 1) as nat));
}

/// A bucket that takes a projectile takes in the names of its next stages
/// and no other.
pub proof fn lemma_inserted_asks_only<A: Act>(
    v: BucketView<A>,
    danmaku: DanmakuSpawnData,
    idx: Option<usize>,
    registered: Set<Seq<char>>,
)
    requires
        v.wf(),
        !v.refuses(idx),
        v.columns.asks_only(registered),
        danmaku.all_known(registered),
    ensures
        v.inserted(danmaku, idx).columns.asks_only(registered),
{
    lemma_capacity_fits(v.size_exp);
    lemma_resized_bucket_wf(v, true);
    let grown = if v.grows_for(idx) {
        v.resized(true)
    } else {
        v
    };
    lemma_capacity_fits(grown.size_exp);
    if v.grows_for(idx) {
        lemma_pow2_strictly_increases(v.size_exp as nat, grown.size_exp as nat);
        crate::columns::lemma_resized_asks_only(
            v.columns,
            pow2((v.size_exp + 1) as nat),
            registered,
        );
    }
    crate::columns::lemma_with_danmaku_asks_only(
        grown.columns,
        v.slot_for(idx),
        danmaku,
        v.next_id(),
        registered,
    );
}

} // verus!
