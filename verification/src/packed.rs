//! Column storage: dense columns, lane-packed columns, and the two
//! operations that change a column's length.
//!
//! A lane-packed column keeps its rows in blocks of `width` lanes, the
//! host's vector width for the element type. Row `i` is lane `i % width` of
//! block `i / width`; the column always holds whole blocks. Where the
//! number of slots is no multiple of the width, the rows behind the last
//! slot pad the last block: whoever changes the column's length says how
//! many slots it holds, and what the rows behind them held is dropped.

use vstd::arithmetic::div_mod::{lemma_fundamental_div_mod, lemma_mod_multiples_basic};
use vstd::prelude::*;

verus! {

/// The number of blocks of `width` lanes that hold `capacity` rows.
pub open spec fn ceil_div(capacity: nat, width: nat) -> nat {
    if width == 0 {
        0
    } else {
        ((capacity + width - 1) / (width as int)) as nat
    }
}

/// The rows that a compaction keeps, in their order: those whose flag in
/// `dead` is not set. A row without a flag is kept.
pub open spec fn kept<T>(rows: Seq<T>, dead: Seq<bool>) -> Seq<T>
    decreases rows.len(),
{
    if rows.len() == 0 {
        Seq::empty()
    } else {
        let last = rows.len() - 1;
        let before = kept(rows.drop_last(), dead);
        if last < dead.len() && dead[last] {
            before
        } else {
            before.push(rows[last])
        }
    }
}

/// The number of flags set among the first `n` of `dead`.
pub open spec fn count_dead(dead: Seq<bool>, n: nat) -> nat
    decreases n,
{
    if n == 0 || n > dead.len() {
        0
    } else {
        count_dead(dead, (n - 1) as nat) + if dead[n - 1] {
            1nat
        } else {
            0nat
        }
    }
}

/// `rows` cut down or filled up to `len` rows.
pub open spec fn fitted<T>(rows: Seq<T>, len: nat, fill: T) -> Seq<T> {
    Seq::new(
        len,
        |i: int|
            if i < rows.len() {
                rows[i]
            } else {
                fill
            },
    )
}

/// The lesser of two counts.
pub open spec fn lesser(a: nat, b: nat) -> nat {
    if a < b {
        a
    } else {
        b
    }
}

/// The first `n` of `rows`, or all of them where there are fewer.
pub open spec fn front<T>(rows: Seq<T>, n: nat) -> Seq<T> {
    if n < rows.len() {
        rows.take(n as int)
    } else {
        rows
    }
}

/// A compaction keeps no more rows than there are.
pub proof fn lemma_kept_no_longer<T>(rows: Seq<T>, dead: Seq<bool>)
    ensures
        kept(rows, dead).len() <= rows.len(),
    decreases rows.len(),
{
    if rows.len() > 0 {
        lemma_kept_no_longer(rows.drop_last(), dead);
    }
}

/// A compaction keeps as many rows as were not flagged.
pub proof fn lemma_kept_len<T>(rows: Seq<T>, dead: Seq<bool>)
    requires
        dead.len() <= rows.len(),
    ensures
        kept(rows, dead).len() == rows.len() - count_dead(dead, dead.len()),
    decreases rows.len(),
{
    if rows.len() > 0 {
        let last = rows.len() - 1;
        if last < dead.len() {
            let shorter = dead.drop_last();
            lemma_kept_ignores_later_flags(rows.drop_last(), dead, shorter);
            lemma_kept_len(rows.drop_last(), shorter);
            lemma_count_dead_prefix(dead, shorter, shorter.len());
        } else {
            lemma_kept_len(rows.drop_last(), dead);
        }
    } else {
        assert(dead.len() == 0);
    }
}

/// Flags at or beyond the number of rows do not matter to a compaction.
pub proof fn lemma_kept_ignores_later_flags<T>(rows: Seq<T>, a: Seq<bool>, b: Seq<bool>)
    requires
        forall|i: int| 0 <= i < rows.len() ==> (i < a.len() && a[i]) == (i < b.len() && b[i]),
    ensures
        kept(rows, a) == kept(rows, b),
    decreases rows.len(),
{
    if rows.len() > 0 {
        lemma_kept_ignores_later_flags(rows.drop_last(), a, b);
    }
}

proof fn lemma_count_dead_prefix(a: Seq<bool>, b: Seq<bool>, n: nat)
    requires
        n <= a.len(),
        n <= b.len(),
        forall|i: int| 0 <= i < n ==> a[i] == b[i],
    ensures
        count_dead(a, n) == count_dead(b, n),
    decreases n,
{
    if n > 0 {
        lemma_count_dead_prefix(a, b, (n - 1) as nat);
    }
}

/// The row at position `k` of a compaction is the `k`-th row that was not
/// flagged: rows keep their order, and a kept row comes from a row that was
/// not flagged.
pub proof fn lemma_kept_rows_were_live<T>(rows: Seq<T>, dead: Seq<bool>, k: int) -> (from: int)
    requires
        0 <= k < kept(rows, dead).len(),
    ensures
        0 <= from < rows.len(),
        !(from < dead.len() && dead[from]),
        kept(rows, dead)[k] == rows[from],
        kept(rows.take(from), dead).len() == k,
    decreases rows.len(),
{
    let last = rows.len() - 1;
    let before = kept(rows.drop_last(), dead);
    assert(rows.take(last) == rows.drop_last());
    if !(last < dead.len() && dead[last]) && k == before.len() {
        last
    } else {
        let from = lemma_kept_rows_were_live(rows.drop_last(), dead, k);
        assert(rows.drop_last().take(from) == rows.take(from));
        from
    }
}

/// The length in rows of a lane-packed column of `width` lanes per block
/// that holds `capacity` rows.
pub fn padded_len(capacity: usize, width: usize) -> (len: usize)
    requires
        width >= 1,
        capacity + width <= usize::MAX,
    ensures
        len == ceil_div(capacity as nat, width as nat) * width,
        capacity <= len < capacity + width,
        len % width == 0,
{
    let whole: usize = capacity / width;
    let rest: usize = capacity % width;
    proof {
        lemma_fundamental_div_mod(capacity as int, width as int);
        assert(whole * width == width * whole) by (nonlinear_arith);
    }
    if rest == 0 {
        proof {
            assert(ceil_div(capacity as nat, width as nat) == whole) by (nonlinear_arith)
                requires
                    width >= 1,
                    capacity == width * whole,
                    ceil_div(capacity as nat, width as nat) == (capacity + width - 1) / (
                    width as int),
            ;
            lemma_mod_multiples_basic(whole as int, width as int);
        }
        whole * width
    } else {
        proof {
            assert(ceil_div(capacity as nat, width as nat) == whole + 1) by (nonlinear_arith)
                requires
                    width >= 1,
                    0 < rest < width,
                    capacity == width * whole + rest,
                    ceil_div(capacity as nat, width as nat) == (capacity + width - 1) / (
                    width as int),
            ;
            assert((whole + 1) * width == whole * width + width) by (nonlinear_arith);
            lemma_mod_multiples_basic(whole + 1, width as int);
        }
        (whole + 1) * width
    }
}

/// Cuts `rows` down or fills it up to `len` rows.
pub fn fit<T: Copy>(rows: &mut Vec<T>, len: usize, fill: T)
    ensures
        final(rows)@ == fitted(old(rows)@, len as nat, fill),
{
    rows.truncate(len);
    while rows.len() < len
        invariant
            rows.len() <= len,
            rows.len() < len ==> rows.len() >= old(rows)@.len(),
            rows@ == fitted(old(rows)@, rows.len() as nat, fill),
        decreases len - rows.len(),
    {
        rows.push(fill);
        assert(rows@ =~= fitted(old(rows)@, rows.len() as nat, fill));
    }
    assert(rows@ =~= fitted(old(rows)@, len as nat, fill));
}

/// Cuts a column of lists down or fills it up with empty lists to `len`
/// rows.
pub fn fit_lists<T>(rows: &mut Vec<Vec<T>>, len: usize)
    ensures
        final(rows)@.len() == len,
        forall|i: int| 0 <= i < len && i < old(rows)@.len() ==> final(rows)@[i] == old(rows)@[i],
        forall|i: int|
            old(rows)@.len() <= i < len ==> (#[trigger] final(rows)@[i])@ == Seq::<T>::empty(),
{
    rows.truncate(len);
    while rows.len() < len
        invariant
            rows.len() <= len,
            rows.len() < len ==> rows.len() >= old(rows)@.len(),
            forall|i: int|
                0 <= i < rows.len() && i < old(rows)@.len() ==> rows@[i] == old(rows)@[i],
            forall|i: int|
                old(rows)@.len() <= i < rows.len() ==> (#[trigger] rows@[i])@ == Seq::<T>::empty(),
        decreases len - rows.len(),
    {
        rows.push(Vec::new());
    }
}

/// Removes the rows flagged in `dead`, keeping the others in their order,
/// then cuts the column down or fills it up to `len` rows.
pub fn compact<T: Copy>(rows: &mut Vec<T>, dead: &Vec<bool>, len: usize, fill: T)
    ensures
        final(rows)@ == fitted(kept(old(rows)@, dead@), len as nat, fill),
{
    let mut live: Vec<T> = Vec::new();
    let mut i: usize = 0;
    while i < rows.len()
        invariant
            i <= rows.len(),
            rows@ == old(rows)@,
            live@ == kept(old(rows)@.take(i as int), dead@),
        decreases rows.len() - i,
    {
        let flagged = i < dead.len() && dead[i];
        if !flagged {
            live.push(rows[i]);
        }
        proof {
            assert(old(rows)@.take(i + 1).drop_last() == old(rows)@.take(i as int));
        }
        i += 1;
    }
    assert(old(rows)@.take(i as int) == old(rows)@);
    fit(&mut live, len, fill);
    *rows = live;
}

/// Removes the rows flagged in `dead` from a column of lists, keeping the
/// others in their order, then cuts the column down or fills it up with
/// empty lists to `len` rows.
pub fn compact_lists<T>(rows: &mut Vec<Vec<T>>, dead: &Vec<bool>, len: usize)
    ensures
        final(rows)@.len() == len,
        forall|k: int|
            0 <= k < len && k < kept(old(rows)@, dead@).len() ==> final(rows)@[k] == kept(
                old(rows)@,
                dead@,
            )[k],
        forall|k: int|
            kept(old(rows)@, dead@).len() <= k < len ==> (#[trigger] final(rows)@[k])@ == Seq::<
                T,
            >::empty(),
{
    let mut live: Vec<Vec<T>> = Vec::new();
    let mut i: usize = 0;
    while i < rows.len()
        invariant
            i <= rows.len(),
            rows@.len() == old(rows)@.len(),
            forall|j: int| i <= j < rows@.len() ==> rows@[j] == old(rows)@[j],
            live@ == kept(old(rows)@.take(i as int), dead@),
        decreases rows.len() - i,
    {
        let flagged = i < dead.len() && dead[i];
        if !flagged {
            let mut row: Vec<T> = Vec::new();
            core::mem::swap(&mut rows[i], &mut row);
            live.push(row);
        }
        proof {
            assert(old(rows)@.take(i + 1).drop_last() == old(rows)@.take(i as int));
        }
        i += 1;
    }
    assert(old(rows)@.take(i as int) == old(rows)@);
    fit_lists(&mut live, len);
    *rows = live;
}

/// A column whose rows lie in blocks of `width` lanes.
pub struct PackedColumn<T> {
    width: usize,
    lanes: Vec<T>,
}

impl<T> View for PackedColumn<T> {
    type V = Seq<T>;

    /// The rows of the column, those that pad the last block included.
    closed spec fn view(&self) -> Seq<T> {
        self.lanes@
    }
}

impl<T: Copy> PackedColumn<T> {
    /// The number of lanes in a block.
    pub closed spec fn width(&self) -> nat {
        self.width as nat
    }

    /// The column holds whole blocks of at least one lane.
    pub closed spec fn wf(&self) -> bool {
        self.width >= 1 && self.lanes@.len() % (self.width as nat) == 0
    }

    /// The number of blocks.
    pub open spec fn blocks(&self) -> nat {
        self@.len() / self.width()
    }

    /// The row count of a column of this width that holds `capacity` rows.
    pub open spec fn padded(&self, capacity: nat) -> nat {
        ceil_div(capacity, self.width()) * self.width()
    }

    /// A column that holds nothing: the form of a column that no behavior
    /// needs.
    pub fn unallocated(width: usize) -> (c: Self)
        requires
            width >= 1,
        ensures
            c.wf(),
            c.width() == width,
            c@.len() == 0,
    {
        assert(0nat % (width as nat) == 0) by (nonlinear_arith)
            requires
                width >= 1,
        ;
        PackedColumn { width, lanes: Vec::new() }
    }

    /// A column of `capacity` rows, every lane holding `fill`.
    pub fn filled(capacity: usize, width: usize, fill: T) -> (c: Self)
        requires
            width >= 1,
            capacity + width <= usize::MAX,
        ensures
            c.wf(),
            c.width() == width,
            c@ == Seq::new(c.padded(capacity as nat), |i: int| fill),
            c.blocks() == ceil_div(capacity as nat, width as nat),
    {
        let mut c = PackedColumn { width, lanes: Vec::new() };
        c.resize(0, capacity, fill);
        assert(c@ =~= Seq::new(c.padded(capacity as nat), |i: int| fill));
        c
    }

    /// The number of blocks.
    pub fn len(&self) -> (n: usize)
        requires
            self.wf(),
        ensures
            n == self.blocks(),
    {
        self.lanes.len() / self.width
    }

    /// The number of rows, those that pad the last block included.
    pub fn rows(&self) -> (n: usize)
        ensures
            n == self@.len(),
    {
        self.lanes.len()
    }

    /// The number of lanes in a block.
    pub fn lanes_per_block(&self) -> (w: usize)
        ensures
            w == self.width(),
    {
        self.width
    }

    /// The value of row `i`.
    pub fn get(&self, i: usize) -> (v: T)
        requires
            i < self@.len(),
        ensures
            v == self@[i as int],
    {
        self.lanes[i]
    }

    /// Gives row `i` the value `v`.
    pub fn set(&mut self, i: usize, v: T)
        requires
            i < old(self)@.len(),
        ensures
            final(self)@ == old(self)@.update(i as int, v),
            final(self).width() == old(self).width(),
            final(self).wf() == old(self).wf(),
    {
        self.lanes[i] = v;
    }

    /// Grows or shrinks a column that holds `slots` slots to the blocks
    /// that hold `capacity` slots. The slots that stay keep their value;
    /// every other row holds `fill`, whatever the rows behind the slots
    /// held before.
    pub fn resize(&mut self, slots: usize, capacity: usize, fill: T)
        requires
            old(self).width() >= 1,
            capacity + old(self).width() <= usize::MAX,
        ensures
            final(self).wf(),
            final(self).width() == old(self).width(),
            final(self)@ == fitted(
                front(old(self)@, lesser(slots as nat, capacity as nat)),
                old(self).padded(capacity as nat),
                fill,
            ),
            final(self).blocks() == ceil_div(capacity as nat, old(self).width()),
    {
        let len = padded_len(capacity, self.width);
        let stay = if slots < capacity {
            slots
        } else {
            capacity
        };
        self.lanes.truncate(stay);
        fit(&mut self.lanes, len, fill);
        proof {
            lemma_blocks_of_padded(capacity as nat, self.width as nat);
        }
    }

    /// Removes, from a column that holds `slots` slots, the slots flagged
    /// in `dead`, lane by lane, keeping the others in their order, and
    /// repacks them into the blocks that hold `capacity` slots. Rows past
    /// the kept slots hold `fill`, whatever the rows behind the slots held
    /// before.
    pub fn compact(&mut self, dead: &Vec<bool>, slots: usize, capacity: usize, fill: T)
        requires
            old(self).width() >= 1,
            capacity + old(self).width() <= usize::MAX,
        ensures
            final(self).wf(),
            final(self).width() == old(self).width(),
            final(self)@ == fitted(
                front(kept(front(old(self)@, slots as nat), dead@), capacity as nat),
                old(self).padded(capacity as nat),
                fill,
            ),
            final(self).blocks() == ceil_div(capacity as nat, old(self).width()),
    {
        let len = padded_len(capacity, self.width);
        self.lanes.truncate(slots);
        assert(self.lanes@ =~= front(old(self)@, slots as nat));
        compact(&mut self.lanes, dead, capacity, fill);
        fit(&mut self.lanes, len, fill);
        proof {
            lemma_blocks_of_padded(capacity as nat, self.width as nat);
            lemma_padded_covers(capacity as nat, self.width as nat);
            let live = kept(front(old(self)@, slots as nat), dead@);
            let cut = fitted(live, capacity as nat, fill);
            assert(self.lanes@ == fitted(cut, len as nat, fill));
            assert(self.lanes@ =~= fitted(front(live, capacity as nat), len as nat, fill));
        }
    }
}

/// Grows or shrinks each column of a group that is allocated, and holds
/// `slots` slots, to the blocks that hold `capacity` slots. The slots that
/// stay keep their value; every other row of column `g` holds `fills[g]`.
/// A column that is not allocated stays as it is.
pub fn resize_group<T: Copy>(
    columns: &mut Vec<PackedColumn<T>>,
    allocated: &Vec<bool>,
    fills: &Vec<T>,
    slots: usize,
    capacity: usize,
)
    requires
        allocated@.len() == old(columns)@.len(),
        fills@.len() == old(columns)@.len(),
        forall|g: int|
            0 <= g < old(columns)@.len() ==> (#[trigger] old(columns)@[g]).wf() && capacity
                + old(columns)@[g].width() <= usize::MAX,
    ensures
        final(columns)@.len() == old(columns)@.len(),
        forall|g: int|
            0 <= g < old(columns)@.len() ==> {
                &&& (#[trigger] final(columns)@[g]).wf()
                &&& final(columns)@[g].width() == old(columns)@[g].width()
                &&& final(columns)@[g]@ == if allocated@[g] {
                    fitted(
                        front(old(columns)@[g]@, lesser(slots as nat, capacity as nat)),
                        old(columns)@[g].padded(capacity as nat),
                        fills@[g],
                    )
                } else {
                    old(columns)@[g]@
                }
            },
{
    let n = columns.len();
    let mut g: usize = 0;
    while g < n
        invariant
            g <= n,
            n == old(columns)@.len(),
            columns@.len() == n,
            allocated@.len() == n,
            fills@.len() == n,
            forall|h: int| g <= h < n ==> columns@[h] == old(columns)@[h],
            forall|h: int|
                0 <= h < n ==> (#[trigger] old(columns)@[h]).wf() && capacity + old(
                    columns,
                )@[h].width() <= usize::MAX,
            forall|h: int|
                0 <= h < g ==> {
                    &&& (#[trigger] columns@[h]).wf()
                    &&& columns@[h].width() == old(columns)@[h].width()
                    &&& columns@[h]@ == if allocated@[h] {
                        fitted(
                        front(old(columns)@[h]@, lesser(slots as nat, capacity as nat)),
                        old(columns)@[h].padded(capacity as nat),
                        fills@[h],
                    )
                    } else {
                        old(columns)@[h]@
                    }
                },
        decreases n - g,
    {
        if allocated[g] {
            let fill = fills[g];
            let column = &mut columns[g];
            column.resize(slots, capacity, fill);
        }
        g += 1;
    }
}

/// Removes the slots flagged in `dead` from each column of a group that is
/// allocated, and holds `slots` slots, and repacks it into the blocks that
/// hold `capacity` slots. Rows past the kept slots of column `g` hold
/// `fills[g]`. A column that is not allocated stays as it is.
pub fn compact_group<T: Copy>(
    columns: &mut Vec<PackedColumn<T>>,
    allocated: &Vec<bool>,
    fills: &Vec<T>,
    dead: &Vec<bool>,
    slots: usize,
    capacity: usize,
)
    requires
        allocated@.len() == old(columns)@.len(),
        fills@.len() == old(columns)@.len(),
        forall|g: int|
            0 <= g < old(columns)@.len() ==> (#[trigger] old(columns)@[g]).wf() && capacity
                + old(columns)@[g].width() <= usize::MAX,
    ensures
        final(columns)@.len() == old(columns)@.len(),
        forall|g: int|
            0 <= g < old(columns)@.len() ==> {
                &&& (#[trigger] final(columns)@[g]).wf()
                &&& final(columns)@[g].width() == old(columns)@[g].width()
                &&& final(columns)@[g]@ == if allocated@[g] {
                    fitted(
                        front(kept(front(old(columns)@[g]@, slots as nat), dead@), capacity as nat),
                        old(columns)@[g].padded(capacity as nat),
                        fills@[g],
                    )
                } else {
                    old(columns)@[g]@
                }
            },
{
    let n = columns.len();
    let mut g: usize = 0;
    while g < n
        invariant
            g <= n,
            n == old(columns)@.len(),
            columns@.len() == n,
            allocated@.len() == n,
            fills@.len() == n,
            forall|h: int| g <= h < n ==> columns@[h] == old(columns)@[h],
            forall|h: int|
                0 <= h < n ==> (#[trigger] old(columns)@[h]).wf() && capacity + old(
                    columns,
                )@[h].width() <= usize::MAX,
            forall|h: int|
                0 <= h < g ==> {
                    &&& (#[trigger] columns@[h]).wf()
                    &&& columns@[h].width() == old(columns)@[h].width()
                    &&& columns@[h]@ == if allocated@[h] {
                        fitted(
                        front(kept(front(old(columns)@[h]@, slots as nat), dead@), capacity as nat),
                        old(columns)@[h].padded(capacity as nat),
                        fills@[h],
                    )
                    } else {
                        old(columns)@[h]@
                    }
                },
        decreases n - g,
    {
        if allocated[g] {
            let fill = fills[g];
            let column = &mut columns[g];
            column.compact(dead, slots, capacity, fill);
        }
        g += 1;
    }
}

/// Cuts each column of a dense group that is allocated down, or fills it
/// up with `fill`, to `capacity` rows.
pub fn fit_group<T: Copy>(
    columns: &mut Vec<Vec<T>>,
    allocated: &Vec<bool>,
    fill: T,
    capacity: usize,
)
    requires
        allocated@.len() == old(columns)@.len(),
    ensures
        final(columns)@.len() == old(columns)@.len(),
        forall|g: int|
            0 <= g < old(columns)@.len() ==> (#[trigger] final(columns)@[g])@ == if allocated@[g] {
                fitted(old(columns)@[g]@, capacity as nat, fill)
            } else {
                old(columns)@[g]@
            },
{
    let n = columns.len();
    let mut g: usize = 0;
    while g < n
        invariant
            g <= n,
            n == old(columns)@.len(),
            columns@.len() == n,
            allocated@.len() == n,
            forall|h: int| g <= h < n ==> columns@[h] == old(columns)@[h],
            forall|h: int|
                0 <= h < g ==> (#[trigger] columns@[h])@ == if allocated@[h] {
                    fitted(old(columns)@[h]@, capacity as nat, fill)
                } else {
                    old(columns)@[h]@
                },
        decreases n - g,
    {
        if allocated[g] {
            let column = &mut columns[g];
            fit(column, capacity, fill);
        }
        g += 1;
    }
}

/// Removes the rows flagged in `dead` from each column of a dense group
/// that is allocated, then cuts it down or fills it up with `fill` to
/// `capacity` rows.
pub fn compact_dense_group<T: Copy>(
    columns: &mut Vec<Vec<T>>,
    allocated: &Vec<bool>,
    fill: T,
    dead: &Vec<bool>,
    capacity: usize,
)
    requires
        allocated@.len() == old(columns)@.len(),
    ensures
        final(columns)@.len() == old(columns)@.len(),
        forall|g: int|
            0 <= g < old(columns)@.len() ==> (#[trigger] final(columns)@[g])@ == if allocated@[g] {
                fitted(kept(old(columns)@[g]@, dead@), capacity as nat, fill)
            } else {
                old(columns)@[g]@
            },
{
    let n = columns.len();
    let mut g: usize = 0;
    while g < n
        invariant
            g <= n,
            n == old(columns)@.len(),
            columns@.len() == n,
            allocated@.len() == n,
            forall|h: int| g <= h < n ==> columns@[h] == old(columns)@[h],
            forall|h: int|
                0 <= h < g ==> (#[trigger] columns@[h])@ == if allocated@[h] {
                    fitted(kept(old(columns)@[h]@, dead@), capacity as nat, fill)
                } else {
                    old(columns)@[h]@
                },
        decreases n - g,
    {
        if allocated[g] {
            let column = &mut columns[g];
            compact(column, dead, capacity, fill);
        }
        g += 1;
    }
}

/// The blocks that hold `capacity` rows have at least that many lanes, and
/// less than one block more.
pub proof fn lemma_padded_covers(capacity: nat, width: nat)
    requires
        width >= 1,
    ensures
        capacity <= ceil_div(capacity, width) * width < capacity + width,
{
    let blocks = ceil_div(capacity, width);
    lemma_fundamental_div_mod(capacity + width - 1, width as int);
    assert(capacity <= blocks * width < capacity + width) by (nonlinear_arith)
        requires
            width >= 1,
            blocks == (capacity + width - 1) / (width as int),
            capacity + width - 1 == width * ((capacity + width - 1) / (width as int)) + (capacity
                + width - 1) % (width as int),
            0 <= (capacity + width - 1) % (width as int) < width,
    ;
}

/// A column padded to whole blocks has as many blocks as its capacity
/// needs.
pub proof fn lemma_blocks_of_padded(capacity: nat, width: nat)
    requires
        width >= 1,
    ensures
        (ceil_div(capacity, width) * width) / width == ceil_div(capacity, width),
        (ceil_div(capacity, width) * width) % width == 0,
{
    let b = ceil_div(capacity, width);
    assert((b * width) / width == b && (b * width) % width == 0) by (nonlinear_arith)
        requires
            width >= 1,
            b >= 0,
    ;
}

} // verus!
