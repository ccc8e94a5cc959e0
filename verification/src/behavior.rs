//! Behaviors: what a bucket runs on its store at every tick.

use crate::column_set::{ColumnSet, StandardDataColumns};
use crate::columns::{ColumnsView, StandardColumns};
use std::rc::Rc;
use vstd::prelude::*;

verus! {

/// What a behavior does to the first slots of a store, once per tick.
///
/// An implementation may read and write the columns of the kinds it
/// [needs](Act::needs), over the first `size` slots. It leaves the store
/// well-formed, with its capacity, its kinds and its lane widths, and it
/// flags no slot dead from `size` on. The spawns it asks for, and the next
/// stages it leaves in the slots, name no behavior that those of the
/// store did not name before.
pub trait Act {
    /// The kinds whose columns this behavior reads or writes. Unless a
    /// behavior says otherwise, it needs none.
    open spec fn needs(&self) -> Set<StandardDataColumns> {
        Set::empty()
    }

    /// What one run on the first `size` slots makes of a store: whether it
    /// can turn `before` into `after`. Unless a behavior says otherwise,
    /// nothing is known of what it does.
    open spec fn effect(&self, before: ColumnsView, after: ColumnsView, size: int) -> bool {
        true
    }

    /// Runs the behavior on the first `size` slots of `columns`.
    fn act(&self, columns: &mut StandardColumns, size: usize)
        requires
            old(columns).wf(),
            size <= old(columns)@.capacity,
            self.needs().subset_of(old(columns)@.required),
            old(columns)@.quiet_from(size as int),
        ensures
            final(columns).wf(),
            final(columns)@.shaped_like(old(columns)@),
            final(columns)@.quiet_from(size as int),
            self.effect(old(columns)@, final(columns)@, size as int),
            forall|registered: Set<Seq<char>>|
                old(columns)@.asks_only(registered) ==> #[trigger] final(columns)@.asks_only(
                    registered,
                ),
    ;
}

/// A behavior: a stable identifier, the kinds whose columns it wants
/// allocated, and what it does at every tick.
pub struct Behavior<A> {
    pub identifier: &'static str,
    pub required_columns: ColumnSet,
    pub act: A,
}

impl<A: Act> Behavior<A> {
    /// The behavior wants allocated every column that it reads or writes.
    pub open spec fn wf(&self) -> bool {
        self.act.needs().subset_of(self.required_columns@)
    }

    /// A behavior under `identifier` that wants the columns of
    /// `required_columns` and runs `act`.
    pub fn new(identifier: &'static str, required_columns: ColumnSet, act: A) -> (behavior: Self)
        requires
            act.needs().subset_of(required_columns@),
        ensures
            behavior.wf(),
            behavior.identifier == identifier,
            behavior.required_columns == required_columns,
            behavior.act == act,
    {
        Behavior { identifier, required_columns, act }
    }
}

/// `Rc::clone`: another handle on the behavior that `behavior` points to.
/// The new handle points to the same value.
#[verifier::external_body]
pub(crate) fn share<A>(behavior: &Rc<Behavior<A>>) -> (shared: Rc<Behavior<A>>)
    ensures
        shared == *behavior,
{
    Rc::clone(behavior)
}

/// Whether running the first `n` of `behaviors` in their order on the
/// first `size` slots can turn `before` into `after`.
pub open spec fn ran<A: Act>(
    behaviors: Seq<Rc<Behavior<A>>>,
    n: int,
    before: ColumnsView,
    after: ColumnsView,
    size: int,
) -> bool
    decreases n,
{
    if n <= 0 {
        after == before
    } else {
        exists|mid: ColumnsView|
            ran(behaviors, n - 1, before, mid, size) && #[trigger] behaviors[n - 1].act.effect(
                mid,
                after,
                size,
            )
    }
}

/// One more behavior run makes one more step of the chain.
pub proof fn lemma_ran_step<A: Act>(
    behaviors: Seq<Rc<Behavior<A>>>,
    n: int,
    before: ColumnsView,
    mid: ColumnsView,
    after: ColumnsView,
    size: int,
)
    requires
        n > 0,
        ran(behaviors, n - 1, before, mid, size),
        behaviors[n - 1].act.effect(mid, after, size),
    ensures
        ran(behaviors, n, before, after, size),
{
}

} // verus!
