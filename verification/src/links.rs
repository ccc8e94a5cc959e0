//! The order in which parents are composed into children.

use crate::queue::{queue_new, queue_pop, queue_push, waiting, Link, LinkQueue};
use std::collections::HashMap;
use vstd::prelude::*;

verus! {

/// The priority of a link whose child has the family depth `depth`.
pub open spec fn priority_of(depth: i16) -> i32 {
    (-(depth as int)) as i32
}

/// The family depth on record for `id`, and 0 where none is.
pub open spec fn depth_in(depths: Map<i128, i16>, id: i128) -> i16 {
    if depths.contains_key(id) {
        depths[id]
    } else {
        0
    }
}

/// A queue in which every link of `parents` waits, the shallower the
/// child, the greater the priority.
fn fill(parents: &HashMap<i128, i128>, depths: &HashMap<i128, i16>) -> (queue: LinkQueue)
    ensures
        forall|link: Link|
            waiting(queue).contains_key(link) <==> (parents@.contains_key(link.0)
                && parents@[link.0] == link.1),
        forall|link: Link| #[trigger]
            waiting(queue).contains_key(link) ==> waiting(queue)[link] == priority_of(
                depth_in(depths@, link.0),
            ),
        waiting(queue).dom().finite(),
{
    broadcast use vstd::std_specs::hash::group_hash_axioms;

    let mut queue = queue_new();
    for pair in it: parents.iter()
        invariant
            waiting(queue).dom().finite(),
            forall|link: Link|
                waiting(queue).contains_key(link) <==> exists|k: int|
                    0 <= k < it.index() && *(#[trigger] it.seq()[k]).0 == link.0 && *it.seq()[k].1
                        == link.1,
            forall|link: Link| #[trigger]
                waiting(queue).contains_key(link) ==> waiting(queue)[link] == priority_of(
                    depth_in(depths@, link.0),
                ),
    {
        let (child, parent) = pair;
        let depth: i16 = match depths.get(child) {
            Some(depth) => *depth,
            None => 0,
        };
        let priority: i32 = -(depth as i32);
        queue_push(&mut queue, (*child, *parent), priority);
    }
    queue
}

/// Takes every link out of a queue, those of greater priority first.
fn drain(queue: LinkQueue) -> (order: Vec<Link>)
    requires
        waiting(queue).dom().finite(),
    ensures
        order@.no_duplicates(),
        forall|link: Link| order@.contains(link) <==> waiting(queue).contains_key(link),
        forall|a: int, b: int|
            0 <= a < b < order@.len() ==> waiting(queue)[(#[trigger] order@[a])] >= waiting(
                queue,
            )[(#[trigger] order@[b])],
{
    let ghost all = waiting(queue);
    let mut queue = queue;
    let mut order: Vec<Link> = Vec::new();
    loop
        invariant
            waiting(queue).dom().finite(),
            order@.no_duplicates(),
            forall|link: Link|
                all.contains_key(link) <==> (order@.contains(link) || waiting(queue).contains_key(
                    link,
                )),
            forall|link: Link| !(order@.contains(link) && waiting(queue).contains_key(link)),
            forall|link: Link| #[trigger]
                waiting(queue).contains_key(link) ==> waiting(queue)[link] == all[link],
            forall|a: int, link: Link|
                0 <= a < order@.len() && #[trigger] waiting(queue).contains_key(link) ==> all[link]
                    <= all[(#[trigger] order@[a])],
            forall|a: int, b: int|
                0 <= a < b < order@.len() ==> all[(#[trigger] order@[a])] >= all[(
                #[trigger] order@[b])],
        ensures
            order@.no_duplicates(),
            forall|link: Link| all.contains_key(link) <==> order@.contains(link),
            forall|a: int, b: int|
                0 <= a < b < order@.len() ==> all[(#[trigger] order@[a])] >= all[(
                #[trigger] order@[b])],
        decreases waiting(queue).dom().len(),
    {
        let ghost before = waiting(queue);
        let ghost listed = order@;
        match queue_pop(&mut queue) {
            Some((link, priority)) => {
                order.push(link);
                proof {
                    assert forall|other: Link|
                        all.contains_key(other) <==> (order@.contains(other) || waiting(
                            queue,
                        ).contains_key(other)) by {
                        crate::columns::lemma_push_contains(listed, link, other);
                    }
                    assert forall|other: Link|
                        !(order@.contains(other) && waiting(queue).contains_key(other)) by {
                        crate::columns::lemma_push_contains(listed, link, other);
                    }
                    assert(order@.no_duplicates()) by {
                        assert forall|a: int, b: int|
                            0 <= a < order@.len() && 0 <= b < order@.len() && a != b implies order@[a]
                            != order@[b] by {
                            if a < listed.len() {
                                assert(listed.contains(listed[a]));
                            }
                            if b < listed.len() {
                                assert(listed.contains(listed[b]));
                            }
                        }
                    }
                    assert forall|a: int, b: int| 0 <= a < b < order@.len() implies all[(
                    #[trigger] order@[a])] >= all[(#[trigger] order@[b])] by {
                        if b == listed.len() {
                            assert(before.contains_key(link));
                        }
                    }
                }
            },
            None => {
                break ;
            },
        }
    }
    order
}

/// Whether `order` names every link of `parents` once, as child and
/// parent, those of shallower children first.
pub open spec fn depth_ordered(
    order: Seq<Link>,
    parents: Map<i128, i128>,
    depths: Map<i128, i16>,
) -> bool {
    &&& order.no_duplicates()
    &&& forall|link: Link|
        order.contains(link) <==> (parents.contains_key(link.0) && parents[link.0] == link.1)
    &&& forall|a: int, b: int|
        0 <= a < b < order.len() ==> depth_in(depths, (#[trigger] order[a]).0) <= depth_in(
            depths,
            (#[trigger] order[b]).0,
        )
}

/// The links of `parents` in the order in which to compose them: those of
/// shallower children first, so that a parent is composed before its
/// children wherever a child is deeper than its parent. The order among
/// children of one depth is left open.
pub fn composition_order(parents: &HashMap<i128, i128>, depths: &HashMap<i128, i16>) -> (order:
    Vec<Link>)
    ensures
        depth_ordered(order@, parents@, depths@),
{
    let queue = fill(parents, depths);
    let order = drain(queue);
    proof {
        assert forall|a: int, b: int| 0 <= a < b < order@.len() implies depth_in(
            depths@,
            (#[trigger] order@[a]).0,
        ) <= depth_in(depths@, (#[trigger] order@[b]).0) by {
            assert(order@.contains(order@[a]));
            assert(order@.contains(order@[b]));
            assert(waiting(queue)[order@[a]] >= waiting(queue)[order@[b]]);
        }
    }
    order
}

/// In a composition order, the link of a parent comes before the link of
/// each child that is deeper than that parent: where the child of the link
/// at position `a` is the parent of the link at position `b`, and is
/// shallower than the child of that link, `a` is before `b`.
pub proof fn lemma_parent_link_first(
    order: Seq<Link>,
    parents: Map<i128, i128>,
    depths: Map<i128, i16>,
    a: int,
    b: int,
)
    requires
        depth_ordered(order, parents, depths),
        0 <= a < order.len(),
        0 <= b < order.len(),
        order[a].0 == order[b].1,
        depth_in(depths, order[a].0) < depth_in(depths, order[b].0),
    ensures
        a < b,
{
    if b < a {
        assert(depth_in(depths, order[b].0) <= depth_in(depths, order[a].0));
    }
}

} // verus!
