//! The queue that orders parent links for composition.
//!
//! The links wait in a `priority_queue::PriorityQueue`. Verus does not see
//! inside it: what it holds has a name here, and each operation on it is
//! declared with what it does to that.

use priority_queue::PriorityQueue;
use vstd::prelude::*;

verus! {

/// A link from a child to its parent, by their identifiers.
pub type Link = (i128, i128);

/// `priority_queue::PriorityQueue`, declared so that it can stand in
/// signatures. Nothing is known of what a value of it holds but what the
/// operations below say.
#[verifier::external_type_specification]
#[verifier::external_body]
#[verifier::reject_recursive_types(I)]
#[verifier::reject_recursive_types(P)]
#[verifier::reject_recursive_types(H)]
pub struct ExPriorityQueue<I, P, H>(PriorityQueue<I, P, H>);

/// A queue of links, each with a priority.
pub type LinkQueue = PriorityQueue<Link, i32>;

/// The links that wait in a queue, each with its priority.
pub uninterp spec fn waiting(queue: LinkQueue) -> Map<Link, i32>;

/// No link with no priority.
pub open spec fn no_links() -> Map<Link, i32> {
    Map::empty()
}

/// `PriorityQueue::new`: a queue in which nothing waits.
#[verifier::external_body]
pub(crate) fn queue_new() -> (queue: LinkQueue)
    ensures
        waiting(queue) == no_links(),
{
    PriorityQueue::new()
}

/// `PriorityQueue::push`: `link` waits with `priority`. A link that
/// waited already waits on, with the new priority in place of its old one,
/// which is returned.
#[verifier::external_body]
pub(crate) fn queue_push(queue: &mut LinkQueue, link: Link, priority: i32) -> (previous:
    Option<i32>)
    ensures
        waiting(*final(queue)) == waiting(*old(queue)).insert(link, priority),
        previous == if waiting(*old(queue)).contains_key(link) {
            Some(waiting(*old(queue))[link])
        } else {
            None::<i32>
        },
{
    queue.push(link, priority)
}

/// `PriorityQueue::pop`: takes out a link that no waiting link exceeds in
/// priority, and returns it with its priority; `None`, and no change,
/// where nothing waits. Which of several links of the greatest priority
/// leaves is not said.
#[verifier::external_body]
pub(crate) fn queue_pop(queue: &mut LinkQueue) -> (top: Option<(Link, i32)>)
    ensures
        match top {
            Some((link, priority)) => {
                &&& waiting(*old(queue)).contains_key(link)
                &&& waiting(*old(queue))[link] == priority
                &&& forall|other: Link| #[trigger]
                    waiting(*old(queue)).contains_key(other) ==> waiting(*old(queue))[other]
                        <= priority
                &&& waiting(*final(queue)) == waiting(*old(queue)).remove(link)
            },
            None => {
                &&& forall|other: Link| !(#[trigger] waiting(*old(queue)).contains_key(other))
                &&& waiting(*final(queue)) == waiting(*old(queue))
            },
        },
{
    queue.pop()
}

} // verus!
