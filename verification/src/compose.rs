//! Composition of parents into children: from model space to world space.

use crate::numeric::{Mat4, Numerics};
use crate::queue::Link;
use crate::render::RenderData;
use std::collections::HashMap;
use vstd::prelude::*;

verus! {

/// The entries of a frame by their identifiers. Of two entries under one
/// identifier, the later one stays.
pub open spec fn collected(local: Seq<(i128, RenderData)>) -> Map<i128, RenderData>
    decreases local.len(),
{
    if local.len() == 0 {
        Map::empty()
    } else {
        collected(local.drop_last()).insert(local.last().0, local.last().1)
    }
}

/// `out` is what `numerics` gave for the matrix product `parent · child`.
pub open spec fn is_composed<N: Numerics>(numerics: &N, parent: Mat4, child: Mat4, out: Mat4) -> bool {
    call_ensures(N::compose, (numerics, parent, child), out)
}

/// `after` is `before` with one link composed in. A child that is not
/// shown changes nothing. A child whose parent is shown has the parent's
/// matrix multiplied to its own from the left. A child whose parent is
/// not shown is not shown either.
pub open spec fn link_composed<N: Numerics>(
    numerics: &N,
    before: Map<i128, RenderData>,
    link: Link,
    after: Map<i128, RenderData>,
) -> bool {
    let child = link.0;
    let parent = link.1;
    if !before.contains_key(child) {
        after == before
    } else if before.contains_key(parent) {
        &&& after == before.insert(child, after[child])
        &&& after[child] == (RenderData { model_mat: after[child].model_mat, ..before[child] })
        &&& is_composed(
            numerics,
            before[parent].model_mat,
            before[child].model_mat,
            after[child].model_mat,
        )
    } else {
        after == before.remove(child)
    }
}

/// Whether composing in the first `n` links of `order`, one after the
/// other, can turn `before` into `after`.
pub open spec fn links_composed<N: Numerics>(
    numerics: &N,
    order: Seq<Link>,
    n: int,
    before: Map<i128, RenderData>,
    after: Map<i128, RenderData>,
) -> bool
    decreases n,
{
    if n <= 0 {
        after == before
    } else {
        exists|mid: Map<i128, RenderData>|
            links_composed(numerics, order, n - 1, before, mid) && #[trigger] link_composed(
                numerics,
                mid,
                order[n - 1],
                after,
            )
    }
}

/// One more link composed in makes one more step of the chain.
pub proof fn lemma_link_step<N: Numerics>(
    numerics: &N,
    order: Seq<Link>,
    n: int,
    before: Map<i128, RenderData>,
    mid: Map<i128, RenderData>,
    after: Map<i128, RenderData>,
)
    requires
        n > 0,
        links_composed(numerics, order, n - 1, before, mid),
        link_composed(numerics, mid, order[n - 1], after),
    ensures
        links_composed(numerics, order, n, before, after),
{
}

/// The entries that `table` holds under the first `n` of `ids`, in the
/// order of `ids`, each once, and what is left of the table without them.
pub open spec fn drawn(ids: Seq<i128>, table: Map<i128, RenderData>, n: int) -> (
    Seq<RenderData>,
    Map<i128, RenderData>,
)
    decreases n,
{
    if n <= 0 {
        (Seq::empty(), table)
    } else {
        let (out, left) = drawn(ids, table, n - 1);
        if left.contains_key(ids[n - 1]) {
            (out.push(left[ids[n - 1]]), left.remove(ids[n - 1]))
        } else {
            (out, left)
        }
    }
}

/// The identifiers of the entries of a frame, in their order.
pub open spec fn ids_of(local: Seq<(i128, RenderData)>) -> Seq<i128> {
    Seq::new(local.len(), |k: int| local[k].0)
}

/// Whether `world` is the frame `local` with the links of `order`
/// composed in, one after the other: the entries that are still shown, in
/// the order in which `local` names them.
pub open spec fn composed_in_order<N: Numerics>(
    numerics: &N,
    local: Seq<(i128, RenderData)>,
    order: Seq<Link>,
    world: Seq<RenderData>,
) -> bool {
    exists|table: Map<i128, RenderData>| #[trigger]
        links_composed(numerics, order, order.len() as int, collected(local), table) && world
            == drawn(ids_of(local), table, local.len() as int).0
}

/// Brings a frame from model space to world space: composes in the links
/// of `order`, one after the other, and gives out what is still shown.
///
/// For each link, the child has the matrix of its parent multiplied to
/// its own from the left, as the parent's matrix stands at that point. A
/// child whose parent is not shown drops out. So that a child takes in the
/// whole chain above it, `order` must name the link of each parent before
/// those of its children.
pub fn compose_in_order<N: Numerics>(
    numerics: &N,
    local: Vec<(i128, RenderData)>,
    order: &Vec<Link>,
) -> (world: Vec<RenderData>)
    ensures
        composed_in_order(numerics, local@, order@, world@),
{
    broadcast use vstd::std_specs::hash::group_hash_axioms;

    let mut table: HashMap<i128, RenderData> = HashMap::new();
    let mut ids: Vec<i128> = Vec::new();
    for entry in it: local.into_iter()
        invariant
            it.seq() == local@,
            ids@ == ids_of(local@.take(it.index() as int)),
            table@ == collected(local@.take(it.index() as int)),
    {
        proof {
            let k = it.index() as int;
            assert(local@.take(k + 1).drop_last() == local@.take(k));
            assert(ids@.push(entry.0) =~= ids_of(local@.take(k + 1)));
        }
        ids.push(entry.0);
        table.insert(entry.0, entry.1);
    }
    proof {
        assert(local@.take(local@.len() as int) == local@);
    }
    let ghost start = table@;
    let mut k: usize = 0;
    while k < order.len()
        invariant
            k <= order@.len(),
            links_composed(numerics, order@, k as int, start, table@),
        decreases order@.len() - k,
    {
        let ghost mid = table@;
        let child = order[k].0;
        let parent = order[k].1;
        if table.contains_key(&child) {
            let above = match table.get(&parent) {
                Some(shown) => Some(shown.model_mat),
                None => None,
            };
            let taken = table.remove(&child);
            match taken {
                Some(mut entry) => {
                    match above {
                        Some(parent_mat) => {
                            entry.model_mat = numerics.compose(parent_mat, entry.model_mat);
                            table.insert(child, entry);
                            proof {
                                assert(table@ =~= mid.insert(child, table@[child]));
                            }
                        },
                        None => {},
                    }
                },
                None => {},
            }
        }
        k += 1;
        proof {
            lemma_link_step(numerics, order@, k as int, start, mid, table@);
        }
    }
    let ghost composed = table@;
    let mut world: Vec<RenderData> = Vec::new();
    let mut j: usize = 0;
    while j < ids.len()
        invariant
            j <= ids@.len(),
            ids@ == ids_of(local@),
            (world@, table@) == drawn(ids@, composed, j as int),
        decreases ids@.len() - j,
    {
        match table.remove(&ids[j]) {
            Some(entry) => {
                world.push(entry);
            },
            None => {},
        }
        j += 1;
    }
    world
}

} // verus!
