//! The top handler: every bucket of the simulation, the behaviors it can
//! run, and the family that ties its projectiles together.

use crate::behavior::{share, Act, Behavior};
use crate::bucket::{BucketView, DanmakuBehaviorHandler, ID_STRIDE};
use crate::compose::{compose_in_order, composed_in_order};
use crate::lanes::LaneWidths;
use crate::links::{composition_order, depth_ordered};
use crate::names::{names, same_name, same_signature};
use crate::numeric::{Numerics, Scalar};
use crate::packed::kept;
use crate::queue::Link;
use crate::render::{rendered, transforms_computed, RenderData};
use crate::spawn::{
    forest_bound_elsewhere, forest_known, forest_nodes, lemma_forest_joined, lemma_forest_prefix,
    lemma_settled_bound_elsewhere, lemma_settled_known, DanmakuSpawnData, UNRESOLVED,
};
use std::collections::HashMap;
use std::rc::Rc;
use vstd::prelude::*;

verus! {

/// The identifier of the bucket that created the projectile `id`.
pub open spec fn bucket_of(id: i128) -> int {
    id as int / ID_STRIDE as int
}

/// The count at which its bucket created the projectile `id`.
pub open spec fn count_of(id: i128) -> int {
    id as int % ID_STRIDE as int
}

/// What the top handler is, by its parts.
pub struct HandlerView<A> {
    /// The buckets, in the order of their making.
    pub handlers: Seq<BucketView<A>>,
    /// The behaviors that are registered.
    pub behaviors: Seq<Rc<Behavior<A>>>,
    /// The family depth of every projectile ever created.
    pub family_depths: Map<i128, i16>,
    /// The parent of every projectile ever created with one.
    pub parents: Map<i128, i128>,
    /// The identifier of the bucket made last.
    pub next_identifier: i64,
    /// The lane widths of every store.
    pub widths: LaneWidths,
}

/// The position in `behaviors` of the behavior that `name` spells, if
/// there is one.
pub open spec fn registered_at<A>(behaviors: Seq<Rc<Behavior<A>>>, name: Seq<char>) -> Option<int> {
    if exists|k: int| 0 <= k < behaviors.len() && (#[trigger] behaviors[k]).identifier@ == name {
        Some(choose|k: int| 0 <= k < behaviors.len() && (#[trigger] behaviors[k]).identifier@ == name)
    } else {
        None
    }
}

/// The position in `handlers` of the bucket whose signature spells
/// `signature`, if there is one.
pub open spec fn bucket_at<A>(handlers: Seq<BucketView<A>>, signature: Seq<Seq<char>>) -> Option<
    int,
> {
    if exists|k: int|
        0 <= k < handlers.len() && names((#[trigger] handlers[k]).signature) == signature {
        Some(
            choose|k: int|
                0 <= k < handlers.len() && names((#[trigger] handlers[k]).signature) == signature,
        )
    } else {
        None
    }
}

/// For each bucket, whether a cleanup drops it.
pub open spec fn dropped<A: Act>(handlers: Seq<BucketView<A>>) -> Seq<bool> {
    Seq::new(handlers.len(), |k: int| !handlers[k].stays())
}

impl<A: Act> HandlerView<A> {
    /// Whether `id` has been given out as far as the counts of the buckets
    /// show: it is of a bucket that was made, and where that bucket is
    /// still there, of a count that the bucket has passed.
    pub open spec fn issued(self, id: i128) -> bool {
        &&& 1 <= bucket_of(id) <= self.next_identifier
        &&& forall|k: int|
            0 <= k < self.handlers.len() && (#[trigger] self.handlers[k]).identifier == bucket_of(
                id,
            ) ==> count_of(id) < self.handlers[k].next_dan_identifier
    }

    /// What the identifiers of the registered behaviors spell.
    pub open spec fn registered_names(self) -> Set<Seq<char>> {
        Set::new(|name: Seq<char>| registered_at(self.behaviors, name) is Some)
    }

    /// Every bucket is well-formed and has a signature and an identifier of
    /// its own; every registered behavior is well-formed and has a name of
    /// its own; no bucket names a behavior that is not registered, in its
    /// signature, in a next stage or in a spawn; and the family records no
    /// projectile that was not created.
    pub open spec fn wf(self) -> bool {
        &&& self.widths.wf()
        &&& 0 <= self.next_identifier
        &&& forall|k: int|
            0 <= k < self.handlers.len() ==> (#[trigger] self.handlers[k]).wf() && 1
                <= self.handlers[k].identifier <= self.next_identifier
        &&& forall|j: int, k: int|
            0 <= j < self.handlers.len() && 0 <= k < self.handlers.len() && j != k ==> names(
                (#[trigger] self.handlers[j]).signature,
            ) != names((#[trigger] self.handlers[k]).signature) && self.handlers[j].identifier
                != self.handlers[k].identifier
        &&& forall|k: int| 0 <= k < self.behaviors.len() ==> (#[trigger] self.behaviors[k]).wf()
        &&& forall|j: int, k: int|
            0 <= j < self.behaviors.len() && 0 <= k < self.behaviors.len() && j != k ==> (
            #[trigger] self.behaviors[j]).identifier@ != (#[trigger] self.behaviors[k]).identifier@
        &&& forall|k: int|
            0 <= k < self.handlers.len() ==> self.knows((#[trigger] self.handlers[k]).signature)
        &&& forall|k: int|
            0 <= k < self.handlers.len() ==> (#[trigger] self.handlers[k]).columns.asks_only(
                self.registered_names(),
            )
        &&& forall|id: i128| #[trigger] self.family_depths.contains_key(id) ==> self.issued(id)
        &&& forall|id: i128| #[trigger]
            self.parents.contains_key(id) ==> self.family_depths.contains_key(id)
    }

    /// Whether this handler is `before` some steps later: it has the
    /// behaviors of `before`; each bucket of `before` is still in its place,
    /// with no fewer slots in use and no smaller store, and buckets made
    /// since have later identifiers; and the family has kept every record.
    pub open spec fn grown_from(self, before: HandlerView<A>) -> bool {
        &&& self.behaviors == before.behaviors
        &&& self.widths == before.widths
        &&& self.next_identifier >= before.next_identifier
        &&& self.handlers.len() >= before.handlers.len()
        &&& forall|k: int|
            0 <= k < before.handlers.len() ==> (#[trigger] self.handlers[k]).follows(
                before.handlers[k],
            )
        &&& forall|k: int|
            before.handlers.len() <= k < self.handlers.len() ==> (
            #[trigger] self.handlers[k]).identifier > before.next_identifier
        &&& before.family_depths.submap_of(self.family_depths)
        &&& before.parents.submap_of(self.parents)
    }

    /// Whether the handler turns the projectile away that `danmaku`
    /// describes: its family depth cannot be settled, or the handler
    /// cannot take it.
    pub open spec fn turns_away(self, danmaku: DanmakuSpawnData) -> bool {
        !danmaku.settles(self.family_depths) || self.refuses(danmaku, None)
    }

    /// The behaviors after `behavior` has been registered: in the place of
    /// the behavior of the same name where there was one, and behind the
    /// others where there was none.
    pub open spec fn registered(self, behavior: Behavior<A>) -> Seq<Rc<Behavior<A>>> {
        match registered_at(self.behaviors, behavior.identifier@) {
            Some(k) => self.behaviors.update(k, Rc::new(behavior)),
            None => self.behaviors.push(Rc::new(behavior)),
        }
    }

    /// Whether every identifier of `signature` spells a registered
    /// behavior.
    pub open spec fn knows(self, signature: Seq<&'static str>) -> bool {
        forall|k: int|
            0 <= k < signature.len() ==> registered_at(
                self.behaviors,
                (#[trigger] signature[k])@,
            ) is Some
    }

    /// The registered behaviors that `signature` names, in its order.
    pub open spec fn resolved(self, signature: Seq<&'static str>) -> Seq<Rc<Behavior<A>>> {
        Seq::new(
            signature.len(),
            |k: int| self.behaviors[registered_at(self.behaviors, signature[k]@)->0],
        )
    }

    /// This handler with a bucket for `signature`: as it is where it has
    /// one, and else with a new bucket behind the others, under the next
    /// bucket identifier.
    pub open spec fn with_bucket_for(self, signature: Seq<&'static str>) -> HandlerView<A> {
        if bucket_at(self.handlers, names(signature)) is Some {
            self
        } else {
            HandlerView {
                handlers: self.handlers.push(
                    BucketView::fresh(
                        (self.next_identifier + 1) as i64,
                        self.resolved(signature),
                        false,
                        self.widths,
                    ),
                ),
                next_identifier: (self.next_identifier + 1) as i64,
                ..self
            }
        }
    }

    /// The slot that a spawn asks bucket `k` for: the slot it prefers,
    /// where it prefers one and that slot is of this bucket.
    pub open spec fn slot_asked(self, k: int, preferred: Option<(usize, i64)>) -> Option<usize> {
        match preferred {
            Some((slot, origin)) => if origin == self.handlers[k].identifier {
                Some(slot)
            } else {
                None
            },
            None => None,
        }
    }

    /// Whether the handler cannot take the projectile that `danmaku`
    /// describes: the bucket for its signature refuses it; or there is no
    /// such bucket, and none can be made, because the bucket identifiers
    /// are used up.
    pub open spec fn refuses(self, danmaku: DanmakuSpawnData, preferred: Option<(usize, i64)>) -> bool {
        match bucket_at(self.handlers, names(danmaku.behaviors@)) {
            Some(k) => self.handlers[k].refuses(self.slot_asked(k, preferred)),
            None => self.next_identifier == i64::MAX,
        }
    }

    /// The position of the bucket that takes a projectile of the signature
    /// `signature`: that of the bucket for it, and behind the others where
    /// that bucket has yet to be made.
    pub open spec fn target(self, signature: Seq<&'static str>) -> int {
        match bucket_at(self.handlers, names(signature)) {
            Some(k) => k,
            None => self.handlers.len() as int,
        }
    }

    /// The identifier that the projectile gets that `danmaku` describes.
    pub open spec fn id_for(self, danmaku: DanmakuSpawnData) -> i128 {
        let ready = self.with_bucket_for(danmaku.behaviors@);
        ready.handlers[self.target(danmaku.behaviors@)].next_id()
    }

    /// This handler after it has taken the projectile that `danmaku`
    /// describes into the bucket for its signature, made for the purpose
    /// where there was none, and recorded its family depth and its parent.
    pub open spec fn routed(self, danmaku: DanmakuSpawnData, preferred: Option<(usize, i64)>) -> HandlerView<
        A,
    > {
        let ready = self.with_bucket_for(danmaku.behaviors@);
        let k = self.target(danmaku.behaviors@);
        HandlerView {
            handlers: ready.handlers.update(
                k,
                ready.handlers[k].inserted(danmaku, ready.slot_asked(k, preferred)),
            ),
            family_depths: self.family_depths.insert(self.id_for(danmaku), danmaku.family_depth),
            parents: match danmaku.parent {
                Some(parent) => self.parents.insert(self.id_for(danmaku), parent),
                None => self.parents,
            },
            ..ready
        }
    }

    /// This handler after a cleanup: without the buckets that hold no live
    /// projectile and are not to be kept always.
    pub open spec fn cleaned(self) -> HandlerView<A> {
        HandlerView { handlers: kept(self.handlers, dropped(self.handlers)), ..self }
    }
}

/// The top handler of a simulation.
pub struct TopDanmakuBehaviorsHandler<A> {
    handlers: Vec<DanmakuBehaviorHandler<A>>,
    behaviors: Vec<Rc<Behavior<A>>>,
    global_family_depth_map: HashMap<i128, i16>,
    global_parent_map: HashMap<i128, i128>,
    next_identifier: i64,
    widths: LaneWidths,
}

impl<A: Act> View for TopDanmakuBehaviorsHandler<A> {
    type V = HandlerView<A>;

    closed spec fn view(&self) -> HandlerView<A> {
        HandlerView {
            handlers: Seq::new(self.handlers@.len(), |k: int| self.handlers@[k]@),
            behaviors: self.behaviors@,
            family_depths: self.global_family_depth_map@,
            parents: self.global_parent_map@,
            next_identifier: self.next_identifier,
            widths: self.widths,
        }
    }
}

impl<A: Act> Default for TopDanmakuBehaviorsHandler<A> {
    /// A handler without buckets, behaviors or projectiles, whose stores
    /// will have one lane per block.
    fn default() -> (top: Self)
        ensures
            top.wf(),
            top@ == (HandlerView::<A> {
                handlers: Seq::empty(),
                behaviors: Seq::empty(),
                family_depths: Map::empty(),
                parents: Map::empty(),
                next_identifier: 0,
                widths: LaneWidths { scalar: 1, color: 1, ticks: 1 },
            }),
    {
        TopDanmakuBehaviorsHandler::new(LaneWidths::single())
    }
}

impl<A: Act> TopDanmakuBehaviorsHandler<A> {
    /// The handler is what its view says, over buckets whose stores are
    /// laid out as their views say.
    pub open spec fn wf(&self) -> bool {
        self@.wf() && self.stores_wf()
    }

    /// The store of every bucket is well-formed.
    pub closed spec fn stores_wf(&self) -> bool {
        forall|k: int| 0 <= k < self.handlers@.len() ==> (#[trigger] self.handlers@[k]).store_wf()
    }

    /// A handler without buckets, behaviors or projectiles, whose stores
    /// will have the lane widths `widths`.
    pub fn new(widths: LaneWidths) -> (top: Self)
        requires
            widths.wf(),
        ensures
            top.wf(),
            top@ == (HandlerView::<A> {
                handlers: Seq::empty(),
                behaviors: Seq::empty(),
                family_depths: Map::empty(),
                parents: Map::empty(),
                next_identifier: 0,
                widths,
            }),
    {
        let top = TopDanmakuBehaviorsHandler {
            handlers: Vec::new(),
            behaviors: Vec::new(),
            global_family_depth_map: HashMap::new(),
            global_parent_map: HashMap::new(),
            next_identifier: 0,
            widths,
        };
        assert(top@.handlers =~= Seq::empty());
        top
    }

    /// The position of the registered behavior that `identifier` spells,
    /// if there is one.
    pub fn find_behavior(&self, identifier: &str) -> (at: Option<usize>)
        requires
            self.wf(),
        ensures
            at matches Some(k) ==> k < self@.behaviors.len(),
            (match at {
                Some(k) => Some(k as int),
                None => None,
            }) == registered_at(self@.behaviors, identifier@),
    {
        let mut k: usize = 0;
        while k < self.behaviors.len()
            invariant
                k <= self@.behaviors.len(),
                self.wf(),
                forall|j: int| 0 <= j < k ==> (#[trigger] self@.behaviors[j]).identifier@ != identifier@,
            decreases self@.behaviors.len() - k,
        {
            if same_name(self.behaviors[k].identifier, identifier) {
                return Some(k);
            }
            k += 1;
        }
        None
    }

    /// The position of the bucket whose signature spells what `signature`
    /// spells, if there is one.
    pub fn find_handler(&self, signature: &Vec<&'static str>) -> (at: Option<usize>)
        requires
            self.wf(),
        ensures
            at matches Some(k) ==> k < self@.handlers.len(),
            (match at {
                Some(k) => Some(k as int),
                None => None,
            }) == bucket_at(self@.handlers, names(signature@)),
    {
        let mut k: usize = 0;
        while k < self.handlers.len()
            invariant
                k <= self@.handlers.len(),
                self.wf(),
                forall|j: int|
                    0 <= j < k ==> names((#[trigger] self@.handlers[j]).signature) != names(
                        signature@,
                    ),
            decreases self@.handlers.len() - k,
        {
            if same_signature(self.handlers[k].signature(), signature) {
                assert(names(self@.handlers[k as int].signature) == names(signature@));
                return Some(k);
            }
            k += 1;
        }
        None
    }

    /// Registers `behavior` under its identifier, in the place of the
    /// behavior that was registered under it before, if there was one.
    /// Buckets that run the earlier behavior keep running it.
    pub fn register_behavior(&mut self, behavior: Behavior<A>)
        requires
            old(self).wf(),
            behavior.wf(),
        ensures
            final(self).wf(),
            final(self)@ == (HandlerView {
                behaviors: old(self)@.registered(behavior),
                ..old(self)@
            }),
    {
        let ghost before = self@;
        let at = self.find_behavior(behavior.identifier);
        let shared = Rc::new(behavior);
        match at {
            Some(k) => {
                self.behaviors[k] = shared;
            },
            None => {
                self.behaviors.push(shared);
            },
        }
        proof {
            assert(self@.handlers =~= before.handlers);
            assert forall|name: Seq<char>| registered_at(before.behaviors, name) is Some implies registered_at(
                self@.behaviors,
                name,
            ) is Some by {
                let j = registered_at(before.behaviors, name)->0;
                assert(self@.behaviors[j].identifier@ == name);
            }
            assert forall|k: int| 0 <= k < self@.handlers.len() implies self@.knows(
                (#[trigger] self@.handlers[k]).signature,
            ) by {
                assert(before.knows(before.handlers[k].signature));
            }
            assert(before.registered_names().subset_of(self@.registered_names()));
            assert forall|k: int| 0 <= k < self@.handlers.len() implies (
            #[trigger] self@.handlers[k]).columns.asks_only(self@.registered_names()) by {
                crate::columns::lemma_asks_only_stays(
                    before.handlers[k].columns,
                    before.registered_names(),
                    self@.registered_names(),
                );
            }
        }
    }

    /// The registered behaviors that `signature` names, in its order.
    fn resolve(&self, signature: &Vec<&'static str>) -> (behaviors: Vec<Rc<Behavior<A>>>)
        requires
            self.wf(),
            self@.knows(signature@),
        ensures
            behaviors@ == self@.resolved(signature@),
    {
        let mut list: Vec<Rc<Behavior<A>>> = Vec::new();
        let mut k: usize = 0;
        while k < signature.len()
            invariant
                k <= signature@.len(),
                self.wf(),
                self@.knows(signature@),
                list@.len() == k,
                forall|j: int|
                    0 <= j < k ==> #[trigger] list@[j] == self@.behaviors[registered_at(
                        self@.behaviors,
                        signature@[j]@,
                    )->0],
            decreases signature@.len() - k,
        {
            proof {
                assert(registered_at(self@.behaviors, signature@[k as int]@) is Some);
            }
            let at = self.find_behavior(signature[k]).unwrap();
            list.push(share(&self.behaviors[at]));
            k += 1;
        }
        assert(list@ =~= self@.resolved(signature@));
        list
    }

    /// Takes the projectile that `d` describes into the bucket for its
    /// signature and hands back its children, each with the new projectile
    /// as its parent. Where there is no bucket for the signature, one is
    /// made from the registered behaviors that the signature names.
    ///
    /// The projectile takes over the slot it prefers where that slot is of
    /// this very bucket and dead, and goes behind the slots in use
    /// otherwise. It gets an identifier that no projectile has had.
    ///
    /// A handler that cannot take the projectile changes nothing and hands
    /// `d` back.
    ///
    /// The descriptor, its next stages and its nested children must name
    /// registered behaviors alone.
    pub fn add_single_danmaku(&mut self, d: DanmakuSpawnData, preferred_idx: Option<(usize, i64)>) -> (result:
        Result<Vec<DanmakuSpawnData>, DanmakuSpawnData>)
        requires
            old(self).wf(),
            d.all_known(old(self)@.registered_names()),
        ensures
            result matches Ok(children) ==> forest_known(
                children@,
                final(self)@.registered_names(),
            ),
            final(self).wf(),
            old(self)@.refuses(d, preferred_idx) <==> result is Err,
            result matches Err(refused) ==> refused == d && final(self)@ == old(self)@,
            result matches Ok(children) ==> {
                &&& final(self)@ == old(self)@.routed(d, preferred_idx)
                &&& !old(self)@.family_depths.contains_key(old(self)@.id_for(d))
                &&& children@.len() == d.children@.len()
                &&& forall|k: int|
                    0 <= k < children@.len() ==> #[trigger] children@[k] == (DanmakuSpawnData {
                        parent: Some(old(self)@.id_for(d)),
                        ..d.children@[k]
                    })
            },
    {
        broadcast use vstd::std_specs::hash::group_hash_axioms;

        let ghost before = self@;
        proof {
            lemma_known_signature(before, d);
        }
        let at = self.find_handler(&d.behaviors);
        let k = match at {
            Some(k) => k,
            None => {
                let behaviors = self.resolve(&d.behaviors);
                if self.next_identifier == i64::MAX {
                    return Err(d);
                }
                self.next_identifier += 1;
                let bucket = DanmakuBehaviorHandler::new(
                    self.next_identifier,
                    behaviors,
                    false,
                    self.widths,
                );
                self.handlers.push(bucket);
                proof {
                    assert(self@.handlers =~= before.with_bucket_for(d.behaviors@).handlers);
                }
                self.handlers.len() - 1
            },
        };
        let ghost ready = self@;
        proof {
            assert(ready == before.with_bucket_for(d.behaviors@));
            assert(k == before.target(d.behaviors@));
            lemma_ready_wf(before, d.behaviors@);
        }
        let idx = match preferred_idx {
            Some((slot, origin)) => if origin == self.handlers[k].identifier() {
                Some(slot)
            } else {
                None
            },
            None => None,
        };
        let bucket = &mut self.handlers[k];
        let result = bucket.add_danmaku_with_preffered_index(
            d,
            idx,
            &mut self.global_family_depth_map,
            &mut self.global_parent_map,
        );
        proof {
            if result is Ok {
                assert(self@.handlers =~= before.routed(d, preferred_idx).handlers);
                lemma_routed_wf(before, d, preferred_idx);
                let children = result->Ok_0;
                assert forall|j: int| 0 <= j < children@.len() implies (
                #[trigger] children@[j]).all_known(self@.registered_names()) by {
                    assert(d.children@[j].all_known(before.registered_names()));
                }
            } else {
                assert(self@.handlers =~= ready.handlers);
            }
        }
        result
    }

    /// Creates the projectiles that `danmaku` describes, and their
    /// children, and hands back the descriptors it has to turn away.
    ///
    /// The descriptors are taken in rounds. In a round, each descriptor
    /// whose family depth can be settled is settled and routed to the
    /// bucket for its signature, and its children wait for the next round,
    /// with the new projectile as their parent. A descriptor whose parent
    /// has no family depth on record yet waits for the next round too. The
    /// rounds end when none is left, or when a round has settled none.
    ///
    /// Turned away are the descriptors that no bucket could take, and those
    /// that were still waiting at the end: each with its nested children.
    ///
    /// The descriptors, their next stages and their nested children must
    /// name registered behaviors alone.
    pub fn add_danmaku(&mut self, danmaku: Vec<DanmakuSpawnData>) -> (rejected: Vec<DanmakuSpawnData>)
        requires
            old(self).wf(),
            forest_known(danmaku@, old(self)@.registered_names()),
        ensures
            final(self).wf(),
            added(old(self)@, danmaku@, final(self)@, rejected@),
            final(self)@.grown_from(old(self)@),
            forall|k: int|
                0 <= k < rejected@.len() ==> final(self)@.turns_away(#[trigger] rejected@[k]),
            forest_nodes(rejected@) <= forest_nodes(danmaku@),
            forest_nodes(rejected@) == 0 ==> final(self)@.family_depths.dom().len() == old(
                self,
            )@.family_depths.dom().len() + forest_nodes(danmaku@),
    {
        broadcast use vstd::std_specs::hash::group_hash_axioms;

        let ghost start = self@;
        let mut pending = danmaku;
        let mut rejected: Vec<DanmakuSpawnData> = Vec::new();
        let ghost mut rounds: nat = 0;
        let ghost mut moved = true;
        proof {
            lemma_grown_from_self(start);
        }
        loop
            invariant_except_break
                rounds == 0 || goes_on(moved, pending@),
            invariant
                after_rounds(start, danmaku@, rounds, self@, pending@, rejected@, moved),
                forest_known(pending@, start.registered_names()),
                start.wf(),
                self.wf(),
                self@.grown_from(start),
                self@.family_depths.dom().finite(),
                start.family_depths.dom().finite(),
                forall|k: int|
                    0 <= k < rejected@.len() ==> self@.refuses(#[trigger] rejected@[k], None),
                self@.family_depths.dom().len() + forest_nodes(pending@) + forest_nodes(
                    rejected@,
                ) == start.family_depths.dom().len() + forest_nodes(danmaku@),
            ensures
                rounds >= 1,
                after_rounds(start, danmaku@, rounds, self@, pending@, rejected@, moved),
                !goes_on(moved, pending@),
                start.wf(),
                self.wf(),
                self@.grown_from(start),
                forall|k: int|
                    0 <= k < rejected@.len() ==> self@.refuses(#[trigger] rejected@[k], None),
                forall|k: int|
                    0 <= k < pending@.len() ==> !(#[trigger] pending@[k]).settles(
                        self@.family_depths,
                    ),
                self@.family_depths.dom().finite(),
                start.family_depths.dom().finite(),
                self@.family_depths.dom().len() + forest_nodes(pending@) + forest_nodes(
                    rejected@,
                ) == start.family_depths.dom().len() + forest_nodes(danmaku@),
            decreases forest_nodes(pending@),
        {
            let ghost round_start = self@;
            let ghost waiting = pending@;
            let ghost turned = rejected@;
            let mut next: Vec<DanmakuSpawnData> = Vec::new();
            let mut progress = false;
            let mut round: Vec<DanmakuSpawnData> = Vec::new();
            core::mem::swap(&mut pending, &mut round);
            let ghost mut gone: Seq<DanmakuSpawnData> = Seq::empty();
            proof {
                assert(waiting.skip(0) == waiting);
                assert(waiting.take(0) =~= next@);
                assert(turned + gone == turned);
            }
            for d in it: round.into_iter()
                invariant
                    it.seq() == waiting,
                    forest_known(waiting, start.registered_names()),
                    forest_known(next@, start.registered_names()),
                    rejected@ == turned + gone,
                    round_taken(round_start, waiting, it.index() as int, self@, next@, gone),
                    round_start.family_depths.dom().finite(),
                    self@.family_depths.dom().len() >= round_start.family_depths.dom().len(),
                    progress ==> self@.family_depths.dom().len()
                        > round_start.family_depths.dom().len() || gone.len() > 0,
                    !progress ==> gone.len() == 0,
                    start.wf(),
                    self.wf(),
                    self@.grown_from(start),
                    self@.family_depths.dom().finite(),
                    !progress ==> self@ == round_start && rejected@ == turned && next@
                        == waiting.take(it.index() as int),
                    !progress ==> forall|k: int|
                        0 <= k < it.index() ==> !(#[trigger] waiting[k]).settles(
                            self@.family_depths,
                        ),
                    forall|k: int|
                        0 <= k < rejected@.len() ==> self@.refuses(#[trigger] rejected@[k], None),
                    self@.family_depths.dom().len() + forest_nodes(
                        waiting.skip(it.index() as int),
                    ) + forest_nodes(next@) + forest_nodes(rejected@)
                        == start.family_depths.dom().len() + forest_nodes(danmaku@),
                    forest_nodes(next@) + forest_nodes(waiting.skip(it.index() as int))
                        <= forest_nodes(waiting),
                    progress ==> forest_nodes(next@) + forest_nodes(
                        waiting.skip(it.index() as int),
                    ) < forest_nodes(waiting),
            {
                let ghost i = it.index() as int;
                let ghost at = self@;
                let ghost queued = next@;
                let ghost refused_before = rejected@;
                let ghost gone_before = gone;
                let ghost given = d;
                let mut d = d;
                proof {
                    assert(given == waiting[i]);
                    lemma_forest_first(waiting.skip(i));
                    assert(waiting.skip(i).drop_first() == waiting.skip(i + 1));
                    lemma_forest_single(d);
                }
                if d.can_settle(&self.global_family_depth_map) {
                    d.set_family_depth(&self.global_family_depth_map);
                    let ghost settled = d;
                    proof {
                        lemma_forest_single(settled);
                        lemma_settled_known(
                            given,
                            at.family_depths,
                            settled,
                            at.registered_names(),
                        );
                    }
                    match self.add_single_danmaku(d, None) {
                        Ok(children) => {
                            proof {
                                assert(forest_known(queued + children@, start.registered_names()))
                                    by {
                                    assert forall|j: int|
                                        0 <= j < (queued + children@).len() implies (
                                    #[trigger] (queued + children@)[j]).all_known(
                                        start.registered_names(),
                                    ) by {
                                        if j < queued.len() {
                                            assert((queued + children@)[j] == queued[j]);
                                        } else {
                                            assert((queued + children@)[j] == children@[j
                                                - queued.len()]);
                                        }
                                    }
                                }
                                lemma_routed_grows(at, settled, None);
                                lemma_grown_from_twice(start, at, self@);
                                lemma_forest_same_children(children@, settled.children@);
                                lemma_forest_joined(queued, children@);
                                assert forall|k: int| 0 <= k < rejected@.len() implies self@.refuses(
                                    #[trigger] rejected@[k],
                                    None,
                                ) by {
                                    lemma_refusal_stays(at, self@, rejected@[k]);
                                }
                                assert(given.settled_as(at.family_depths, &settled));
                                assert(took(at, given, self@, children@, Seq::empty()));
                                lemma_round_step(
                                    round_start,
                                    waiting,
                                    i + 1,
                                    at,
                                    queued,
                                    gone_before,
                                    self@,
                                    children@,
                                    Seq::empty(),
                                );
                                assert(gone_before + Seq::<DanmakuSpawnData>::empty()
                                    == gone_before);
                            }
                            let mut children = children;
                            next.append(&mut children);
                            progress = true;
                        },
                        Err(refused) => {
                            proof {
                                lemma_forest_joined(refused_before, seq![refused]);
                                lemma_forest_single(refused);
                                assert(refused_before + seq![refused] == refused_before.push(
                                    refused,
                                ));
                                assert(given.settled_as(at.family_depths, &settled));
                                assert(took(at, given, self@, Seq::empty(), seq![refused]));
                                lemma_round_step(
                                    round_start,
                                    waiting,
                                    i + 1,
                                    at,
                                    queued,
                                    gone_before,
                                    self@,
                                    Seq::empty(),
                                    seq![refused],
                                );
                                assert(queued + Seq::<DanmakuSpawnData>::empty() == queued);
                                gone = gone_before + seq![refused];
                                assert(turned + gone == (turned + gone_before) + seq![refused]);
                            }
                            rejected.push(refused);
                            progress = true;
                        },
                    }
                } else {
                    proof {
                        lemma_forest_joined(queued, seq![d]);
                        assert(queued + seq![d] == queued.push(d));
                        if !progress {
                            assert(queued.push(d) == waiting.take(i + 1));
                        }
                        assert(took(at, given, self@, seq![d], Seq::empty()));
                        lemma_round_step(
                            round_start,
                            waiting,
                            i + 1,
                            at,
                            queued,
                            gone_before,
                            self@,
                            seq![d],
                            Seq::empty(),
                        );
                        assert(gone_before + Seq::<DanmakuSpawnData>::empty() == gone_before);
                    }
                    next.push(d);
                }
            }
            proof {
                assert(waiting.skip(waiting.len() as int) =~= Seq::empty());
                assert(waiting.take(waiting.len() as int) == waiting);
                lemma_rounds_step(
                    start,
                    danmaku@,
                    rounds + 1,
                    round_start,
                    waiting,
                    turned,
                    moved,
                    self@,
                    next@,
                    gone,
                );
                if self@ == round_start {
                    assert(self@.family_depths.dom().len()
                        == round_start.family_depths.dom().len());
                }
                rounds = rounds + 1;
                moved = progress;
            }
            pending = next;
            if !progress || pending.len() == 0 {
                break ;
            }
        }
        proof {
            assert(added(start, danmaku@, self@, rejected@ + pending@));
            lemma_forest_joined(rejected@, pending@);
            vstd::set_lib::lemma_len_subset(start.family_depths.dom(), self@.family_depths.dom());
            assert forall|k: int| 0 <= k < (rejected@ + pending@).len() implies self@.turns_away(
                #[trigger] (rejected@ + pending@)[k],
            ) by {
                if k >= rejected@.len() {
                    assert((rejected@ + pending@)[k] == pending@[k - rejected@.len()]);
                } else {
                    assert((rejected@ + pending@)[k] == rejected@[k]);
                }
            }
        }
        rejected.append(&mut pending);
        rejected
    }

    /// Lets every bucket run its behaviors on its slots in use, and hands
    /// over the spawns they ask for, bucket after bucket, each with the
    /// slot it prefers and the identifier of the bucket that asks.
    fn tick_buckets(&mut self) -> (asked: Vec<(DanmakuSpawnData, Option<usize>, i64)>)
        requires
            old(self).wf(),
        ensures
            final(self).wf(),
            final(self)@.grown_from(old(self)@),
            final(self)@ == (HandlerView { handlers: final(self)@.handlers, ..old(self)@ }),
            final(self)@.handlers.len() == old(self)@.handlers.len(),
            buckets_ticked(
                old(self)@.handlers,
                final(self)@.handlers,
                old(self)@.handlers.len() as int,
                asked@,
            ),
            forall|k: int|
                0 <= k < asked@.len() ==> (#[trigger] asked@[k]).0.all_known(
                    old(self)@.registered_names(),
                ),
    {
        let ghost start = self@;
        let mut asked: Vec<(DanmakuSpawnData, Option<usize>, i64)> = Vec::new();
        let n = self.handlers.len();
        let mut k: usize = 0;
        proof {
            lemma_grown_from_self(start);
        }
        while k < n
            invariant
                k <= n,
                n == self@.handlers.len(),
                n == start.handlers.len(),
                start.wf(),
                self.wf(),
                self@.grown_from(start),
                self@ == (HandlerView { handlers: self@.handlers, ..start }),
                forall|j: int| k <= j < n ==> self@.handlers[j] == start.handlers[j],
                buckets_ticked(start.handlers, self@.handlers, k as int, asked@),
                forall|j: int|
                    0 <= j < asked@.len() ==> (#[trigger] asked@[j]).0.all_known(
                        start.registered_names(),
                    ),
            decreases n - k,
        {
            let ghost at = self@;
            let ghost before = asked@;
            proof {
                assert(self@.handlers[k as int] == self.handlers@[k as int]@);
                assert(self.handlers@[k as int].store_wf());
            }
            let origin = self.handlers[k].identifier();
            let bucket = &mut self.handlers[k];
            let spawns = bucket.tick();
            proof {
                assert(self@.handlers =~= at.handlers.update(k as int, self@.handlers[k as int]));
                assert(at.handlers[k as int].columns.asks_only(at.registered_names()));
                lemma_bucket_step(at, self@, k as int);
                lemma_grown_from_twice(start, at, self@);
                lemma_buckets_ticked_reads(
                    start.handlers,
                    at.handlers,
                    self@.handlers,
                    k as int,
                    before,
                );
                assert(bucket_ticked(start.handlers[k as int], self@.handlers[k as int], spawns@));
            }
            for spawn in it: spawns.into_iter()
                invariant
                    it.seq() == spawns@,
                    asked@ == before + tagged(spawns@.take(it.index() as int), origin),
                    forall|j: int|
                        0 <= j < spawns@.len() ==> (#[trigger] spawns@[j]).0.all_known(
                            start.registered_names(),
                        ),
                    forall|j: int|
                        0 <= j < asked@.len() ==> (#[trigger] asked@[j]).0.all_known(
                            start.registered_names(),
                        ),
            {
                proof {
                    let j = it.index() as int;
                    assert(tagged(spawns@.take(j), origin).push((spawn.0, spawn.1, origin))
                        =~= tagged(spawns@.take(j + 1), origin));
                    assert((before + tagged(spawns@.take(j), origin)).push(
                        (spawn.0, spawn.1, origin),
                    ) =~= before + tagged(spawns@.take(j + 1), origin));
                }
                asked.push((spawn.0, spawn.1, origin));
            }
            proof {
                assert(spawns@.take(spawns@.len() as int) == spawns@);
                assert(bucket_step(
                    start.handlers[k as int],
                    self@.handlers[k as int],
                    before,
                    asked@,
                ));
                lemma_buckets_step(start.handlers, self@.handlers, k + 1, before, asked@);
            }
            k += 1;
        }
        asked
    }

    /// Goes through the spawns that the buckets have asked for, and sorts
    /// out those that take over a slot: a spawn that prefers a dead slot
    /// of the bucket that asked, where that is the bucket for its
    /// signature, is settled, and takes the slot over. Hands back the
    /// descriptors still to create, which are the other spawns and the
    /// children of those that took a slot over, and the descriptors turned
    /// away.
    fn take_over_slots(&mut self, asked: Vec<(DanmakuSpawnData, Option<usize>, i64)>) -> (left: (
        Vec<DanmakuSpawnData>,
        Vec<DanmakuSpawnData>,
    ))
        requires
            old(self).wf(),
            forall|k: int|
                0 <= k < asked@.len() ==> (#[trigger] asked@[k]).0.all_known(
                    old(self)@.registered_names(),
                ),
        ensures
            final(self).wf(),
            final(self)@.grown_from(old(self)@),
            forest_known(left.0@, old(self)@.registered_names()),
            taken_over(old(self)@, asked@, asked@.len() as int, final(self)@, left.0@, left.1@),
            forall|j: int|
                0 <= j < left.1@.len() ==> final(self)@.refuses(#[trigger] left.1@[j], None),
    {
        let ghost start = self@;
        let mut plain: Vec<DanmakuSpawnData> = Vec::new();
        let mut away: Vec<DanmakuSpawnData> = Vec::new();
        proof {
            lemma_grown_from_self(start);
        }
        for ask in it: asked.into_iter()
            invariant
                it.seq() == asked@,
                start.wf(),
                self.wf(),
                self@.grown_from(start),
                taken_over(start, asked@, it.index() as int, self@, plain@, away@),
                forall|j: int| 0 <= j < away@.len() ==> self@.refuses(#[trigger] away@[j], None),
                forall|j: int|
                    0 <= j < asked@.len() ==> (#[trigger] asked@[j]).0.all_known(
                        start.registered_names(),
                    ),
                forest_known(plain@, start.registered_names()),
        {
            let ghost i = it.index() as int;
            let ghost at = self@;
            let ghost plain_before = plain@;
            let ghost away_before = away@;
            let ghost given = ask;
            let (d, preferred, origin) = ask;
            let mut d = d;
            let takes = match preferred {
                Some(slot) => match self.find_handler(&d.behaviors) {
                    Some(j) => self.handlers[j].identifier() == origin && slot
                        < self.handlers[j].columns().capacity() && self.handlers[j].columns().dead(
                        slot,
                    ),
                    None => false,
                },
                None => false,
            };
            proof {
                assert(given == asked@[i]);
                assert(takes == takes_over(at, given.0, preferred, origin));
            }
            if takes && d.can_settle(&self.global_family_depth_map) {
                let slot = match preferred {
                    Some(slot) => slot,
                    None => 0,
                };
                d.set_family_depth(&self.global_family_depth_map);
                let ghost settled = d;
                proof {
                    lemma_settled_known(given.0, at.family_depths, settled, at.registered_names());
                }
                match self.add_single_danmaku(d, Some((slot, origin))) {
                    Ok(children) => {
                        proof {
                            assert(forest_known(plain_before + children@, start.registered_names()))
                                by {
                                assert forall|j: int|
                                    0 <= j < (plain_before + children@).len() implies (
                                #[trigger] (plain_before + children@)[j]).all_known(
                                    start.registered_names(),
                                ) by {
                                    if j < plain_before.len() {
                                        assert((plain_before + children@)[j] == plain_before[j]);
                                    } else {
                                        assert((plain_before + children@)[j] == children@[j
                                            - plain_before.len()]);
                                    }
                                }
                            }
                            lemma_routed_wf(at, settled, Some((slot, origin)));
                            lemma_routed_follows(at, settled, Some((slot, origin)));
                            lemma_grown_from_twice(start, at, self@);
                            assert forall|j: int| 0 <= j < away@.len() implies self@.refuses(
                                #[trigger] away@[j],
                                None,
                            ) by {
                                lemma_refusal_stays(at, self@, away@[j]);
                            }
                            assert(given.0.settled_as(at.family_depths, &settled));
                            assert(took_over(at, given, self@, children@, Seq::empty()));
                            lemma_take_over_step(
                                start,
                                asked@,
                                i + 1,
                                at,
                                plain_before,
                                away_before,
                                self@,
                                children@,
                                Seq::empty(),
                            );
                            assert(away_before + Seq::<DanmakuSpawnData>::empty() == away_before);
                        }
                        let mut children = children;
                        plain.append(&mut children);
                    },
                    Err(refused) => {
                        proof {
                            assert(given.0.settled_as(at.family_depths, &settled));
                            assert(took_over(at, given, self@, Seq::empty(), seq![refused]));
                            lemma_take_over_step(
                                start,
                                asked@,
                                i + 1,
                                at,
                                plain_before,
                                away_before,
                                self@,
                                Seq::empty(),
                                seq![refused],
                            );
                            assert(plain_before + Seq::<DanmakuSpawnData>::empty()
                                == plain_before);
                            assert(away_before + seq![refused] == away_before.push(refused));
                        }
                        away.push(refused);
                    },
                }
            } else {
                proof {
                    assert(took_over(at, given, self@, seq![d], Seq::empty()));
                    lemma_take_over_step(
                        start,
                        asked@,
                        i + 1,
                        at,
                        plain_before,
                        away_before,
                        self@,
                        seq![d],
                        Seq::empty(),
                    );
                    assert(away_before + Seq::<DanmakuSpawnData>::empty() == away_before);
                    assert(plain_before + seq![d] == plain_before.push(d));
                }
                plain.push(d);
            }
        }
        (plain, away)
    }

    /// Advances the simulation by one tick, and hands back the descriptors
    /// it has to turn away.
    ///
    /// Every bucket runs its behaviors on its slots in use. Then the
    /// spawns they ask for are gone through: one that prefers a dead slot
    /// of the bucket that asked, where that is the bucket for its
    /// signature, takes that slot over. The others, and the children of
    /// those, are then created as [`add_danmaku`](Self::add_danmaku)
    /// creates them, behind the slots in use.
    pub fn tick(&mut self) -> (rejected: Vec<DanmakuSpawnData>)
        requires
            old(self).wf(),
        ensures
            final(self).wf(),
            ticked(old(self)@, final(self)@, rejected@),
            final(self)@.grown_from(old(self)@),
            forall|k: int|
                0 <= k < rejected@.len() ==> final(self)@.turns_away(#[trigger] rejected@[k]),
    {
        let ghost start = self@;
        let asked = self.tick_buckets();
        let ghost ran = self@;
        let (plain, mut rejected) = self.take_over_slots(asked);
        let ghost routed = self@;
        let ghost away = rejected@;
        let mut turned = self.add_danmaku(plain);
        proof {
            lemma_grown_from_twice(start, ran, routed);
            lemma_grown_from_twice(start, routed, self@);
            assert forall|j: int| 0 <= j < (rejected@ + turned@).len() implies self@.turns_away(
                #[trigger] (rejected@ + turned@)[j],
            ) by {
                if j < rejected@.len() {
                    assert((rejected@ + turned@)[j] == rejected@[j]);
                    lemma_refusal_stays(routed, self@, rejected@[j]);
                } else {
                    assert((rejected@ + turned@)[j] == turned@[j - rejected@.len()]);
                }
            }
            assert(tick_steps(start, ran, asked@, routed, plain@, away, turned@, self@));
        }
        rejected.append(&mut turned);
        rejected
    }

    /// What a frame shows of the simulation at `partial_ticks` between
    /// the previous tick and the current one, in world space.
    ///
    /// Every bucket gives out its live projectiles in model space. Then
    /// the parent links are composed in, those of shallower children
    /// first: a child has its parent's matrix multiplied to its own from
    /// the left, and a child whose parent is not shown is not shown
    /// either.
    pub fn render_data<N: Numerics>(&mut self, numerics: &N, partial_ticks: Scalar) -> (world: Vec<
        RenderData,
    >)
        requires
            old(self).wf(),
        ensures
            final(self).wf(),
            final(self)@ == (HandlerView { handlers: final(self)@.handlers, ..old(self)@ }),
            final(self)@.handlers.len() == old(self)@.handlers.len(),
            exists|local: Seq<(i128, RenderData)>, order: Seq<Link>|
                {
                    &&& #[trigger] framed(
                        numerics,
                        old(self)@.handlers,
                        final(self)@.handlers,
                        old(self)@.handlers.len() as int,
                        local,
                        partial_ticks,
                    )
                    &&& depth_ordered(order, old(self)@.parents, old(self)@.family_depths)
                    &&& #[trigger] composed_in_order(numerics, local, order, world@)
                },
    {
        let ghost start = self@;
        let mut local: Vec<(i128, RenderData)> = Vec::new();
        let n = self.handlers.len();
        let mut k: usize = 0;
        while k < n
            invariant
                k <= n,
                n == start.handlers.len(),
                n == self@.handlers.len(),
                start.wf(),
                self.wf(),
                self@ == (HandlerView { handlers: self@.handlers, ..start }),
                forall|j: int| k <= j < n ==> self@.handlers[j] == start.handlers[j],
                framed(numerics, start.handlers, self@.handlers, k as int, local@, partial_ticks),
            decreases n - k,
        {
            let ghost at = self@;
            let ghost so_far = local@;
            proof {
                assert(self@.handlers[k as int] == self.handlers@[k as int]@);
                assert(self.handlers@[k as int].store_wf());
            }
            let bucket = &mut self.handlers[k];
            let mut part = bucket.compute_and_get_render_data(numerics, partial_ticks);
            let ghost shown = part@;
            local.append(&mut part);
            proof {
                assert(self@.handlers =~= at.handlers.update(k as int, self@.handlers[k as int]));
                assert(at.handlers[k as int].columns.asks_only(at.registered_names()));
                assert(self@.handlers[k as int].columns.next_stage
                    == at.handlers[k as int].columns.next_stage);
                lemma_bucket_step(at, self@, k as int);
                lemma_framed_reads(
                    numerics,
                    start.handlers,
                    at.handlers,
                    self@.handlers,
                    k as int,
                    so_far,
                    partial_ticks,
                );
                lemma_framed_step(
                    numerics,
                    start.handlers,
                    self@.handlers,
                    k + 1,
                    so_far,
                    shown,
                    partial_ticks,
                );
            }
            k += 1;
        }
        let order = composition_order(&self.global_parent_map, &self.global_family_depth_map);
        let world = compose_in_order(numerics, local, &order);
        proof {
            assert(framed(
                numerics,
                start.handlers,
                self@.handlers,
                start.handlers.len() as int,
                local@,
                partial_ticks,
            ));
            assert(composed_in_order(numerics, local@, order@, world@));
        }
        world
    }

    /// The number of buckets.
    pub fn bucket_count(&self) -> (n: usize)
        ensures
            n == self@.handlers.len(),
    {
        self.handlers.len()
    }

    /// The bucket at position `k`.
    pub fn bucket(&self, k: usize) -> (bucket: &DanmakuBehaviorHandler<A>)
        requires
            self.wf(),
            k < self@.handlers.len(),
        ensures
            bucket@ == self@.handlers[k as int],
            bucket.wf(),
    {
        &self.handlers[k]
    }

    /// The family depth on record for the projectile `id`.
    pub fn family_depth(&self, id: i128) -> (depth: Option<i16>)
        ensures
            depth == if self@.family_depths.contains_key(id) {
                Some(self@.family_depths[id])
            } else {
                None
            },
    {
        broadcast use vstd::std_specs::hash::group_hash_axioms;

        match self.global_family_depth_map.get(&id) {
            Some(depth) => Some(*depth),
            None => None,
        }
    }

    /// The parent on record for the projectile `id`.
    pub fn parent(&self, id: i128) -> (parent: Option<i128>)
        ensures
            parent == if self@.parents.contains_key(id) {
                Some(self@.parents[id])
            } else {
                None
            },
    {
        broadcast use vstd::std_specs::hash::group_hash_axioms;

        match self.global_parent_map.get(&id) {
            Some(parent) => Some(*parent),
            None => None,
        }
    }

    /// Drops the buckets that hold no live projectile and are not to be
    /// kept always.
    pub fn cleanup(&mut self)
        requires
            old(self).wf(),
        ensures
            final(self).wf(),
            final(self)@ == old(self)@.cleaned(),
    {
        let ghost before = self@;
        let mut all: Vec<DanmakuBehaviorHandler<A>> = Vec::new();
        core::mem::swap(&mut self.handlers, &mut all);
        let ghost views = before.handlers;
        let mut staying: Vec<DanmakuBehaviorHandler<A>> = Vec::new();
        for bucket in it: all.into_iter()
            invariant
                it.seq() == all@,
                before.wf(),
                views == Seq::new(all@.len(), |k: int| all@[k]@),
                views == before.handlers,
                forall|k: int| 0 <= k < all@.len() ==> (#[trigger] all@[k]).store_wf(),
                forall|k: int| 0 <= k < staying@.len() ==> (#[trigger] staying@[k]).store_wf(),
                Seq::new(staying@.len(), |k: int| staying@[k]@) == kept(
                    views.take(it.index() as int),
                    dropped(views),
                ),
        {
            proof {
                let i = it.index() as int;
                assert(views.take(i + 1).drop_last() == views.take(i));
                assert(bucket@ == views[i]);
                assert(bucket.wf());
            }
            let ghost so_far = Seq::new(staying@.len(), |k: int| staying@[k]@);
            if bucket.stays() {
                staying.push(bucket);
                proof {
                    assert(Seq::new(staying@.len(), |k: int| staying@[k]@) =~= so_far.push(bucket@));
                }
            }
        }
        self.handlers = staying;
        proof {
            assert(views.take(views.len() as int) == views);
            lemma_cleaned_wf(before);
        }
    }
}

/// The identifier made from a bucket and a count names that bucket and
/// that count.
pub proof fn lemma_id_parts(bucket: int, count: int)
    requires
        i64::MIN <= bucket <= i64::MAX,
        0 <= count <= i64::MAX,
    ensures
        i128::MIN <= crate::bucket::make_id(bucket, count) <= i128::MAX,
        bucket_of(crate::bucket::make_id(bucket, count) as i128) == bucket,
        count_of(crate::bucket::make_id(bucket, count) as i128) == count,
{
    let stride = ID_STRIDE as int;
    let id = bucket * stride + count;
    assert(i128::MIN <= id <= i128::MAX) by (nonlinear_arith)
        requires
            -0x8000_0000_0000_0000 <= bucket <= 0x7FFF_FFFF_FFFF_FFFF,
            0 <= count <= 0x7FFF_FFFF_FFFF_FFFF,
            stride == 0x1_0000_0000_0000_0000,
            id == bucket * stride + count,
    ;
    vstd::arithmetic::div_mod::lemma_fundamental_div_mod_converse(id, stride, bucket, count);
}

/// A handler with the bucket for a signature in place is well-formed,
/// where the bucket could be made.
pub proof fn lemma_ready_wf<A: Act>(v: HandlerView<A>, signature: Seq<&'static str>)
    requires
        v.wf(),
        bucket_at(v.handlers, names(signature)) is None ==> v.knows(signature) && v.next_identifier
            < i64::MAX,
    ensures
        v.with_bucket_for(signature).wf(),
        0 <= v.target(signature) < v.with_bucket_for(signature).handlers.len(),
        names(v.with_bucket_for(signature).handlers[v.target(signature)].signature) == names(
            signature,
        ),
        bucket_at(v.handlers, names(signature)) is None ==> !v.with_bucket_for(
            signature,
        ).handlers[v.target(signature)].refuses(None) && forall|slot: usize|
            !v.with_bucket_for(signature).handlers[v.target(signature)].refuses(Some(slot)),
{
    if bucket_at(v.handlers, names(signature)) is None {
        let ready = v.with_bucket_for(signature);
        let behaviors = v.resolved(signature);
        let made = ready.handlers[v.handlers.len() as int];
        assert forall|k: int| 0 <= k < behaviors.len() implies (#[trigger] behaviors[k]).wf() by {
            assert(registered_at(v.behaviors, signature[k]@) is Some);
        }
        assert(names(made.signature) =~= names(signature)) by {
            assert forall|k: int| 0 <= k < signature.len() implies names(made.signature)[k]
                == names(signature)[k] by {
                assert(registered_at(v.behaviors, signature[k]@) is Some);
            }
        }
        crate::bucket::lemma_fresh_bucket_wf(
            (v.next_identifier + 1) as i64,
            behaviors,
            false,
            v.widths,
        );
        assert forall|id: i128| #[trigger] ready.family_depths.contains_key(id) implies ready.issued(
            id,
        ) by {
            assert(v.issued(id));
        }
    }
}

/// A descriptor that names registered behaviors alone has a signature
/// that the handler knows.
pub proof fn lemma_known_signature<A: Act>(v: HandlerView<A>, danmaku: DanmakuSpawnData)
    requires
        danmaku.all_known(v.registered_names()),
    ensures
        v.knows(danmaku.behaviors@),
{
    assert forall|k: int| 0 <= k < danmaku.behaviors@.len() implies registered_at(
        v.behaviors,
        (#[trigger] danmaku.behaviors@[k])@,
    ) is Some by {
        assert(v.registered_names().contains(danmaku.behaviors@[k]@));
    }
}

/// A handler that has taken a projectile is well-formed, and the
/// identifier it gave was not on record before.
pub proof fn lemma_routed_wf<A: Act>(
    v: HandlerView<A>,
    danmaku: DanmakuSpawnData,
    preferred: Option<(usize, i64)>,
)
    requires
        v.wf(),
        danmaku.all_known(v.registered_names()),
        !v.refuses(danmaku, preferred),
    ensures
        v.routed(danmaku, preferred).wf(),
        !v.family_depths.contains_key(v.id_for(danmaku)),
{
    let signature = danmaku.behaviors@;
    let ready = v.with_bucket_for(signature);
    lemma_known_signature(v, danmaku);
    lemma_ready_wf(v, signature);
    crate::bucket::lemma_inserted_asks_only(
        ready.handlers[v.target(signature)],
        danmaku,
        ready.slot_asked(v.target(signature), preferred),
        v.registered_names(),
    );
    let k = v.target(signature);
    let bucket = ready.handlers[k];
    let idx = ready.slot_asked(k, preferred);
    let after = v.routed(danmaku, preferred);
    let id = v.id_for(danmaku);
    assert(!bucket.refuses(idx));
    crate::bucket::lemma_inserted_wf(bucket, danmaku, idx);
    lemma_id_parts(bucket.identifier as int, bucket.next_dan_identifier as int);
    assert(!v.family_depths.contains_key(id)) by {
        if v.family_depths.contains_key(id) {
            assert(v.issued(id));
            if bucket_at(v.handlers, names(signature)) is Some {
                assert(v.handlers[k].identifier == bucket_of(id));
            }
        }
    }
    assert forall|other: i128| #[trigger] after.family_depths.contains_key(other) implies after.issued(
        other,
    ) by {
        if other == id {
            assert forall|j: int|
                0 <= j < after.handlers.len() && (#[trigger] after.handlers[j]).identifier
                    == bucket_of(other) implies count_of(other)
                < after.handlers[j].next_dan_identifier by {
                if j != k {
                    assert(ready.handlers[j].identifier != ready.handlers[k].identifier);
                }
            }
        } else {
            assert(ready.issued(other));
            assert forall|j: int|
                0 <= j < after.handlers.len() && (#[trigger] after.handlers[j]).identifier
                    == bucket_of(other) implies count_of(other)
                < after.handlers[j].next_dan_identifier by {
                assert(ready.handlers[j].identifier == after.handlers[j].identifier);
            }
        }
    }
    assert forall|j: int, l: int|
        0 <= j < after.handlers.len() && 0 <= l < after.handlers.len() && j != l implies names(
        (#[trigger] after.handlers[j]).signature,
    ) != names((#[trigger] after.handlers[l]).signature) && after.handlers[j].identifier
        != after.handlers[l].identifier by {
        assert(ready.handlers[j].signature == after.handlers[j].signature);
        assert(ready.handlers[l].signature == after.handlers[l].signature);
    }
}

/// Whether `out` are the children `children` with the projectile `id` as
/// their parent.
pub open spec fn adopted(
    children: Seq<DanmakuSpawnData>,
    id: i128,
    out: Seq<DanmakuSpawnData>,
) -> bool {
    &&& out.len() == children.len()
    &&& forall|k: int|
        0 <= k < children.len() ==> #[trigger] out[k] == (DanmakuSpawnData {
            parent: Some(id),
            ..children[k]
        })
}

/// Whether a handler `v` that comes to the descriptor `d` in a round can
/// come out as `w`, with `waits` to wait for the next round and `away`
/// turned away.
///
/// A descriptor whose family depth cannot be settled waits, as it is. One
/// that can is settled; where the handler cannot take it, it is turned
/// away; where it can, the handler takes it, and its children wait, with
/// the new projectile as their parent.
pub open spec fn took<A: Act>(
    v: HandlerView<A>,
    d: DanmakuSpawnData,
    w: HandlerView<A>,
    waits: Seq<DanmakuSpawnData>,
    away: Seq<DanmakuSpawnData>,
) -> bool {
    if !d.settles(v.family_depths) {
        w == v && waits == seq![d] && away.len() == 0
    } else {
        exists|s: DanmakuSpawnData| #[trigger]
            d.settled_as(v.family_depths, &s) && (if v.refuses(s, None) {
                w == v && waits.len() == 0 && away == seq![s]
            } else {
                w == v.routed(s, None) && adopted(s.children@, v.id_for(s), waits) && away.len()
                    == 0
            })
    }
}

/// Whether a handler `m` in a round, with `next_before` waiting for the
/// next round and `away_before` turned away, can take the descriptor `d`
/// and come out as `w`, with `next` waiting and `away` turned away.
pub open spec fn round_step<A: Act>(
    m: HandlerView<A>,
    next_before: Seq<DanmakuSpawnData>,
    away_before: Seq<DanmakuSpawnData>,
    d: DanmakuSpawnData,
    w: HandlerView<A>,
    next: Seq<DanmakuSpawnData>,
    away: Seq<DanmakuSpawnData>,
) -> bool {
    exists|waits: Seq<DanmakuSpawnData>, gone: Seq<DanmakuSpawnData>|
        {
            &&& #[trigger] took(m, d, w, waits, gone)
            &&& next == next_before + waits
            &&& away == away_before + gone
        }
}

/// Whether a handler `v` that goes through the first `n` descriptors of
/// `pending` in a round can come out as `w`, with `next` to wait for the
/// next round and `away` turned away.
pub open spec fn round_taken<A: Act>(
    v: HandlerView<A>,
    pending: Seq<DanmakuSpawnData>,
    n: int,
    w: HandlerView<A>,
    next: Seq<DanmakuSpawnData>,
    away: Seq<DanmakuSpawnData>,
) -> bool
    decreases n,
{
    if n <= 0 {
        w == v && next.len() == 0 && away.len() == 0
    } else {
        exists|
            m: HandlerView<A>,
            next_before: Seq<DanmakuSpawnData>,
            away_before: Seq<DanmakuSpawnData>,
        |
            {
                &&& round_taken(v, pending, n - 1, m, next_before, away_before)
                &&& #[trigger] round_step(
                    m,
                    next_before,
                    away_before,
                    pending[n - 1],
                    w,
                    next,
                    away,
                )
            }
    }
}

/// Whether the rounds go on after a round that has `moved` or not and has
/// left `waiting`: it has settled a descriptor, and some still wait.
pub open spec fn goes_on(moved: bool, waiting: Seq<DanmakuSpawnData>) -> bool {
    moved && waiting.len() > 0
}

/// Whether a handler `m` that has `waiting_before` waiting and
/// `away_before` turned away, after a round that has `moved_before` or
/// not, can go through one more round and come out as `w`, with `waiting`
/// still to wait and `away` turned away; and whether that round has
/// `moved`: settled a descriptor. The round is the first (`round` is 1),
/// or the round before it goes on.
pub open spec fn rounds_step<A: Act>(
    round: nat,
    m: HandlerView<A>,
    waiting_before: Seq<DanmakuSpawnData>,
    away_before: Seq<DanmakuSpawnData>,
    moved_before: bool,
    w: HandlerView<A>,
    waiting: Seq<DanmakuSpawnData>,
    away: Seq<DanmakuSpawnData>,
    moved: bool,
) -> bool {
    &&& round == 1 || goes_on(moved_before, waiting_before)
    &&& exists|gone: Seq<DanmakuSpawnData>|
        {
            &&& #[trigger] round_taken(
                m,
                waiting_before,
                waiting_before.len() as int,
                w,
                waiting,
                gone,
            )
            &&& away == away_before + gone
            &&& moved == !(w == m && gone.len() == 0)
        }
}

/// Whether a handler `v` that goes through `pending` in `rounds` rounds,
/// each on what the round before has left waiting, can come out as `w`,
/// with `waiting` still to wait and `away` turned away so far; and whether
/// the last of those rounds has `moved`: settled a descriptor. Every round
/// but the last goes on.
pub open spec fn after_rounds<A: Act>(
    v: HandlerView<A>,
    pending: Seq<DanmakuSpawnData>,
    rounds: nat,
    w: HandlerView<A>,
    waiting: Seq<DanmakuSpawnData>,
    away: Seq<DanmakuSpawnData>,
    moved: bool,
) -> bool
    decreases rounds,
{
    if rounds == 0 {
        w == v && waiting == pending && away.len() == 0 && moved
    } else {
        exists|
            m: HandlerView<A>,
            waiting_before: Seq<DanmakuSpawnData>,
            away_before: Seq<DanmakuSpawnData>,
            moved_before: bool,
        |
            {
                &&& after_rounds(
                    v,
                    pending,
                    (rounds - 1) as nat,
                    m,
                    waiting_before,
                    away_before,
                    moved_before,
                )
                &&& #[trigger] rounds_step(
                    rounds,
                    m,
                    waiting_before,
                    away_before,
                    moved_before,
                    w,
                    waiting,
                    away,
                    moved,
                )
            }
    }
}

/// Whether a handler `v` that is given `danmaku` to create can come out as
/// `w`, with `rejected` turned away: the descriptors go through at least
/// one round, and through another as long as the last one has settled a
/// descriptor and some still wait. Turned away are those that no bucket
/// could take, in the order in which they were refused, then those that
/// still wait.
pub open spec fn added<A: Act>(
    v: HandlerView<A>,
    danmaku: Seq<DanmakuSpawnData>,
    w: HandlerView<A>,
    rejected: Seq<DanmakuSpawnData>,
) -> bool {
    exists|rounds: nat, waiting: Seq<DanmakuSpawnData>, away: Seq<DanmakuSpawnData>, moved: bool|
        {
            &&& rounds >= 1
            &&& #[trigger] after_rounds(v, danmaku, rounds, w, waiting, away, moved)
            &&& !goes_on(moved, waiting)
            &&& rejected == away + waiting
        }
}

/// One more descriptor taken makes one more step of a round.
pub proof fn lemma_round_step<A: Act>(
    v: HandlerView<A>,
    pending: Seq<DanmakuSpawnData>,
    n: int,
    m: HandlerView<A>,
    next_before: Seq<DanmakuSpawnData>,
    away_before: Seq<DanmakuSpawnData>,
    w: HandlerView<A>,
    waits: Seq<DanmakuSpawnData>,
    gone: Seq<DanmakuSpawnData>,
)
    requires
        n > 0,
        round_taken(v, pending, n - 1, m, next_before, away_before),
        took(m, pending[n - 1], w, waits, gone),
    ensures
        round_taken(v, pending, n, w, next_before + waits, away_before + gone),
{
    assert(round_step(
        m,
        next_before,
        away_before,
        pending[n - 1],
        w,
        next_before + waits,
        away_before + gone,
    ));
}

/// One more round makes one more step of the rounds.
pub proof fn lemma_rounds_step<A: Act>(
    v: HandlerView<A>,
    pending: Seq<DanmakuSpawnData>,
    rounds: nat,
    m: HandlerView<A>,
    waiting_before: Seq<DanmakuSpawnData>,
    away_before: Seq<DanmakuSpawnData>,
    moved_before: bool,
    w: HandlerView<A>,
    waiting: Seq<DanmakuSpawnData>,
    gone: Seq<DanmakuSpawnData>,
)
    requires
        rounds >= 1,
        after_rounds(v, pending, (rounds - 1) as nat, m, waiting_before, away_before, moved_before),
        rounds == 1 || goes_on(moved_before, waiting_before),
        round_taken(m, waiting_before, waiting_before.len() as int, w, waiting, gone),
    ensures
        after_rounds(
            v,
            pending,
            rounds,
            w,
            waiting,
            away_before + gone,
            !(w == m && gone.len() == 0),
        ),
{
    assert(rounds_step(
        rounds,
        m,
        waiting_before,
        away_before,
        moved_before,
        w,
        waiting,
        away_before + gone,
        !(w == m && gone.len() == 0),
    ));
}

/// The spawns `spawns` that a bucket asks for, each with the identifier
/// `origin` of that bucket.
pub open spec fn tagged(spawns: Seq<(DanmakuSpawnData, Option<usize>)>, origin: i64) -> Seq<
    (DanmakuSpawnData, Option<usize>, i64),
> {
    Seq::new(spawns.len(), |k: int| (spawns[k].0, spawns[k].1, origin))
}

/// Whether a bucket `before` that runs its behaviors for a tick can come
/// out as `after`, asking for `spawns`: its behaviors have run in their
/// order on its slots in use, and the spawns they asked for are handed
/// over. Nothing but what the store holds has changed.
pub open spec fn bucket_ticked<A: Act>(
    before: BucketView<A>,
    after: BucketView<A>,
    spawns: Seq<(DanmakuSpawnData, Option<usize>)>,
) -> bool {
    &&& after == (BucketView { columns: after.columns, ..before })
    &&& after.columns.shaped_like(before.columns)
    &&& after.columns.add_spawns.len() == 0
    &&& crate::behavior::ran(
        before.behaviors,
        before.behaviors.len() as int,
        before.columns,
        crate::columns::ColumnsView { add_spawns: spawns, ..after.columns },
        before.current_size as int,
    )
}

/// Whether a bucket `before` can tick and come out as `after`, so that the
/// spawns asked for so far grow from `asked_before` to `asked`.
pub open spec fn bucket_step<A: Act>(
    before: BucketView<A>,
    after: BucketView<A>,
    asked_before: Seq<(DanmakuSpawnData, Option<usize>, i64)>,
    asked: Seq<(DanmakuSpawnData, Option<usize>, i64)>,
) -> bool {
    exists|spawns: Seq<(DanmakuSpawnData, Option<usize>)>| #[trigger]
        bucket_ticked(before, after, spawns) && asked == asked_before + tagged(
            spawns,
            before.identifier,
        )
}

/// Whether the first `n` of the buckets `before` can tick, one after the
/// other, and come out as the first `n` of `after`, asking for `asked`.
pub open spec fn buckets_ticked<A: Act>(
    before: Seq<BucketView<A>>,
    after: Seq<BucketView<A>>,
    n: int,
    asked: Seq<(DanmakuSpawnData, Option<usize>, i64)>,
) -> bool
    decreases n,
{
    if n <= 0 {
        asked.len() == 0
    } else {
        exists|asked_before: Seq<(DanmakuSpawnData, Option<usize>, i64)>|
            buckets_ticked(before, after, n - 1, asked_before) && #[trigger] bucket_step(
                before[n - 1],
                after[n - 1],
                asked_before,
                asked,
            )
    }
}

/// One more bucket that has ticked makes one more step of the tick.
pub proof fn lemma_buckets_step<A: Act>(
    before: Seq<BucketView<A>>,
    after: Seq<BucketView<A>>,
    n: int,
    asked_before: Seq<(DanmakuSpawnData, Option<usize>, i64)>,
    asked: Seq<(DanmakuSpawnData, Option<usize>, i64)>,
)
    requires
        n > 0,
        buckets_ticked(before, after, n - 1, asked_before),
        bucket_step(before[n - 1], after[n - 1], asked_before, asked),
    ensures
        buckets_ticked(before, after, n, asked),
{
}

/// What the first buckets ask for does not depend on the buckets behind
/// them.
pub proof fn lemma_buckets_ticked_reads<A: Act>(
    before: Seq<BucketView<A>>,
    a: Seq<BucketView<A>>,
    b: Seq<BucketView<A>>,
    n: int,
    asked: Seq<(DanmakuSpawnData, Option<usize>, i64)>,
)
    requires
        buckets_ticked(before, a, n, asked),
        forall|k: int| 0 <= k < n ==> a[k] == b[k],
    ensures
        buckets_ticked(before, b, n, asked),
    decreases n,
{
    if n > 0 {
        let asked_before = choose|asked_before: Seq<(DanmakuSpawnData, Option<usize>, i64)>|
            buckets_ticked(before, a, n - 1, asked_before) && #[trigger] bucket_step(
                before[n - 1],
                a[n - 1],
                asked_before,
                asked,
            );
        lemma_buckets_ticked_reads(before, a, b, n - 1, asked_before);
        assert(bucket_step(before[n - 1], b[n - 1], asked_before, asked));
    }
}

/// Whether a spawn of the descriptor `d` that prefers the slot
/// `preferred` of the bucket `origin` takes that slot over: it prefers a
/// slot, the bucket for its signature is the bucket that asked, and the
/// slot is a dead slot of it.
pub open spec fn takes_over<A: Act>(
    v: HandlerView<A>,
    d: DanmakuSpawnData,
    preferred: Option<usize>,
    origin: i64,
) -> bool {
    &&& preferred is Some
    &&& bucket_at(v.handlers, names(d.behaviors@)) matches Some(k)
    &&& v.handlers[k].identifier == origin
    &&& v.handlers[k].reusable(preferred)
}

/// Whether a handler `v` that comes to the spawn `ask`, while it sorts out
/// the spawns that take over a slot, can come out as `w`, with `plain`
/// still to create and `away` turned away.
///
/// A spawn that takes over its slot, and whose family depth can be
/// settled, is settled; where the handler cannot take it, it is turned
/// away; where it can, the handler takes it into the slot, and its
/// children are still to create, with the new projectile as their parent.
/// Any other spawn is still to create, as it is.
pub open spec fn took_over<A: Act>(
    v: HandlerView<A>,
    ask: (DanmakuSpawnData, Option<usize>, i64),
    w: HandlerView<A>,
    plain: Seq<DanmakuSpawnData>,
    away: Seq<DanmakuSpawnData>,
) -> bool {
    let d = ask.0;
    if takes_over(v, d, ask.1, ask.2) && d.settles(v.family_depths) {
        let preferred = Some((ask.1->0, ask.2));
        exists|s: DanmakuSpawnData| #[trigger]
            d.settled_as(v.family_depths, &s) && (if v.refuses(s, preferred) {
                w == v && plain.len() == 0 && away == seq![s]
            } else {
                w == v.routed(s, preferred) && adopted(s.children@, v.id_for(s), plain)
                    && away.len() == 0
            })
    } else {
        w == v && plain == seq![d] && away.len() == 0
    }
}

/// Whether a handler `m`, with `plain_before` still to create and
/// `away_before` turned away, can come to the spawn `ask` and come out as
/// `w`, with `plain` still to create and `away` turned away.
pub open spec fn take_over_step<A: Act>(
    m: HandlerView<A>,
    plain_before: Seq<DanmakuSpawnData>,
    away_before: Seq<DanmakuSpawnData>,
    ask: (DanmakuSpawnData, Option<usize>, i64),
    w: HandlerView<A>,
    plain: Seq<DanmakuSpawnData>,
    away: Seq<DanmakuSpawnData>,
) -> bool {
    exists|more: Seq<DanmakuSpawnData>, gone: Seq<DanmakuSpawnData>|
        {
            &&& #[trigger] took_over(m, ask, w, more, gone)
            &&& plain == plain_before + more
            &&& away == away_before + gone
        }
}

/// Whether a handler `v` that goes through the first `n` of the spawns
/// `asked`, sorting out those that take over a slot, can come out as `w`,
/// with `plain` still to create and `away` turned away.
pub open spec fn taken_over<A: Act>(
    v: HandlerView<A>,
    asked: Seq<(DanmakuSpawnData, Option<usize>, i64)>,
    n: int,
    w: HandlerView<A>,
    plain: Seq<DanmakuSpawnData>,
    away: Seq<DanmakuSpawnData>,
) -> bool
    decreases n,
{
    if n <= 0 {
        w == v && plain.len() == 0 && away.len() == 0
    } else {
        exists|
            m: HandlerView<A>,
            plain_before: Seq<DanmakuSpawnData>,
            away_before: Seq<DanmakuSpawnData>,
        |
            {
                &&& taken_over(v, asked, n - 1, m, plain_before, away_before)
                &&& #[trigger] take_over_step(
                    m,
                    plain_before,
                    away_before,
                    asked[n - 1],
                    w,
                    plain,
                    away,
                )
            }
    }
}

/// One more spawn gone through makes one more step of the sorting out.
pub proof fn lemma_take_over_step<A: Act>(
    v: HandlerView<A>,
    asked: Seq<(DanmakuSpawnData, Option<usize>, i64)>,
    n: int,
    m: HandlerView<A>,
    plain_before: Seq<DanmakuSpawnData>,
    away_before: Seq<DanmakuSpawnData>,
    w: HandlerView<A>,
    more: Seq<DanmakuSpawnData>,
    gone: Seq<DanmakuSpawnData>,
)
    requires
        n > 0,
        taken_over(v, asked, n - 1, m, plain_before, away_before),
        took_over(m, asked[n - 1], w, more, gone),
    ensures
        taken_over(v, asked, n, w, plain_before + more, away_before + gone),
{
    assert(take_over_step(
        m,
        plain_before,
        away_before,
        asked[n - 1],
        w,
        plain_before + more,
        away_before + gone,
    ));
}

/// Whether a tick can lead from the handler `v` to `w` by way of these
/// steps: the buckets run their behaviors, which leaves the handler as
/// `ran` and asks for the spawns `asked`; the spawns that take over a
/// slot are sorted out, which leaves the handler as `routed`, with
/// `plain` still to create and `away` turned away; and `plain` is
/// created, which turns `turned` away.
pub open spec fn tick_steps<A: Act>(
    v: HandlerView<A>,
    ran: HandlerView<A>,
    asked: Seq<(DanmakuSpawnData, Option<usize>, i64)>,
    routed: HandlerView<A>,
    plain: Seq<DanmakuSpawnData>,
    away: Seq<DanmakuSpawnData>,
    turned: Seq<DanmakuSpawnData>,
    w: HandlerView<A>,
) -> bool {
    &&& ran == (HandlerView { handlers: ran.handlers, ..v })
    &&& ran.handlers.len() == v.handlers.len()
    &&& buckets_ticked(v.handlers, ran.handlers, v.handlers.len() as int, asked)
    &&& taken_over(ran, asked, asked.len() as int, routed, plain, away)
    &&& added(routed, plain, w, turned)
}

/// Whether a tick can lead from the handler `v` to `w`, with `rejected`
/// turned away: first the descriptors that were turned away while the
/// spawns that take over a slot were sorted out, then those that were
/// turned away while the others were created.
pub open spec fn ticked<A: Act>(
    v: HandlerView<A>,
    w: HandlerView<A>,
    rejected: Seq<DanmakuSpawnData>,
) -> bool {
    exists|
        ran: HandlerView<A>,
        asked: Seq<(DanmakuSpawnData, Option<usize>, i64)>,
        routed: HandlerView<A>,
        plain: Seq<DanmakuSpawnData>,
        away: Seq<DanmakuSpawnData>,
        turned: Seq<DanmakuSpawnData>,
    |
        #[trigger] tick_steps(v, ran, asked, routed, plain, away, turned, w) && rejected == away
            + turned
}

/// A handler is itself no steps later.
pub proof fn lemma_grown_from_self<A: Act>(v: HandlerView<A>)
    ensures
        v.grown_from(v),
{
}

/// Later of later is later.
pub proof fn lemma_grown_from_twice<A: Act>(a: HandlerView<A>, b: HandlerView<A>, c: HandlerView<A>)
    requires
        b.grown_from(a),
        c.grown_from(b),
    ensures
        c.grown_from(a),
{
    assert forall|k: int| 0 <= k < a.handlers.len() implies (#[trigger] c.handlers[k]).follows(
        a.handlers[k],
    ) by {
        assert(b.handlers[k].follows(a.handlers[k]));
        assert(c.handlers[k].follows(b.handlers[k]));
    }
    assert forall|k: int| a.handlers.len() <= k < c.handlers.len() implies (
    #[trigger] c.handlers[k]).identifier > a.next_identifier by {
        if k < b.handlers.len() {
            assert(b.handlers[k].identifier > a.next_identifier);
            assert(c.handlers[k].follows(b.handlers[k]));
        } else {
            assert(c.handlers[k].identifier > b.next_identifier);
        }
    }
    assert(a.family_depths.submap_of(c.family_depths)) by {
        assert forall|id: i128| #[trigger] a.family_depths.dom().contains(id) implies c.family_depths.dom().contains(
            id,
        ) && a.family_depths[id] == c.family_depths[id] by {
            assert(b.family_depths.dom().contains(id));
        }
    }
    assert(a.parents.submap_of(c.parents)) by {
        assert forall|id: i128| #[trigger] a.parents.dom().contains(id) implies c.parents.dom().contains(
            id,
        ) && a.parents[id] == c.parents[id] by {
            assert(b.parents.dom().contains(id));
        }
    }
}

/// A handler that has taken a projectile is the handler it was, one step
/// later, with one more projectile on record.
pub proof fn lemma_routed_grows<A: Act>(
    v: HandlerView<A>,
    danmaku: DanmakuSpawnData,
    preferred: Option<(usize, i64)>,
)
    requires
        v.wf(),
        danmaku.all_known(v.registered_names()),
        !v.refuses(danmaku, preferred),
        v.family_depths.dom().finite(),
    ensures
        v.routed(danmaku, preferred).grown_from(v),
        v.routed(danmaku, preferred).family_depths.dom().finite(),
        v.routed(danmaku, preferred).family_depths.dom().len() == v.family_depths.dom().len() + 1,
{
    lemma_routed_follows(v, danmaku, preferred);
    lemma_routed_wf(v, danmaku, preferred);
}

/// What a handler cannot take, it cannot take later.
pub proof fn lemma_refusal_stays<A: Act>(
    v: HandlerView<A>,
    w: HandlerView<A>,
    danmaku: DanmakuSpawnData,
)
    requires
        v.wf(),
        w.wf(),
        w.grown_from(v),
        v.refuses(danmaku, None),
    ensures
        w.refuses(danmaku, None),
{
    let signature = names(danmaku.behaviors@);
    match bucket_at(v.handlers, signature) {
        Some(k) => {
            assert(w.handlers[k].follows(v.handlers[k]));
            assert(names(w.handlers[k].signature) == signature);
            assert(bucket_at(w.handlers, signature) == Some(k));
            crate::bucket::lemma_capacity_fits(v.handlers[k].size_exp);
            crate::bucket::lemma_capacity_fits(w.handlers[k].size_exp);
            assert(w.handlers[k].wf());
            assert(v.handlers[k].wf());
        },
        None => {
            if bucket_at(w.handlers, signature) is Some {
                let j = bucket_at(w.handlers, signature)->0;
                assert(w.knows(w.handlers[j].signature));
                if j < v.handlers.len() {
                    assert(w.handlers[j].follows(v.handlers[j]));
                    assert(names(v.handlers[j].signature) == signature);
                } else {
                    assert(w.handlers[j].identifier > v.next_identifier);
                    let theirs = w.handlers[j].signature;
                    assert(names(theirs).len() == signature.len());
                    assert forall|i: int| 0 <= i < danmaku.behaviors@.len() implies registered_at(
                        v.behaviors,
                        (#[trigger] danmaku.behaviors@[i])@,
                    ) is Some by {
                        assert(names(theirs)[i] == signature[i]);
                        assert(theirs[i]@ == danmaku.behaviors@[i]@);
                        assert(registered_at(w.behaviors, theirs[i]@) is Some);
                    }
                    assert(v.knows(danmaku.behaviors@));
                    assert(v.next_identifier == i64::MAX);
                }
            }
        },
    }
}

/// The descriptors of a list are those of its first descriptor and those
/// of the others.
pub proof fn lemma_forest_first(list: Seq<DanmakuSpawnData>)
    ensures
        list.len() > 0 ==> forest_nodes(list) == list[0].nodes() + forest_nodes(list.drop_first()),
        list.len() == 0 ==> forest_nodes(list) == 0,
{
    if list.len() > 0 {
        let first = seq![list[0]];
        assert(first + list.drop_first() == list);
        lemma_forest_joined(first, list.drop_first());
        lemma_forest_single(list[0]);
    }
}

/// A list of one descriptor holds the descriptors of that one.
pub proof fn lemma_forest_single(d: DanmakuSpawnData)
    ensures
        forest_nodes(seq![d]) == d.nodes(),
        d.nodes() == 1 + forest_nodes(d.children@),
{
    let list = seq![d];
    assert(DanmakuSpawnData::nodes_among(list, 0) == 0);
    assert(DanmakuSpawnData::nodes_among(list, 1) == list[0].nodes()
        + DanmakuSpawnData::nodes_among(list, 0));
}

/// Children that differ from others in their parent alone hold as many
/// descriptors.
pub proof fn lemma_forest_same_children(a: Seq<DanmakuSpawnData>, b: Seq<DanmakuSpawnData>)
    requires
        a.len() == b.len(),
        forall|k: int| 0 <= k < a.len() ==> (#[trigger] a[k]).children == b[k].children,
    ensures
        forest_nodes(a) == forest_nodes(b),
{
    crate::spawn::lemma_forest_same_children(a, b, a.len());
}

/// Whether `local` is what the first `n` buckets show of a frame at
/// `partial_ticks`, bucket after bucket, and `after` is `before` with the
/// local transforms of those buckets computed anew.
pub open spec fn framed<A: Act, N: Numerics>(
    numerics: &N,
    before: Seq<BucketView<A>>,
    after: Seq<BucketView<A>>,
    n: int,
    local: Seq<(i128, RenderData)>,
    partial_ticks: Scalar,
) -> bool
    decreases n,
{
    if n <= 0 {
        local.len() == 0
    } else {
        exists|first: Seq<(i128, RenderData)>, last: Seq<(i128, RenderData)>|
            {
                &&& framed(numerics, before, after, n - 1, first, partial_ticks)
                &&& local == first + last
                &&& after[n - 1] == (BucketView { columns: after[n - 1].columns, ..before[n - 1] })
                &&& transforms_computed(
                    numerics,
                    before[n - 1].columns,
                    after[n - 1].columns,
                    before[n - 1].current_size as int,
                    partial_ticks,
                )
                &&& #[trigger] rendered(
                    numerics,
                    after[n - 1].columns,
                    last,
                    before[n - 1].current_size as int,
                    partial_ticks,
                ) && #[trigger] is_prefix(first, local)
            }
    }
}

/// Whether `list` begins with `first`.
pub open spec fn is_prefix<T>(first: Seq<T>, list: Seq<T>) -> bool {
    first.len() <= list.len() && first == list.take(first.len() as int)
}

/// What the first buckets show does not depend on the buckets behind
/// them.
pub proof fn lemma_framed_reads<A: Act, N: Numerics>(
    numerics: &N,
    before: Seq<BucketView<A>>,
    a: Seq<BucketView<A>>,
    b: Seq<BucketView<A>>,
    n: int,
    local: Seq<(i128, RenderData)>,
    partial_ticks: Scalar,
)
    requires
        framed(numerics, before, a, n, local, partial_ticks),
        forall|k: int| 0 <= k < n ==> a[k] == b[k],
    ensures
        framed(numerics, before, b, n, local, partial_ticks),
    decreases n,
{
    if n > 0 {
        let (first, last) = choose|first: Seq<(i128, RenderData)>, last: Seq<(i128, RenderData)>|
            {
                &&& framed(numerics, before, a, n - 1, first, partial_ticks)
                &&& local == first + last
                &&& a[n - 1] == (BucketView { columns: a[n - 1].columns, ..before[n - 1] })
                &&& transforms_computed(
                    numerics,
                    before[n - 1].columns,
                    a[n - 1].columns,
                    before[n - 1].current_size as int,
                    partial_ticks,
                )
                &&& #[trigger] rendered(
                    numerics,
                    a[n - 1].columns,
                    last,
                    before[n - 1].current_size as int,
                    partial_ticks,
                ) && #[trigger] is_prefix(first, local)
            };
        lemma_framed_reads(numerics, before, a, b, n - 1, first, partial_ticks);
        assert(rendered(
            numerics,
            b[n - 1].columns,
            last,
            before[n - 1].current_size as int,
            partial_ticks,
        ) && is_prefix(first, local));
    }
}

/// What one more bucket shows makes one more step of a frame.
pub proof fn lemma_framed_step<A: Act, N: Numerics>(
    numerics: &N,
    before: Seq<BucketView<A>>,
    after: Seq<BucketView<A>>,
    n: int,
    first: Seq<(i128, RenderData)>,
    last: Seq<(i128, RenderData)>,
    partial_ticks: Scalar,
)
    requires
        n > 0,
        framed(numerics, before, after, n - 1, first, partial_ticks),
        after[n - 1] == (BucketView { columns: after[n - 1].columns, ..before[n - 1] }),
        transforms_computed(
            numerics,
            before[n - 1].columns,
            after[n - 1].columns,
            before[n - 1].current_size as int,
            partial_ticks,
        ),
        rendered(
            numerics,
            after[n - 1].columns,
            last,
            before[n - 1].current_size as int,
            partial_ticks,
        ),
    ensures
        framed(numerics, before, after, n, first + last, partial_ticks),
{
    assert(is_prefix(first, first + last)) by {
        assert((first + last).take(first.len() as int) =~= first);
    }
}

/// A handler in which one bucket has changed what its store holds, and
/// nothing else, is well-formed as far as its view goes, and is the
/// handler it was, one step later.
pub proof fn lemma_bucket_step<A: Act>(v: HandlerView<A>, w: HandlerView<A>, k: int)
    requires
        v.wf(),
        0 <= k < v.handlers.len(),
        w == (HandlerView { handlers: v.handlers.update(k, w.handlers[k]), ..v }),
        w.handlers[k].wf(),
        w.handlers[k] == (BucketView { columns: w.handlers[k].columns, ..v.handlers[k] }),
        w.handlers[k].columns.asks_only(v.registered_names()),
    ensures
        w.wf(),
        w.grown_from(v),
{
    assert forall|id: i128| #[trigger] w.family_depths.contains_key(id) implies w.issued(id) by {
        assert(v.issued(id));
        assert forall|j: int|
            0 <= j < w.handlers.len() && (#[trigger] w.handlers[j]).identifier == bucket_of(
                id,
            ) implies count_of(id) < w.handlers[j].next_dan_identifier by {
            assert(v.handlers[j].identifier == w.handlers[j].identifier);
        }
    }
    assert forall|j: int, l: int|
        0 <= j < w.handlers.len() && 0 <= l < w.handlers.len() && j != l implies names(
        (#[trigger] w.handlers[j]).signature,
    ) != names((#[trigger] w.handlers[l]).signature) && w.handlers[j].identifier
        != w.handlers[l].identifier by {
        assert(v.handlers[j].signature == w.handlers[j].signature);
        assert(v.handlers[l].signature == w.handlers[l].signature);
    }
    assert forall|j: int| 0 <= j < w.handlers.len() implies w.knows(
        (#[trigger] w.handlers[j]).signature,
    ) by {
        assert(v.knows(v.handlers[j].signature));
    }
}

/// A handler that has taken a projectile is the handler it was, one step
/// later.
pub proof fn lemma_routed_follows<A: Act>(
    v: HandlerView<A>,
    danmaku: DanmakuSpawnData,
    preferred: Option<(usize, i64)>,
)
    requires
        v.wf(),
        danmaku.all_known(v.registered_names()),
        !v.refuses(danmaku, preferred),
    ensures
        v.routed(danmaku, preferred).grown_from(v),
{
    lemma_known_signature(v, danmaku);
    let signature = danmaku.behaviors@;
    let ready = v.with_bucket_for(signature);
    lemma_ready_wf(v, signature);
    lemma_routed_wf(v, danmaku, preferred);
    let k = v.target(signature);
    let after = v.routed(danmaku, preferred);
    crate::bucket::lemma_inserted_wf(ready.handlers[k], danmaku, ready.slot_asked(k, preferred));
    assert forall|j: int| 0 <= j < v.handlers.len() implies (#[trigger] after.handlers[j]).follows(
        v.handlers[j],
    ) by {
        assert(ready.handlers[j] == v.handlers[j]);
    }
    assert(after.parents.dom().subset_of(after.family_depths.dom()));
}

/// A child whose family depth is settled against its parent is one deeper
/// than its parent on record.
///
/// Let `child` come without a family depth, with a parent whose family
/// depth is on record, and let `settled` be the child with its family depth
/// settled. Once the handler has taken it, the parent on record for the
/// new projectile is that parent, the family depth on record for it is one
/// more than the family depth on record for its parent, and each child
/// nested in it is one deeper still.
pub proof fn lemma_child_one_deeper_on_record<A: Act>(
    v: HandlerView<A>,
    child: DanmakuSpawnData,
    settled: DanmakuSpawnData,
    preferred: Option<(usize, i64)>,
)
    requires
        v.wf(),
        child.family_depth == UNRESOLVED,
        child.parent is Some,
        child.settles(v.family_depths),
        child.settled_as(v.family_depths, &settled),
        settled.all_known(v.registered_names()),
        !v.refuses(settled, preferred),
    ensures
        ({
            let after = v.routed(settled, preferred);
            let id = v.id_for(settled);
            let parent = child.parent->0;
            &&& after.parents.contains_key(id)
            &&& after.parents[id] == parent
            &&& after.family_depths.contains_key(parent)
            &&& after.family_depths[id] == after.family_depths[parent] + 1
            &&& forall|k: int|
                0 <= k < settled.children@.len() ==> (#[trigger] settled.children@[k]).family_depth
                    == after.family_depths[id] + 1
        }),
{
    lemma_routed_wf(v, settled, preferred);
    assert forall|k: int| 0 <= k < settled.children@.len() implies (
    #[trigger] settled.children@[k]).family_depth == settled.family_depth + 1 by {
        assert(child.children@[k].stamped(
            &settled.children@[k],
            v.family_depths[child.parent->0] + 1 + 1,
        ));
    }
}

/// A nested child that is one deeper than the descriptor that holds it is
/// one deeper than its parent on record.
///
/// Let the handler take a projectile whose descriptor `parent` holds, at
/// position `k`, a child that is one deeper. The child it hands back names
/// the new projectile as its parent. Once the handler has taken that
/// child too, settled as `settled`, the family depth on record for the
/// child is one more than the family depth on record for its parent.
pub proof fn lemma_nested_child_one_deeper_on_record<A: Act>(
    v: HandlerView<A>,
    parent: DanmakuSpawnData,
    preferred: Option<(usize, i64)>,
    k: int,
    settled: DanmakuSpawnData,
)
    requires
        v.wf(),
        parent.all_known(v.registered_names()),
        !v.refuses(parent, preferred),
        0 <= k < parent.children@.len(),
        parent.children@[k].family_depth == parent.family_depth + 1,
        ({
            let mid = v.routed(parent, preferred);
            let child = DanmakuSpawnData { parent: Some(v.id_for(parent)), ..parent.children@[k] };
            &&& child.settles(mid.family_depths)
            &&& child.settled_as(mid.family_depths, &settled)
            &&& !mid.refuses(settled, None)
        }),
    ensures
        ({
            let mid = v.routed(parent, preferred);
            let after = mid.routed(settled, None);
            &&& after.parents[mid.id_for(settled)] == v.id_for(parent)
            &&& after.family_depths[mid.id_for(settled)] == after.family_depths[v.id_for(parent)]
                + 1
        }),
{
    let mid = v.routed(parent, preferred);
    let child = DanmakuSpawnData { parent: Some(v.id_for(parent)), ..parent.children@[k] };
    lemma_routed_wf(v, parent, preferred);
    assert(parent.children@[k].all_known(v.registered_names()));
    assert(child.all_known(mid.registered_names()));
    crate::spawn::lemma_settled_known(child, mid.family_depths, settled, mid.registered_names());
    lemma_routed_wf(mid, settled, None);
}

impl<A: Act> TopDanmakuBehaviorsHandler<A> {
    /// Frees what can be freed when the host runs short of memory: cleans
    /// up.
    pub fn memory_warning(&mut self)
        requires
            old(self).wf(),
        ensures
            final(self).wf(),
            final(self)@ == old(self)@.cleaned(),
    {
        self.cleanup();
    }
}

/// A well-formed handler stays well-formed through a cleanup.
pub proof fn lemma_cleaned_wf<A: Act>(v: HandlerView<A>)
    requires
        v.wf(),
    ensures
        v.cleaned().wf(),
{
    let flags = dropped(v.handlers);
    let left = kept(v.handlers, flags);
    assert forall|k: int| 0 <= k < left.len() implies (#[trigger] left[k]).wf() && 1
        <= left[k].identifier <= v.next_identifier by {
        let from = crate::packed::lemma_kept_rows_were_live(v.handlers, flags, k);
    }
    assert forall|j: int, k: int| 0 <= j < left.len() && 0 <= k < left.len() && j != k implies names(
        (#[trigger] left[j]).signature,
    ) != names((#[trigger] left[k]).signature) && left[j].identifier != left[k].identifier by {
        let from_j = crate::packed::lemma_kept_rows_were_live(v.handlers, flags, j);
        let from_k = crate::packed::lemma_kept_rows_were_live(v.handlers, flags, k);
        assert(from_j != from_k);
    }
    assert forall|k: int| 0 <= k < left.len() implies v.cleaned().knows(
        (#[trigger] left[k]).signature,
    ) by {
        let from = crate::packed::lemma_kept_rows_were_live(v.handlers, flags, k);
        assert(v.knows(v.handlers[from].signature));
    }
    assert forall|k: int| 0 <= k < left.len() implies (#[trigger] left[k]).columns.asks_only(
        v.registered_names(),
    ) by {
        let from = crate::packed::lemma_kept_rows_were_live(v.handlers, flags, k);
        assert(v.handlers[from].columns.asks_only(v.registered_names()));
    }
    assert forall|id: i128| #[trigger] v.family_depths.contains_key(id) implies v.cleaned().issued(
        id,
    ) by {
        assert(v.issued(id));
        assert forall|k: int|
            0 <= k < left.len() && (#[trigger] left[k]).identifier == bucket_of(
                id,
            ) implies count_of(id) < left[k].next_dan_identifier by {
            let from = crate::packed::lemma_kept_rows_were_live(v.handlers, flags, k);
        }
    }
}

/// A second cleanup right after a first drops nothing more.
pub proof fn lemma_cleanup_twice<A: Act>(v: HandlerView<A>)
    ensures
        v.cleaned().cleaned() == v.cleaned(),
{
    let flags = dropped(v.handlers);
    let left = kept(v.handlers, flags);
    assert forall|k: int| 0 <= k < left.len() implies !(#[trigger] dropped(left)[k]) by {
        let from = crate::packed::lemma_kept_rows_were_live(v.handlers, flags, k);
    }
    lemma_kept_all(left, dropped(left));
}

/// A compaction that finds no row flagged keeps every row.
pub proof fn lemma_kept_all<T>(rows: Seq<T>, dead: Seq<bool>)
    requires
        forall|k: int| 0 <= k < rows.len() && k < dead.len() ==> !dead[k],
    ensures
        kept(rows, dead) == rows,
    decreases rows.len(),
{
    if rows.len() > 0 {
        lemma_kept_all(rows.drop_last(), dead);
        assert(rows.drop_last().push(rows.last()) == rows);
    }
}

/// A projectile of another signature leaves a bucket as it is.
pub proof fn lemma_routed_leaves_others<A: Act>(
    v: HandlerView<A>,
    danmaku: DanmakuSpawnData,
    preferred: Option<(usize, i64)>,
    b: int,
)
    requires
        0 <= b < v.handlers.len(),
        names(danmaku.behaviors@) != names(v.handlers[b].signature),
    ensures
        b < v.routed(danmaku, preferred).handlers.len(),
        v.routed(danmaku, preferred).handlers[b] == v.handlers[b],
{
}

/// The children of a descriptor that is bound elsewhere are bound
/// elsewhere, whatever parent they are given.
pub proof fn lemma_adopted_bound_elsewhere(
    holder: DanmakuSpawnData,
    id: i128,
    out: Seq<DanmakuSpawnData>,
    signature: Seq<Seq<char>>,
)
    requires
        holder.bound_elsewhere(signature),
        adopted(holder.children@, id, out),
    ensures
        forest_bound_elsewhere(out, signature),
{
    assert forall|k: int| 0 <= k < out.len() implies (#[trigger] out[k]).bound_elsewhere(
        signature,
    ) by {
        assert(holder.children@[k].bound_elsewhere(signature));
    }
}

/// A round of creation leaves a bucket as it is where nothing that the
/// round goes through is bound for it, and what waits for the next round
/// is not bound for it either.
pub proof fn lemma_round_leaves_others<A: Act>(
    v: HandlerView<A>,
    pending: Seq<DanmakuSpawnData>,
    n: int,
    w: HandlerView<A>,
    next: Seq<DanmakuSpawnData>,
    away: Seq<DanmakuSpawnData>,
    b: int,
)
    requires
        round_taken(v, pending, n, w, next, away),
        0 <= n <= pending.len(),
        0 <= b < v.handlers.len(),
        forest_bound_elsewhere(pending, names(v.handlers[b].signature)),
    ensures
        b < w.handlers.len(),
        w.handlers[b] == v.handlers[b],
        forest_bound_elsewhere(next, names(v.handlers[b].signature)),
    decreases n,
{
    if n > 0 {
        let signature = names(v.handlers[b].signature);
        let (m, next_before, away_before) = choose|
            m: HandlerView<A>,
            next_before: Seq<DanmakuSpawnData>,
            away_before: Seq<DanmakuSpawnData>,
        |
            {
                &&& round_taken(v, pending, n - 1, m, next_before, away_before)
                &&& #[trigger] round_step(
                    m,
                    next_before,
                    away_before,
                    pending[n - 1],
                    w,
                    next,
                    away,
                )
            };
        lemma_round_leaves_others(v, pending, n - 1, m, next_before, away_before, b);
        let d = pending[n - 1];
        let (waits, gone) = choose|waits: Seq<DanmakuSpawnData>, gone: Seq<DanmakuSpawnData>|
            {
                &&& #[trigger] took(m, d, w, waits, gone)
                &&& next == next_before + waits
                &&& away == away_before + gone
            };
        if d.settles(m.family_depths) {
            let s = choose|s: DanmakuSpawnData| #[trigger]
                d.settled_as(m.family_depths, &s) && (if m.refuses(s, None) {
                    w == m && waits.len() == 0 && gone == seq![s]
                } else {
                    w == m.routed(s, None) && adopted(s.children@, m.id_for(s), waits)
                        && gone.len() == 0
                });
            lemma_settled_bound_elsewhere(d, m.family_depths, s, signature);
            if !m.refuses(s, None) {
                lemma_routed_leaves_others(m, s, None, b);
                lemma_adopted_bound_elsewhere(s, m.id_for(s), waits, signature);
            }
        }
    }
}

/// Rounds of creation leave a bucket as it is where nothing that they go
/// through is bound for it.
pub proof fn lemma_rounds_leave_others<A: Act>(
    v: HandlerView<A>,
    pending: Seq<DanmakuSpawnData>,
    rounds: nat,
    w: HandlerView<A>,
    waiting: Seq<DanmakuSpawnData>,
    away: Seq<DanmakuSpawnData>,
    moved: bool,
    b: int,
)
    requires
        after_rounds(v, pending, rounds, w, waiting, away, moved),
        0 <= b < v.handlers.len(),
        forest_bound_elsewhere(pending, names(v.handlers[b].signature)),
    ensures
        b < w.handlers.len(),
        w.handlers[b] == v.handlers[b],
        forest_bound_elsewhere(waiting, names(v.handlers[b].signature)),
    decreases rounds,
{
    if rounds > 0 {
        let (m, waiting_before, away_before, moved_before) = choose|
            m: HandlerView<A>,
            waiting_before: Seq<DanmakuSpawnData>,
            away_before: Seq<DanmakuSpawnData>,
            moved_before: bool,
        |
            {
                &&& after_rounds(
                    v,
                    pending,
                    (rounds - 1) as nat,
                    m,
                    waiting_before,
                    away_before,
                    moved_before,
                )
                &&& #[trigger] rounds_step(
                    rounds,
                    m,
                    waiting_before,
                    away_before,
                    moved_before,
                    w,
                    waiting,
                    away,
                    moved,
                )
            };
        lemma_rounds_leave_others(
            v,
            pending,
            (rounds - 1) as nat,
            m,
            waiting_before,
            away_before,
            moved_before,
            b,
        );
        let gone = choose|gone: Seq<DanmakuSpawnData>|
            {
                &&& #[trigger] round_taken(
                    m,
                    waiting_before,
                    waiting_before.len() as int,
                    w,
                    waiting,
                    gone,
                )
                &&& away == away_before + gone
                &&& moved == !(w == m && gone.len() == 0)
            };
        lemma_round_leaves_others(
            m,
            waiting_before,
            waiting_before.len() as int,
            w,
            waiting,
            gone,
            b,
        );
    }
}

/// Sorting out the spawns that take over a slot leaves a bucket as it is
/// where no spawn is bound for it, and what is still to create is not
/// bound for it either.
pub proof fn lemma_taken_over_leaves_others<A: Act>(
    v: HandlerView<A>,
    asked: Seq<(DanmakuSpawnData, Option<usize>, i64)>,
    n: int,
    w: HandlerView<A>,
    plain: Seq<DanmakuSpawnData>,
    away: Seq<DanmakuSpawnData>,
    b: int,
)
    requires
        taken_over(v, asked, n, w, plain, away),
        0 <= n <= asked.len(),
        0 <= b < v.handlers.len(),
        forall|k: int|
            0 <= k < asked.len() ==> (#[trigger] asked[k]).0.bound_elsewhere(
                names(v.handlers[b].signature),
            ),
    ensures
        b < w.handlers.len(),
        w.handlers[b] == v.handlers[b],
        forest_bound_elsewhere(plain, names(v.handlers[b].signature)),
    decreases n,
{
    if n > 0 {
        let signature = names(v.handlers[b].signature);
        let (m, plain_before, away_before) = choose|
            m: HandlerView<A>,
            plain_before: Seq<DanmakuSpawnData>,
            away_before: Seq<DanmakuSpawnData>,
        |
            {
                &&& taken_over(v, asked, n - 1, m, plain_before, away_before)
                &&& #[trigger] take_over_step(
                    m,
                    plain_before,
                    away_before,
                    asked[n - 1],
                    w,
                    plain,
                    away,
                )
            };
        lemma_taken_over_leaves_others(v, asked, n - 1, m, plain_before, away_before, b);
        let ask = asked[n - 1];
        let d = ask.0;
        let (more, gone) = choose|more: Seq<DanmakuSpawnData>, gone: Seq<DanmakuSpawnData>|
            {
                &&& #[trigger] took_over(m, ask, w, more, gone)
                &&& plain == plain_before + more
                &&& away == away_before + gone
            };
        if takes_over(m, d, ask.1, ask.2) && d.settles(m.family_depths) {
            let preferred = Some((ask.1->0, ask.2));
            let s = choose|s: DanmakuSpawnData| #[trigger]
                d.settled_as(m.family_depths, &s) && (if m.refuses(s, preferred) {
                    w == m && more.len() == 0 && gone == seq![s]
                } else {
                    w == m.routed(s, preferred) && adopted(s.children@, m.id_for(s), more)
                        && gone.len() == 0
                });
            lemma_settled_bound_elsewhere(d, m.family_depths, s, signature);
            if !m.refuses(s, preferred) {
                lemma_routed_leaves_others(m, s, preferred, b);
                lemma_adopted_bound_elsewhere(s, m.id_for(s), more, signature);
            }
        }
    }
}

/// A bucket that has run its behaviors is the bucket it was but for what
/// its store holds.
pub proof fn lemma_buckets_ticked_keep<A: Act>(
    before: Seq<BucketView<A>>,
    after: Seq<BucketView<A>>,
    n: int,
    asked: Seq<(DanmakuSpawnData, Option<usize>, i64)>,
    b: int,
)
    requires
        buckets_ticked(before, after, n, asked),
        0 <= b < n,
    ensures
        after[b] == (BucketView { columns: after[b].columns, ..before[b] }),
        after[b].columns.shaped_like(before[b].columns),
    decreases n,
{
    let asked_before = choose|asked_before: Seq<(DanmakuSpawnData, Option<usize>, i64)>|
        buckets_ticked(before, after, n - 1, asked_before) && #[trigger] bucket_step(
            before[n - 1],
            after[n - 1],
            asked_before,
            asked,
        );
    if b < n - 1 {
        lemma_buckets_ticked_keep(before, after, n - 1, asked_before, b);
    }
}

/// Over a tick, a bucket gains a slot in use only by a spawn that is bound
/// for it.
///
/// Let a tick lead from `v` to `w`, and let none of the spawns that the
/// buckets ask for, nor any nested child of one, have the signature of
/// bucket `b`. Then bucket `b` has after the tick the slots in use and the
/// capacity that it had before it: it is the bucket that its behaviors
/// have left.
pub proof fn lemma_tick_leaves_bucket<A: Act>(
    v: HandlerView<A>,
    ran: HandlerView<A>,
    asked: Seq<(DanmakuSpawnData, Option<usize>, i64)>,
    routed: HandlerView<A>,
    plain: Seq<DanmakuSpawnData>,
    away: Seq<DanmakuSpawnData>,
    turned: Seq<DanmakuSpawnData>,
    w: HandlerView<A>,
    b: int,
)
    requires
        tick_steps(v, ran, asked, routed, plain, away, turned, w),
        0 <= b < v.handlers.len(),
        forall|k: int|
            0 <= k < asked.len() ==> (#[trigger] asked[k]).0.bound_elsewhere(
                names(v.handlers[b].signature),
            ),
    ensures
        b < w.handlers.len(),
        w.handlers[b] == ran.handlers[b],
        w.handlers[b].current_size == v.handlers[b].current_size,
        w.handlers[b].size_exp == v.handlers[b].size_exp,
        w.handlers[b].columns.capacity == v.handlers[b].columns.capacity,
{
    lemma_buckets_ticked_keep(v.handlers, ran.handlers, v.handlers.len() as int, asked, b);
    lemma_taken_over_leaves_others(ran, asked, asked.len() as int, routed, plain, away, b);
    let (rounds, waiting, gone, moved) = choose|
        rounds: nat,
        waiting: Seq<DanmakuSpawnData>,
        gone: Seq<DanmakuSpawnData>,
        moved: bool,
    |
        {
            &&& rounds >= 1
            &&& #[trigger] after_rounds(routed, plain, rounds, w, waiting, gone, moved)
            &&& !goes_on(moved, waiting)
            &&& turned == gone + waiting
        };
    lemma_rounds_leave_others(routed, plain, rounds, w, waiting, gone, moved, b);
}

} // verus!
