//! The collision subsystem: bounding-volume storage, the grid used by the broadphase and the
//! collision callbacks.
//!
//! A collision callback is associated with one or more entities and is invoked every frame in
//! which at least one of its entities collides, with the list of entities it collided with.
//! Multiple callbacks can be associated with the same entity.

pub mod bounding_volume;
pub mod grid_collision;

use crate::callback::{hash_map_get_mut, key_list, member_list, CallbackId, CallbackManager};
use crate::component::list_of;
use crate::component::struct_component_manager::{Iter, StructComponentManager, MAX_COMPONENTS};
use crate::ecs::Entity;
use bounding_volume::BoundingVolumeManager;
use std::collections::HashMap;
use std::collections::HashSet;
use vstd::prelude::*;

verus! {

/// Game code that reacts to collisions.
pub trait CollisionCallback<S>: Sized {
    /// `after` is what an invocation with `first` and `others` makes of this callback. A callback
    /// that does not say what its invocation does promises nothing about it.
    open spec fn invoked(&self, after: &Self, scene: &S, first: Entity, others: Seq<Entity>) -> bool {
        true
    }

    /// Called with an entity and the entities it collided with this frame.
    fn invoke(&mut self, scene: &S, first: Entity, others: &[Entity])
        ensures
            old(self).invoked(&*final(self), scene, first, others@),
    ;
}

/// A callback invoked in turn with each of `calls`, an entity and the entities it collided with,
/// goes from `before` to `after` through the states `states`: it starts as `before`, each call
/// takes it from one state to the next, and it ends as `after`.
pub open spec fn invoked_through<S, C: CollisionCallback<S>>(
    states: Seq<C>,
    before: C,
    after: C,
    scene: &S,
    calls: Seq<(Entity, Seq<Entity>)>,
) -> bool {
    &&& states.len() == calls.len() + 1
    &&& states[0] == before
    &&& states.last() == after
    &&& forall|i: int|
        0 <= i < calls.len() ==> #[trigger] states[i].invoked(&states[i + 1], scene, calls[i].0, calls[i].1)
}

/// A callback invoked in turn with each of `calls` goes from `before` to `after`; with no calls
/// it stays as it is.
pub open spec fn invoked_in_turn<S, C: CollisionCallback<S>>(before: C, after: C, scene: &S, calls: Seq<(Entity, Seq<Entity>)>) -> bool {
    exists|states: Seq<C>| #[trigger] invoked_through(states, before, after, scene, calls)
}

/// One more invocation extends the turns a callback has taken.
proof fn lemma_invoked_step<S, C: CollisionCallback<S>>(
    before: C,
    mid: C,
    after: C,
    scene: &S,
    calls: Seq<(Entity, Seq<Entity>)>,
    first: Entity,
    others: Seq<Entity>,
)
    requires
        invoked_in_turn(before, mid, scene, calls),
        mid.invoked(&after, scene, first, others),
    ensures
        invoked_in_turn(before, after, scene, calls.push((first, others))),
{
    let states = choose|states: Seq<C>| #[trigger] invoked_through(states, before, mid, scene, calls);
    let longer = calls.push((first, others));
    let more = states.push(after);
    assert forall|i: int| 0 <= i < longer.len() implies #[trigger] more[i].invoked(
        &more[i + 1],
        scene,
        longer[i].0,
        longer[i].1,
    ) by {
        if i < calls.len() {
            assert(more[i] == states[i]);
            assert(more[i + 1] == states[i + 1]);
            assert(longer[i] == calls[i]);
        } else {
            assert(more[i] == mid);
        }
    }
    assert(invoked_through(more, before, after, scene, longer));
}

/// With no calls, a callback stays as it is.
proof fn lemma_invoked_none<S, C: CollisionCallback<S>>(callback: C, scene: &S)
    ensures
        invoked_in_turn(callback, callback, scene, Seq::empty()),
{
    assert(invoked_through(seq![callback], callback, callback, scene, Seq::empty()));
}

/// The entities that collided with `e`, in the order the collision pairs name them: for a pair
/// `(a, b)`, `b` collided with `a` and `a` collided with `b`.
pub open spec fn partners(pairs: Seq<(Entity, Entity)>, e: u32) -> Seq<Entity>
    decreases pairs.len(),
{
    if pairs.len() == 0 {
        Seq::empty()
    } else {
        let (a, b) = pairs.last();
        partners(pairs.drop_last(), e) + (if a.0 == e {
            seq![b]
        } else {
            Seq::empty()
        }) + (if b.0 == e {
            seq![a]
        } else {
            Seq::empty()
        })
    }
}

/// The ids of the entities named by `pairs`.
pub open spec fn involved(pairs: Seq<(Entity, Entity)>) -> Set<u32> {
    Set::new(|id: u32| exists|i: int| 0 <= i < pairs.len() && (pairs[i].0.0 == id || pairs[i].1.0 == id))
}

proof fn lemma_list_of_push<T>(m: Map<u32, Seq<T>>, k: u32, v: T, e: u32)
    ensures
        list_of(m.insert(k, list_of(m, k).push(v)), e) == if e == k {
            list_of(m, e).push(v)
        } else {
            list_of(m, e)
        },
{
}

/// Keeps the registered collision callbacks, which entities they are assigned to, and the
/// collisions gathered for each entity during a frame.
pub struct CollisionCallbackManager<C> {
    callbacks: CallbackManager<C>,
    entity_callbacks: HashMap<u32, Vec<CallbackId>>,
    entity_collisions: HashMap<u32, Vec<Entity>>,
}

impl<C> CollisionCallbackManager<C> {
    /// The registered callbacks, keyed by id.
    pub closed spec fn callbacks(&self) -> Map<u64, C> {
        self.callbacks@
    }

    /// The callbacks assigned to each entity, in assignment order.
    pub closed spec fn assigned(&self) -> Map<u32, Seq<CallbackId>> {
        self.entity_callbacks@.map_values(|ids: Vec<CallbackId>| ids@)
    }

    /// The collisions gathered for each entity.
    pub closed spec fn collisions(&self) -> Map<u32, Seq<Entity>> {
        self.entity_collisions@.map_values(|others: Vec<Entity>| others@)
    }

    /// Every assigned callback is registered.
    pub closed spec fn wf(&self) -> bool {
        forall|e: u32, i: int|
            #![trigger self.entity_callbacks@[e]@[i]]
            self.entity_callbacks@.contains_key(e) && 0 <= i < self.entity_callbacks@[e]@.len()
                ==> self.callbacks@.contains_key(self.entity_callbacks@[e]@[i].0)
    }

    pub fn new() -> (manager: CollisionCallbackManager<C>)
        ensures
            manager.wf(),
            manager.callbacks() == Map::<u64, C>::empty(),
            manager.assigned() == Map::<u32, Seq<CallbackId>>::empty(),
            manager.collisions() == Map::<u32, Seq<Entity>>::empty(),
    {
        let manager = CollisionCallbackManager {
            callbacks: CallbackManager::new(),
            entity_callbacks: HashMap::new(),
            entity_collisions: HashMap::new(),
        };
        assert(manager.assigned() =~= Map::<u32, Seq<CallbackId>>::empty());
        assert(manager.collisions() =~= Map::<u32, Seq<Entity>>::empty());
        manager
    }

    /// Registers a callback without associating it with an entity.
    pub fn register(&mut self, callback_id: CallbackId, callback: C)
        requires
            old(self).wf(),
        ensures
            final(self).wf(),
            final(self).callbacks() == old(self).callbacks().insert(callback_id.0, callback),
            final(self).assigned() == old(self).assigned(),
            final(self).collisions() == old(self).collisions(),
    {
        self.callbacks.register(callback_id, callback);
    }

    /// Assigns the callback `callback_id` to `entity`, first registering `callback` under that id
    /// if no callback is registered there yet.
    pub fn assign(&mut self, entity: Entity, callback_id: CallbackId, callback: C)
        requires
            old(self).wf(),
        ensures
            final(self).wf(),
            final(self).callbacks() == if old(self).callbacks().contains_key(callback_id.0) {
                old(self).callbacks()
            } else {
                old(self).callbacks().insert(callback_id.0, callback)
            },
            final(self).assigned() == old(self).assigned().insert(
                entity.0,
                list_of(old(self).assigned(), entity.0).push(callback_id),
            ),
            final(self).collisions() == old(self).collisions(),
    {
        if self.callbacks.get(&callback_id).is_none() {
            self.callbacks.register(callback_id, callback);
        }
        match hash_map_get_mut(&mut self.entity_callbacks, &entity.0) {
            Some(entity_callbacks) => {
                entity_callbacks.push(callback_id);
            },
            None => {
                let mut entity_callbacks = Vec::new();
                entity_callbacks.push(callback_id);
                self.entity_callbacks.insert(entity.0, entity_callbacks);
            },
        }
        assert(self.assigned() =~= old(self).assigned().insert(
            entity.0,
            list_of(old(self).assigned(), entity.0).push(callback_id),
        ));
    }

    /// Removes every callback assignment of `entity`.
    pub fn unregister_all(&mut self, entity: Entity)
        requires
            old(self).wf(),
        ensures
            final(self).wf(),
            final(self).callbacks() == old(self).callbacks(),
            final(self).assigned() == old(self).assigned().remove(entity.0),
            final(self).collisions() == old(self).collisions(),
    {
        self.entity_callbacks.remove(&entity.0);
        assert(self.assigned() =~= old(self).assigned().remove(entity.0));
    }

    /// Records `other` as having collided with `entity`.
    fn add_collision(&mut self, entity: Entity, other: Entity)
        requires
            old(self).wf(),
        ensures
            final(self).wf(),
            final(self).callbacks() == old(self).callbacks(),
            final(self).assigned() == old(self).assigned(),
            final(self).collisions() == old(self).collisions().insert(
                entity.0,
                list_of(old(self).collisions(), entity.0).push(other),
            ),
    {
        match hash_map_get_mut(&mut self.entity_collisions, &entity.0) {
            Some(others) => {
                others.push(other);
            },
            None => {
                let mut others = Vec::new();
                others.push(other);
                self.entity_collisions.insert(entity.0, others);
            },
        }
        assert(self.collisions() =~= old(self).collisions().insert(
            entity.0,
            list_of(old(self).collisions(), entity.0).push(other),
        ));
    }

    /// Sorts the collision pairs by entity: for each pair `(a, b)`, `b` is added to the
    /// collisions of `a` and `a` to the collisions of `b`.
    pub fn record_collisions(&mut self, collisions: &[(Entity, Entity)])
        requires
            old(self).wf(),
        ensures
            final(self).wf(),
            final(self).callbacks() == old(self).callbacks(),
            final(self).assigned() == old(self).assigned(),
            final(self).collisions().dom() == old(self).collisions().dom() + involved(collisions@),
            forall|e: u32|
                #[trigger] list_of(final(self).collisions(), e) == list_of(old(self).collisions(), e)
                    + partners(collisions@, e),
    {
        let mut i: usize = 0;
        while i < collisions.len()
            invariant
                self.wf(),
                i <= collisions@.len(),
                self.callbacks() == old(self).callbacks(),
                self.assigned() == old(self).assigned(),
                self.collisions().dom() == old(self).collisions().dom() + involved(collisions@.take(i as int)),
                forall|e: u32|
                    #[trigger] list_of(self.collisions(), e) == list_of(old(self).collisions(), e)
                        + partners(collisions@.take(i as int), e),
            decreases collisions@.len() - i,
        {
            let (entity, other) = collisions[i];
            let ghost before = self.collisions();
            self.add_collision(entity, other);
            let ghost mid = self.collisions();
            self.add_collision(other, entity);
            proof {
                let prefix = collisions@.take(i as int);
                let next = collisions@.take(i + 1);
                assert(next.drop_last() =~= prefix);
                assert(next.last() == (entity, other));
                assert forall|e: u32|
                    #[trigger] list_of(self.collisions(), e) == list_of(old(self).collisions(), e)
                        + partners(next, e) by {
                    assert(partners(next, e) == partners(prefix, e) + (if entity.0 == e {
                        seq![other]
                    } else {
                        Seq::empty()
                    }) + (if other.0 == e {
                        seq![entity]
                    } else {
                        Seq::empty()
                    }));
                    lemma_list_of_push(before, entity.0, other, e);
                    lemma_list_of_push(mid, other.0, entity, e);
                    assert(list_of(self.collisions(), e) =~= list_of(old(self).collisions(), e) + partners(next, e));
                }
                assert(involved(next) =~= involved(prefix).insert(entity.0).insert(other.0)) by {
                    assert forall|id: u32| involved(next).contains(id) implies involved(prefix).insert(entity.0).insert(other.0).contains(id) by {
                        let k = choose|k: int| 0 <= k < next.len() && (next[k].0.0 == id || next[k].1.0 == id);
                        if k < i {
                            assert(prefix[k] == next[k]);
                        }
                    }
                    assert forall|id: u32| involved(prefix).contains(id) implies involved(next).contains(id) by {
                        let k = choose|k: int| 0 <= k < prefix.len() && (prefix[k].0.0 == id || prefix[k].1.0 == id);
                        assert(next[k] == prefix[k]);
                    }
                    assert(next[i as int] == (entity, other));
                }
                assert(self.collisions().dom() =~= old(self).collisions().dom() + involved(next));
            }
            i = i + 1;
        }
        assert(collisions@.take(collisions@.len() as int) =~= collisions@);
    }

    /// Empties the collisions gathered for `entity` and returns them.
    fn take_collisions(&mut self, entity: Entity) -> (others: Vec<Entity>)
        requires
            old(self).wf(),
            old(self).collisions().contains_key(entity.0),
        ensures
            final(self).wf(),
            final(self).callbacks() == old(self).callbacks(),
            final(self).assigned() == old(self).assigned(),
            final(self).collisions() == old(self).collisions().insert(entity.0, Seq::empty()),
            others@ == old(self).collisions()[entity.0],
    {
        let others = self.entity_collisions.remove(&entity.0).unwrap();
        self.entity_collisions.insert(entity.0, Vec::new());
        assert(self.collisions() =~= old(self).collisions().insert(entity.0, Seq::empty()));
        others
    }
}

/// The callbacks to invoke for one entity that collided during a frame, with the entities it
/// collided with.
pub struct CollisionDispatch {
    pub entity: Entity,
    pub others: Vec<Entity>,
    pub callbacks: Vec<CallbackId>,
}

/// The specification's view of a dispatch.
pub struct DispatchView {
    pub entity: Entity,
    pub others: Seq<Entity>,
    pub callbacks: Seq<CallbackId>,
}

pub open spec fn dispatch_view(d: CollisionDispatch) -> DispatchView {
    DispatchView { entity: d.entity, others: d.others@, callbacks: d.callbacks@ }
}

pub open spec fn dispatch_views(ds: Seq<CollisionDispatch>) -> Seq<DispatchView> {
    ds.map_values(|d: CollisionDispatch| dispatch_view(d))
}

/// The invocations of the callback registered under `id` that one entity's dispatch calls for:
/// one for each time `id` is among the entity's callbacks, in order.
pub open spec fn calls_for(id: u64, entity: Entity, others: Seq<Entity>, callbacks: Seq<CallbackId>) -> Seq<(Entity, Seq<Entity>)>
    decreases callbacks.len(),
{
    if callbacks.len() == 0 {
        Seq::empty()
    } else {
        calls_for(id, entity, others, callbacks.drop_last()) + if callbacks.last().0 == id {
            seq![(entity, others)]
        } else {
            Seq::empty()
        }
    }
}

/// The invocations of the callback registered under `id` that the dispatches `ds` call for, in
/// order.
pub open spec fn dispatch_calls(id: u64, ds: Seq<DispatchView>) -> Seq<(Entity, Seq<Entity>)>
    decreases ds.len(),
{
    if ds.len() == 0 {
        Seq::empty()
    } else {
        dispatch_calls(id, ds.drop_last()) + calls_for(
            id,
            ds.last().entity,
            ds.last().others,
            ds.last().callbacks,
        )
    }
}

/// `ds` lists, once for every entity with callbacks whose gathered collisions (once
/// `collisions` are added) are not empty, those collisions and the entity's callbacks.
pub open spec fn dispatched<C>(m: CollisionCallbackManager<C>, collisions: Seq<(Entity, Entity)>, ds: Seq<DispatchView>) -> bool {
    &&& forall|i: int|
        0 <= i < ds.len() ==> {
            let d = #[trigger] ds[i];
            &&& m.gathered(collisions, d.entity.0).len() > 0
            &&& d.others == m.gathered(collisions, d.entity.0)
            &&& m.assigned().contains_key(d.entity.0)
            &&& d.callbacks == m.assigned()[d.entity.0]
        }
    &&& forall|i: int, j: int| 0 <= i < j < ds.len() ==> #[trigger] ds[i].entity != #[trigger] ds[j].entity
    &&& forall|e: u32|
        m.gathered(collisions, e).len() > 0 && #[trigger] m.assigned().contains_key(e) ==> exists|i: int|
            0 <= i < ds.len() && #[trigger] ds[i].entity.0 == e
}

impl<C> CollisionCallbackManager<C> {
    /// The collisions gathered for `e` once the pairs `collisions` are added to them.
    pub open spec fn gathered(&self, collisions: Seq<(Entity, Entity)>, e: u32) -> Seq<Entity> {
        list_of(self.collisions(), e) + partners(collisions, e)
    }

    /// Sorts `collisions` by entity and empties the gathered lists. Returns, once for every
    /// entity with a non-empty list that has callbacks assigned, that list and those callbacks.
    pub fn dispatch_collisions(&mut self, collisions: &[(Entity, Entity)]) -> (dispatches: Vec<CollisionDispatch>)
        requires
            old(self).wf(),
        ensures
            final(self).wf(),
            final(self).callbacks() == old(self).callbacks(),
            final(self).assigned() == old(self).assigned(),
            final(self).collisions().dom() == old(self).collisions().dom() + involved(collisions@),
            forall|e: u32| #[trigger] final(self).collisions().contains_key(e) ==> final(self).collisions()[e].len() == 0,
            forall|i: int|
                0 <= i < dispatches@.len() ==> {
                    let d = #[trigger] dispatches@[i];
                    &&& old(self).gathered(collisions@, d.entity.0).len() > 0
                    &&& d.others@ == old(self).gathered(collisions@, d.entity.0)
                    &&& old(self).assigned().contains_key(d.entity.0)
                    &&& d.callbacks@ == old(self).assigned()[d.entity.0]
                },
            forall|i: int, j: int|
                0 <= i < j < dispatches@.len() ==> #[trigger] dispatches@[i].entity != #[trigger] dispatches@[j].entity,
            forall|e: u32|
                old(self).gathered(collisions@, e).len() > 0 && #[trigger] old(self).assigned().contains_key(e)
                    ==> exists|i: int| 0 <= i < dispatches@.len() && #[trigger] dispatches@[i].entity.0 == e,
            dispatched(*old(self), collisions@, dispatch_views(dispatches@)),
    {
        self.record_collisions(collisions);
        let ghost recorded = self.collisions();
        assert forall|e: u32| old(self).gathered(collisions@, e).len() > 0 implies #[trigger] recorded.contains_key(e) by {
            assert(list_of(recorded, e) == old(self).gathered(collisions@, e));
        }
        let entities = key_list(&self.entity_collisions);
        let mut dispatches: Vec<CollisionDispatch> = Vec::new();
        let mut i: usize = 0;
        while i < entities.len()
            invariant
                self.wf(),
                i <= entities@.len(),
                entities@.to_set() == recorded.dom(),
                entities@.no_duplicates(),
                self.callbacks() == old(self).callbacks(),
                self.assigned() == old(self).assigned(),
                self.collisions().dom() == recorded.dom(),
                forall|e: u32| #[trigger] list_of(recorded, e) == old(self).gathered(collisions@, e),
                forall|e: u32| old(self).gathered(collisions@, e).len() > 0 ==> #[trigger] recorded.contains_key(e),
                forall|e: u32| #[trigger] recorded.contains_key(e) ==> recorded[e] == list_of(recorded, e),
                forall|k: int| 0 <= k < i ==> #[trigger] self.collisions()[entities@[k]].len() == 0,
                forall|k: int| i <= k < entities@.len() ==> #[trigger] self.collisions()[entities@[k]] == recorded[entities@[k]],
                forall|q: int|
                    0 <= q < dispatches@.len() ==> {
                        let d = #[trigger] dispatches@[q];
                        &&& old(self).gathered(collisions@, d.entity.0).len() > 0
                        &&& d.others@ == old(self).gathered(collisions@, d.entity.0)
                        &&& old(self).assigned().contains_key(d.entity.0)
                        &&& d.callbacks@ == old(self).assigned()[d.entity.0]
                        &&& exists|k: int| 0 <= k < i && entities@[k] == d.entity.0
                    },
                forall|a: int, b: int|
                    0 <= a < b < dispatches@.len() ==> #[trigger] dispatches@[a].entity != #[trigger] dispatches@[b].entity,
                forall|k: int|
                    0 <= k < i && #[trigger] recorded[entities@[k]].len() > 0 && old(self).assigned().contains_key(entities@[k])
                        ==> exists|q: int| 0 <= q < dispatches@.len() && #[trigger] dispatches@[q].entity.0 == entities@[k],
            decreases entities@.len() - i,
        {
            let entity = Entity(entities[i]);
            assert(entities@.to_set().contains(entities@[i as int]));
            let ghost before = dispatches@;
            let ghost collisions_before = self.collisions();
            let others = self.take_collisions(entity);
            if others.len() > 0 {
                match self.entity_callbacks.get(&entity.0) {
                    Some(callback_ids) => {
                        let callbacks = callback_ids.clone();
                        assert(recorded[entity.0].len() > 0);
                        assert(recorded[entity.0] == list_of(recorded, entity.0));
                        assert(list_of(recorded, entity.0) == old(self).gathered(collisions@, entity.0));
                        dispatches.push(CollisionDispatch { entity: entity, others: others, callbacks: callbacks });
                        proof {
                            assert forall|a: int, b: int| 0 <= a < b < dispatches@.len() implies #[trigger] dispatches@[a].entity
                                != #[trigger] dispatches@[b].entity by {
                                if b == dispatches@.len() - 1 {
                                    let k = choose|k: int| 0 <= k < i && entities@[k] == dispatches@[a].entity.0;
                                    assert(dispatches@[a] == before[a]);
                                    assert(entities@[k] != entities@[i as int]);
                                } else {
                                    assert(dispatches@[a] == before[a]);
                                    assert(dispatches@[b] == before[b]);
                                }
                            }
                        }
                    },
                    None => {},
                }
            }
            proof {
                assert forall|q: int| 0 <= q < dispatches@.len() implies {
                    let d = #[trigger] dispatches@[q];
                    &&& old(self).gathered(collisions@, d.entity.0).len() > 0
                    &&& d.others@ == old(self).gathered(collisions@, d.entity.0)
                    &&& old(self).assigned().contains_key(d.entity.0)
                    &&& d.callbacks@ == old(self).assigned()[d.entity.0]
                    &&& exists|k: int| 0 <= k < i + 1 && entities@[k] == d.entity.0
                } by {
                    if q < before.len() {
                        assert(dispatches@[q] == before[q]);
                        let k = choose|k: int| 0 <= k < i && entities@[k] == before[q].entity.0;
                        assert(0 <= k < i + 1 && entities@[k] == dispatches@[q].entity.0);
                    } else {
                        assert(entities@[i as int] == dispatches@[q].entity.0);
                    }
                }
                assert forall|k: int|
                    0 <= k < i + 1 && #[trigger] recorded[entities@[k]].len() > 0 && old(self).assigned().contains_key(entities@[k])
                        implies exists|q: int| 0 <= q < dispatches@.len() && #[trigger] dispatches@[q].entity.0 == entities@[k] by {
                    if k < i {
                        let q = choose|q: int| 0 <= q < before.len() && #[trigger] before[q].entity.0 == entities@[k];
                        assert(dispatches@[q] == before[q]);
                    } else {
                        assert(dispatches@[dispatches@.len() - 1].entity.0 == entities@[k]);
                    }
                }
                assert forall|k: int| i + 1 <= k < entities@.len() implies #[trigger] self.collisions()[entities@[k]] == recorded[entities@[k]] by {
                    assert(entities@[k] != entities@[i as int]);
                }
                assert forall|k: int| 0 <= k < i + 1 implies #[trigger] self.collisions()[entities@[k]].len() == 0 by {
                    if k < i {
                        assert(entities@[k] != entities@[i as int]);
                    }
                }
            }
            i = i + 1;
        }
        proof {
            assert forall|e: u32| #[trigger] self.collisions().contains_key(e) implies self.collisions()[e].len() == 0 by {
                assert(entities@.to_set().contains(e));
                let k = choose|k: int| 0 <= k < entities@.len() && entities@[k] == e;
            }
            assert forall|e: u32|
                old(self).gathered(collisions@, e).len() > 0 && #[trigger] old(self).assigned().contains_key(e)
                    implies exists|i: int| 0 <= i < dispatches@.len() && #[trigger] dispatches@[i].entity.0 == e by {
                assert(recorded.contains_key(e));
                assert(entities@.to_set().contains(e));
                let k = choose|k: int| 0 <= k < entities@.len() && entities@[k] == e;
                assert(recorded[entities@[k]].len() > 0);
            }
        }
        proof {
            let views = dispatch_views(dispatches@);
            assert forall|i: int| 0 <= i < views.len() implies {
                let d = #[trigger] views[i];
                &&& old(self).gathered(collisions@, d.entity.0).len() > 0
                &&& d.others == old(self).gathered(collisions@, d.entity.0)
                &&& old(self).assigned().contains_key(d.entity.0)
                &&& d.callbacks == old(self).assigned()[d.entity.0]
            } by {
                assert(views[i] == dispatch_view(dispatches@[i]));
            }
            assert forall|i: int, j: int| 0 <= i < j < views.len() implies #[trigger] views[i].entity
                != #[trigger] views[j].entity by {
                assert(views[i].entity == dispatches@[i].entity);
                assert(views[j].entity == dispatches@[j].entity);
            }
            assert forall|e: u32|
                old(self).gathered(collisions@, e).len() > 0 && #[trigger] old(self).assigned().contains_key(e)
                    implies exists|i: int| 0 <= i < views.len() && #[trigger] views[i].entity.0 == e by {
                let i = choose|i: int| 0 <= i < dispatches@.len() && #[trigger] dispatches@[i].entity.0 == e;
                assert(views[i].entity == dispatches@[i].entity);
            }
        }
        dispatches
    }

    /// Sorts `collisions` by entity, then invokes, for every entity that collided, each callback
    /// assigned to it with the entities it collided with (as `dispatch_collisions` gathers them);
    /// afterwards every gathered list is empty. Every registered callback ends up invoked in turn
    /// with exactly the calls the dispatches ask of it, in dispatch order.
    pub fn process_collisions<S>(&mut self, scene: &S, collisions: &[(Entity, Entity)])
        where C: CollisionCallback<S>,
        requires
            old(self).wf(),
        ensures
            final(self).wf(),
            final(self).callbacks().dom() == old(self).callbacks().dom(),
            final(self).assigned() == old(self).assigned(),
            final(self).collisions().dom() == old(self).collisions().dom() + involved(collisions@),
            forall|e: u32| #[trigger] final(self).collisions().contains_key(e) ==> final(self).collisions()[e].len() == 0,
            exists|ds: Seq<DispatchView>|
                {
                    &&& dispatched(*old(self), collisions@, ds)
                    &&& forall|id: u64| #[trigger]
                        old(self).callbacks().contains_key(id) ==> invoked_in_turn(
                            old(self).callbacks()[id],
                            final(self).callbacks()[id],
                            scene,
                            dispatch_calls(id, ds),
                        )
                },
    {
        let dispatches = self.dispatch_collisions(collisions);
        let ghost views = dispatch_views(dispatches@);
        let ghost collected = self.collisions();
        let ghost cb0 = self.callbacks();
        assert forall|id: u64| #[trigger] cb0.contains_key(id) implies invoked_in_turn(
            cb0[id],
            self.callbacks()[id],
            scene,
            dispatch_calls(id, views.take(0)),
        ) by {
            assert(views.take(0) =~= Seq::<DispatchView>::empty());
            lemma_invoked_none(cb0[id], scene);
        }
        let mut i: usize = 0;
        while i < dispatches.len()
            invariant
                self.wf(),
                i <= dispatches@.len(),
                views == dispatch_views(dispatches@),
                cb0 == old(self).callbacks(),
                self.callbacks().dom() == old(self).callbacks().dom(),
                self.assigned() == old(self).assigned(),
                self.collisions() == collected,
                forall|q: int|
                    0 <= q < dispatches@.len() ==> {
                        let d = #[trigger] dispatches@[q];
                        &&& self.assigned().contains_key(d.entity.0)
                        &&& d.callbacks@ == self.assigned()[d.entity.0]
                    },
                forall|id: u64| #[trigger]
                    cb0.contains_key(id) ==> invoked_in_turn(
                        cb0[id],
                        self.callbacks()[id],
                        scene,
                        dispatch_calls(id, views.take(i as int)),
                    ),
            decreases dispatches@.len() - i,
        {
            let dispatch = &dispatches[i];
            let ghost d = views[i as int];
            assert(d == dispatch_view(dispatches@[i as int]));
            assert(dispatches@[i as int].callbacks@ == self.assigned()[dispatch.entity.0]);
            assert forall|id: u64| #[trigger] cb0.contains_key(id) implies invoked_in_turn(
                cb0[id],
                self.callbacks()[id],
                scene,
                dispatch_calls(id, views.take(i as int)) + calls_for(
                    id,
                    d.entity,
                    d.others,
                    d.callbacks.take(0),
                ),
            ) by {
                assert(d.callbacks.take(0) =~= Seq::<CallbackId>::empty());
                assert(dispatch_calls(id, views.take(i as int)) + calls_for(id, d.entity, d.others, d.callbacks.take(0))
                    =~= dispatch_calls(id, views.take(i as int)));
            }
            let mut j: usize = 0;
            while j < dispatch.callbacks.len()
                invariant
                    self.wf(),
                    j <= dispatch.callbacks@.len(),
                    cb0 == old(self).callbacks(),
                    self.callbacks().dom() == old(self).callbacks().dom(),
                    self.assigned() == old(self).assigned(),
                    self.collisions() == collected,
                    self.assigned().contains_key(dispatch.entity.0),
                    dispatch.callbacks@ == self.assigned()[dispatch.entity.0],
                    d == dispatch_view(*dispatch),
                    forall|id: u64| #[trigger]
                        cb0.contains_key(id) ==> invoked_in_turn(
                            cb0[id],
                            self.callbacks()[id],
                            scene,
                            dispatch_calls(id, views.take(i as int)) + calls_for(
                                id,
                                d.entity,
                                d.others,
                                d.callbacks.take(j as int),
                            ),
                        ),
                decreases dispatch.callbacks@.len() - j,
            {
                let callback_id = dispatch.callbacks[j];
                let ghost before = self.callbacks();
                assert(self.entity_callbacks@[dispatch.entity.0]@[j as int] == callback_id);
                assert(d.callbacks.take(j + 1).drop_last() =~= d.callbacks.take(j as int));
                assert(d.callbacks.take(j + 1).last() == callback_id);
                match self.callbacks.get_mut(&callback_id) {
                    Some(callback) => {
                        callback.invoke(scene, dispatch.entity, dispatch.others.as_slice());
                    },
                    None => {
                        assert(false);
                    },
                }
                proof {
                    assert(self.callbacks@.dom() =~= old(self).callbacks().dom());
                    assert forall|id: u64| #[trigger] cb0.contains_key(id) implies invoked_in_turn(
                        cb0[id],
                        self.callbacks()[id],
                        scene,
                        dispatch_calls(id, views.take(i as int)) + calls_for(
                            id,
                            d.entity,
                            d.others,
                            d.callbacks.take(j + 1),
                        ),
                    ) by {
                        let prior = dispatch_calls(id, views.take(i as int)) + calls_for(
                            id,
                            d.entity,
                            d.others,
                            d.callbacks.take(j as int),
                        );
                        if id == callback_id.0 {
                            lemma_invoked_step(
                                cb0[id],
                                before[id],
                                self.callbacks()[id],
                                scene,
                                prior,
                                d.entity,
                                d.others,
                            );
                            assert(prior.push((d.entity, d.others)) =~= dispatch_calls(id, views.take(i as int))
                                + calls_for(id, d.entity, d.others, d.callbacks.take(j + 1)));
                        } else {
                            assert(self.callbacks()[id] == before[id]);
                            assert(prior =~= dispatch_calls(id, views.take(i as int)) + calls_for(
                                id,
                                d.entity,
                                d.others,
                                d.callbacks.take(j + 1),
                            ));
                        }
                    }
                }
                j = j + 1;
            }
            proof {
                assert(d.callbacks.take(d.callbacks.len() as int) =~= d.callbacks);
                assert(views.take(i + 1).drop_last() =~= views.take(i as int));
                assert(views.take(i + 1).last() == d);
                assert forall|id: u64| #[trigger] cb0.contains_key(id) implies invoked_in_turn(
                    cb0[id],
                    self.callbacks()[id],
                    scene,
                    dispatch_calls(id, views.take(i + 1)),
                ) by {
                    assert(dispatch.callbacks@.len() == d.callbacks.len());
                }
            }
            i = i + 1;
        }
        proof {
            assert(views.take(views.len() as int) =~= views);
        }
    }
}

/// Assigns colliders to entities and owns the bounding volumes and collision callbacks of the
/// collision system. Colliders are of type `T`, callbacks of type `C`, bounding volumes of type
/// `V`.
pub struct ColliderManager<T, C, V> {
    inner: StructComponentManager<T, ()>,
    callback_manager: CollisionCallbackManager<C>,
    bvh_manager: BoundingVolumeManager<V>,
    marked_for_destroy: HashSet<u32>,
}

impl<T, C, V> ColliderManager<T, C, V> {
    /// The colliders, keyed by the id of their entity.
    pub closed spec fn colliders(&self) -> Map<u32, T> {
        self.inner@
    }

    /// The number of colliders.
    pub closed spec fn count(&self) -> nat {
        self.inner.entity_order().len()
    }

    /// The entities that own a collider, in the order their colliders were assigned.
    pub closed spec fn entity_order(&self) -> Seq<Entity> {
        self.inner.entity_order()
    }

    /// The colliders, in the order they were assigned.
    pub closed spec fn collider_order(&self) -> Seq<T> {
        self.inner.component_order()
    }

    /// The collision callbacks and their assignments.
    pub closed spec fn callback_manager(&self) -> CollisionCallbackManager<C> {
        self.callback_manager
    }

    /// The bounding volumes.
    pub closed spec fn bvh(&self) -> BoundingVolumeManager<V> {
        self.bvh_manager
    }

    /// The ids of the entities whose colliders are marked for destruction.
    pub closed spec fn marked(&self) -> Set<u32> {
        self.marked_for_destroy@
    }

    pub closed spec fn wf(&self) -> bool {
        &&& self.inner.wf()
        &&& self.callback_manager.wf()
        &&& self.bvh_manager.wf()
    }

    pub fn new() -> (manager: ColliderManager<T, C, V>)
        ensures
            manager.wf(),
            manager.colliders() == Map::<u32, T>::empty(),
            manager.count() == 0,
            manager.callback_manager().callbacks() == Map::<u64, C>::empty(),
            manager.callback_manager().assigned() == Map::<u32, Seq<CallbackId>>::empty(),
            manager.callback_manager().collisions() == Map::<u32, Seq<Entity>>::empty(),
            manager.bvh()@ == Map::<u32, V>::empty(),
            manager.marked() == Set::<u32>::empty(),
    {
        ColliderManager {
            inner: StructComponentManager::new(),
            callback_manager: CollisionCallbackManager::new(),
            bvh_manager: BoundingVolumeManager::new(),
            marked_for_destroy: HashSet::new(),
        }
    }

    /// Assigns a collider to `entity`, which must not have one yet; the manager must not be full.
    pub fn assign(&mut self, entity: Entity, collider: T)
        requires
            old(self).wf(),
            !old(self).colliders().contains_key(entity.0),
            old(self).count() < MAX_COMPONENTS,
        ensures
            final(self).wf(),
            final(self).colliders() == old(self).colliders().insert(entity.0, collider),
            final(self).count() == old(self).count() + 1,
            final(self).entity_order() == old(self).entity_order().push(entity),
            final(self).collider_order() == old(self).collider_order().push(collider),
            final(self).callback_manager() == old(self).callback_manager(),
            final(self).bvh() == old(self).bvh(),
            final(self).marked() == old(self).marked(),
    {
        self.inner.assign(entity, collider);
    }

    /// Registers a collision callback under `callback_id` without assigning it to an entity.
    pub fn register_callback(&mut self, callback_id: CallbackId, callback: C)
        requires
            old(self).wf(),
        ensures
            final(self).wf(),
            final(self).callback_manager().callbacks() == old(self).callback_manager().callbacks().insert(
                callback_id.0,
                callback,
            ),
            final(self).callback_manager().assigned() == old(self).callback_manager().assigned(),
            final(self).callback_manager().collisions() == old(self).callback_manager().collisions(),
            final(self).colliders() == old(self).colliders(),
            final(self).count() == old(self).count(),
            final(self).bvh() == old(self).bvh(),
            final(self).marked() == old(self).marked(),
    {
        self.callback_manager.register(callback_id, callback);
    }

    /// Assigns the callback `callback_id` to `entity`; `callback` is registered under that id
    /// first if no callback is registered there yet, so `register_callback` need not come before.
    pub fn assign_callback(&mut self, entity: Entity, callback_id: CallbackId, callback: C)
        requires
            old(self).wf(),
        ensures
            final(self).wf(),
            final(self).callback_manager().callbacks() == if old(self).callback_manager().callbacks().contains_key(
                callback_id.0,
            ) {
                old(self).callback_manager().callbacks()
            } else {
                old(self).callback_manager().callbacks().insert(callback_id.0, callback)
            },
            final(self).callback_manager().assigned() == old(self).callback_manager().assigned().insert(
                entity.0,
                list_of(old(self).callback_manager().assigned(), entity.0).push(callback_id),
            ),
            final(self).callback_manager().collisions() == old(self).callback_manager().collisions(),
            final(self).colliders() == old(self).colliders(),
            final(self).count() == old(self).count(),
            final(self).bvh() == old(self).bvh(),
            final(self).marked() == old(self).marked(),
    {
        self.callback_manager.assign(entity, callback_id, callback);
    }

    /// The colliders with their entities, in the order they were assigned.
    pub fn iter(&self) -> (iter: Iter<'_, T>)
        requires
            self.wf(),
        ensures
            iter.remaining_entities() == self.entity_order(),
            iter.remaining_components() == self.collider_order(),
    {
        self.inner.iter()
    }

    pub fn get(&self, entity: Entity) -> (collider: Option<&T>)
        requires
            self.wf(),
        ensures
            match collider {
                Some(c) => self.colliders().contains_key(entity.0) && *c == self.colliders()[entity.0],
                None => !self.colliders().contains_key(entity.0),
            },
    {
        self.inner.get(entity)
    }

    pub fn bvh_manager(&self) -> (bvh: &BoundingVolumeManager<V>)
        ensures
            *bvh == self.bvh(),
    {
        &self.bvh_manager
    }

    /// Mutable access to the bounding volumes.
    pub fn bvh_manager_mut(&mut self) -> (bvh: &mut BoundingVolumeManager<V>)
        ensures
            *bvh == old(self).bvh(),
            final(self).bvh() == *final(bvh),
            final(self).colliders() == old(self).colliders(),
            final(self).count() == old(self).count(),
            final(self).callback_manager() == old(self).callback_manager(),
            final(self).marked() == old(self).marked(),
    {
        &mut self.bvh_manager
    }

    /// Mutable access to the collision callbacks, to process a frame's collisions.
    pub fn callback_manager_mut(&mut self) -> (callbacks: &mut CollisionCallbackManager<C>)
        requires
            old(self).wf(),
        ensures
            *callbacks == old(self).callback_manager(),
            callbacks.wf(),
            final(self).callback_manager() == *final(callbacks),
            final(callbacks).wf() ==> final(self).wf(),
            final(self).colliders() == old(self).colliders(),
            final(self).count() == old(self).count(),
            final(self).entity_order() == old(self).entity_order(),
            final(self).bvh() == old(self).bvh(),
            final(self).marked() == old(self).marked(),
    {
        &mut self.callback_manager
    }

    /// Removes the callback assignments and the bounding volume of every entity whose collider
    /// is marked for destruction, then clears the marks.
    pub fn destroy_marked(&mut self)
        requires
            old(self).wf(),
        ensures
            final(self).wf(),
            final(self).marked() == Set::<u32>::empty(),
            final(self).callback_manager().callbacks() == old(self).callback_manager().callbacks(),
            final(self).callback_manager().collisions() == old(self).callback_manager().collisions(),
            final(self).callback_manager().assigned() == old(self).callback_manager().assigned().remove_keys(
                old(self).marked(),
            ),
            final(self).bvh()@ == old(self).bvh()@.remove_keys(old(self).marked()),
            final(self).colliders() == old(self).colliders(),
            final(self).count() == old(self).count(),
            final(self).entity_order() == old(self).entity_order(),
    {
        let marked = member_list(&self.marked_for_destroy);
        let mut k: usize = 0;
        assert(marked@.take(0).to_set() =~= Set::<u32>::empty());
        assert(old(self).callback_manager().assigned().remove_keys(Set::<u32>::empty()) =~= old(self).callback_manager().assigned());
        assert(old(self).bvh()@.remove_keys(Set::<u32>::empty()) =~= old(self).bvh()@);
        while k < marked.len()
            invariant
                self.wf(),
                k <= marked@.len(),
                marked@.to_set() == old(self).marked(),
                self.marked() == old(self).marked(),
                self.inner == old(self).inner,
                self.callback_manager().callbacks() == old(self).callback_manager().callbacks(),
                self.callback_manager().collisions() == old(self).callback_manager().collisions(),
                self.callback_manager().assigned() == old(self).callback_manager().assigned().remove_keys(
                    marked@.take(k as int).to_set(),
                ),
                self.bvh()@ == old(self).bvh()@.remove_keys(marked@.take(k as int).to_set()),
            decreases marked@.len() - k,
        {
            let entity = Entity(marked[k]);
            self.callback_manager.unregister_all(entity);
            let _removed = self.bvh_manager.destroy_immediate(entity);
            proof {
                let done = marked@.take(k as int).to_set();
                assert(marked@.take(k + 1).to_set() =~= done.insert(entity.0)) by {
                    let shorter = marked@.take(k as int);
                    let longer = marked@.take(k + 1);
                    assert(longer =~= shorter.push(entity.0));
                    assert forall|v: u32| longer.to_set().contains(v) <==> done.insert(entity.0).contains(v) by {
                        if longer.contains(v) {
                            let a = choose|a: int| 0 <= a < longer.len() && #[trigger] longer[a] == v;
                            if a < k {
                                assert(shorter[a] == v);
                            }
                        }
                        if shorter.contains(v) {
                            let a = choose|a: int| 0 <= a < shorter.len() && #[trigger] shorter[a] == v;
                            assert(longer[a] == v);
                        }
                        if v == entity.0 {
                            assert(longer[k as int] == v);
                        }
                    }
                }
                assert(self.callback_manager().assigned() =~= old(self).callback_manager().assigned().remove_keys(
                    done.insert(entity.0),
                ));
                assert(self.bvh()@ =~= old(self).bvh()@.remove_keys(done.insert(entity.0)));
            }
            k = k + 1;
        }
        self.marked_for_destroy.clear();
        assert(marked@.take(marked@.len() as int) =~= marked@);
    }

    /// Marks the collider of `entity` for destruction.
    pub fn destroy(&mut self, entity: Entity)
        requires
            old(self).wf(),
        ensures
            final(self).wf(),
            final(self).colliders() == old(self).colliders(),
            final(self).count() == old(self).count(),
            final(self).callback_manager() == old(self).callback_manager(),
            final(self).bvh() == old(self).bvh(),
            final(self).marked() == old(self).marked().insert(entity.0),
    {
        self.inner.destroy(entity);
        self.marked_for_destroy.insert(entity.0);
    }
}

} // verus!
