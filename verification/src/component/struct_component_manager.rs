//! A utility on which to build other component managers.
//!
//! `StructComponentManager` provides a default system for implementing a component manager for
//! any type that can be represented as a single struct. It handles the details of assigning
//! component data to an entity, retrieving that data, marking it for destruction, and queueing
//! messages for components and applying them.

use crate::callback::{hash_map_get_mut, key_list};
use crate::collections::Array;
use crate::component::{dense_indexing, dense_view, list_of};
use crate::ecs::{applied_in_turn, applied_through, Entity, Message};
use std::collections::HashMap;
use std::collections::HashSet;
use vstd::prelude::*;

verus! {

/// The most components a `StructComponentManager` holds; its storage never reallocates.
pub const MAX_COMPONENTS: usize = 1000;

/// Components of type `T`, with the messages of type `M` queued for them.
#[derive(Debug)]
pub struct StructComponentManager<T, M> {
    components: Array<T>,
    entities: Array<Entity>,
    indices: HashMap<u32, usize>,
    marked_for_destroy: HashSet<u32>,
    messages: HashMap<u32, Vec<M>>,
}

/// Walks the components of a `StructComponentManager` together with their entities, in the
/// order they were assigned.
pub struct Iter<'a, T> {
    components: &'a [T],
    entities: &'a [Entity],
    index: usize,
}

impl<T, M> View for StructComponentManager<T, M> {
    type V = Map<u32, T>;

    /// The components, keyed by the id of their entity.
    closed spec fn view(&self) -> Map<u32, T> {
        dense_view(self.components@, self.indices@)
    }
}

impl<T, M> StructComponentManager<T, M> {
    pub closed spec fn wf(&self) -> bool {
        &&& self.components@.len() == self.entities@.len()
        &&& self.components.spec_capacity() == MAX_COMPONENTS
        &&& self.entities.spec_capacity() == MAX_COMPONENTS
        &&& dense_indexing(self.entities@, self.indices@)
    }

    /// The owning entities, in the order their components were assigned.
    pub closed spec fn entity_order(&self) -> Seq<Entity> {
        self.entities@
    }

    /// The components, in the order they were assigned.
    pub closed spec fn component_order(&self) -> Seq<T> {
        self.components@
    }

    /// The ids of the entities whose components are marked for destruction.
    pub closed spec fn marked(&self) -> Set<u32> {
        self.marked_for_destroy@
    }

    /// The messages sent to each entity's component and not yet applied, in the order sent.
    pub closed spec fn pending(&self) -> Map<u32, Seq<M>> {
        self.messages@.map_values(|messages: Vec<M>| messages@)
    }

    pub fn new() -> (manager: StructComponentManager<T, M>)
        ensures
            manager.wf(),
            manager@ == Map::<u32, T>::empty(),
            manager.entity_order() == Seq::<Entity>::empty(),
            manager.marked() == Set::<u32>::empty(),
            manager.pending() == Map::<u32, Seq<M>>::empty(),
    {
        let manager = StructComponentManager {
            components: Array::new(MAX_COMPONENTS),
            entities: Array::new(MAX_COMPONENTS),
            indices: HashMap::new(),
            marked_for_destroy: HashSet::new(),
            messages: HashMap::new(),
        };
        assert(manager@ =~= Map::<u32, T>::empty());
        assert(manager.pending() =~= Map::<u32, Seq<M>>::empty());
        manager
    }

    /// Gives `entity` the component `component`. The entity must not have one already and the
    /// manager must not be full.
    pub fn assign(&mut self, entity: Entity, component: T)
        requires
            old(self).wf(),
            !old(self)@.contains_key(entity.0),
            old(self).entity_order().len() < MAX_COMPONENTS,
        ensures
            final(self).wf(),
            final(self)@ == old(self)@.insert(entity.0, component),
            final(self).entity_order() == old(self).entity_order().push(entity),
            final(self).component_order() == old(self).component_order().push(component),
            final(self).marked() == old(self).marked(),
            final(self).pending() == old(self).pending(),
    {
        let index = self.components.len();
        self.components.push(component);
        self.entities.push(entity);
        self.indices.insert(entity.0, index);
        assert(self@ =~= old(self)@.insert(entity.0, component));
    }

    /// The component of `entity`, if it has one.
    pub fn get(&self, entity: Entity) -> (component: Option<&T>)
        requires
            self.wf(),
        ensures
            match component {
                Some(c) => self@.contains_key(entity.0) && *c == self@[entity.0],
                None => !self@.contains_key(entity.0),
            },
    {
        match self.indices.get(&entity.0) {
            Some(index) => Some(&self.components.as_slice()[*index]),
            None => None,
        }
    }

    /// Mutable access to the component of `entity`, if it has one.
    pub fn get_mut(&mut self, entity: Entity) -> (component: Option<&mut T>)
        requires
            old(self).wf(),
        ensures
            final(self).wf(),
            final(self).entity_order() == old(self).entity_order(),
            final(self).marked() == old(self).marked(),
            final(self).pending() == old(self).pending(),
            match component {
                Some(c) => {
                    &&& old(self)@.contains_key(entity.0)
                    &&& *c == old(self)@[entity.0]
                    &&& final(self)@ == old(self)@.insert(entity.0, *final(c))
                },
                None => !old(self)@.contains_key(entity.0) && final(self)@ == old(self)@,
            },
    {
        match self.indices.get(&entity.0) {
            Some(index) => {
                let i = *index;
                Some(self.components.get_mut(i))
            },
            None => None,
        }
    }

    /// Marks the component of `entity` for destruction.
    pub fn destroy(&mut self, entity: Entity)
        requires
            old(self).wf(),
        ensures
            final(self).wf(),
            final(self)@ == old(self)@,
            final(self).entity_order() == old(self).entity_order(),
            final(self).component_order() == old(self).component_order(),
            final(self).marked() == old(self).marked().insert(entity.0),
            final(self).pending() == old(self).pending(),
    {
        self.marked_for_destroy.insert(entity.0);
    }

    pub fn iter(&self) -> (iter: Iter<'_, T>)
        requires
            self.wf(),
        ensures
            iter.remaining_components() == self.component_order(),
            iter.remaining_entities() == self.entity_order(),
    {
        let iter = Iter { components: self.components.as_slice(), entities: self.entities.as_slice(), index: 0 };
        assert(iter.remaining_components() =~= self.component_order());
        assert(iter.remaining_entities() =~= self.entity_order());
        iter
    }

    /// The number of components.
    pub fn len(&self) -> (len: usize)
        requires
            self.wf(),
        ensures
            len == self.entity_order().len(),
            len == self.component_order().len(),
            len == self@.len(),
    {
        proof {
            self.lemma_len();
        }
        self.entities.len()
    }

    /// Mutable access to the `index`-th component in assignment order, which must exist: the
    /// way to visit every component for mutation.
    pub fn get_mut_at(&mut self, index: usize) -> (component: &mut T)
        requires
            old(self).wf(),
            index < old(self).entity_order().len(),
        ensures
            final(self).wf(),
            *component == old(self).component_order()[index as int],
            final(self).component_order() == old(self).component_order().update(index as int, *final(component)),
            final(self)@ == old(self)@.insert(old(self).entity_order()[index as int].0, *final(component)),
            final(self).entity_order() == old(self).entity_order(),
            final(self).marked() == old(self).marked(),
            final(self).pending() == old(self).pending(),
    {
        proof {
            let id = self.entities@[index as int].0;
            assert forall|v: T| #[trigger] dense_view(self.components@.update(index as int, v), self.indices@)
                == self@.insert(id, v) by {
                assert(dense_view(self.components@.update(index as int, v), self.indices@) =~= self@.insert(id, v));
            }
        }
        self.components.get_mut(index)
    }

    /// Queues `message` for the component of `entity`, after the messages already queued for it.
    pub fn send_message(&mut self, entity: Entity, message: M)
        requires
            old(self).wf(),
        ensures
            final(self).wf(),
            final(self)@ == old(self)@,
            final(self).entity_order() == old(self).entity_order(),
            final(self).component_order() == old(self).component_order(),
            final(self).marked() == old(self).marked(),
            final(self).pending() == old(self).pending().insert(
                entity.0,
                list_of(old(self).pending(), entity.0).push(message),
            ),
    {
        match hash_map_get_mut(&mut self.messages, &entity.0) {
            Some(queued) => {
                queued.push(message);
            },
            None => {
                let mut queued = Vec::new();
                queued.push(message);
                self.messages.insert(entity.0, queued);
            },
        }
        assert(self.pending() =~= old(self).pending().insert(
            entity.0,
            list_of(old(self).pending(), entity.0).push(message),
        ));
    }

    /// Whether every entity with queued messages has a component to apply them to.
    pub fn message_targets_exist(&self) -> (exist: bool)
        requires
            self.wf(),
        ensures
            exist == forall|id: u32| #[trigger] self.pending().contains_key(id) ==> self@.contains_key(id),
    {
        let targets = key_list(&self.messages);
        let mut i: usize = 0;
        while i < targets.len()
            invariant
                i <= targets@.len(),
                targets@.to_set() == self.messages@.dom(),
                forall|k: int| 0 <= k < i ==> self.indices@.contains_key(#[trigger] targets@[k]),
            decreases targets@.len() - i,
        {
            if !self.indices.contains_key(&targets[i]) {
                assert(self.pending().contains_key(targets@[i as int])) by {
                    assert(targets@.to_set().contains(targets@[i as int]));
                }
                return false;
            }
            i = i + 1;
        }
        assert forall|id: u32| #[trigger] self.pending().contains_key(id) implies self@.contains_key(id) by {
            assert(targets@.to_set().contains(id));
            let k = choose|k: int| 0 <= k < targets@.len() && targets@[k] == id;
        }
        true
    }

    /// Applies every queued message to the component of its entity, in the order the messages
    /// were sent, and empties the queues. Every entity with queued messages must have a
    /// component.
    pub fn process_messages(&mut self)
        where M: Message<T>,
        requires
            old(self).wf(),
            forall|id: u32| #[trigger] old(self).pending().contains_key(id) ==> old(self)@.contains_key(id),
        ensures
            final(self).wf(),
            final(self).pending() == Map::<u32, Seq<M>>::empty(),
            final(self)@.dom() == old(self)@.dom(),
            forall|id: u32|
                #[trigger] old(self)@.contains_key(id) ==> applied_in_turn(
                    old(self)@[id],
                    final(self)@[id],
                    list_of(old(self).pending(), id),
                ),
            final(self).entity_order() == old(self).entity_order(),
            final(self).marked() == old(self).marked(),
    {
        let ids = key_list(&self.messages);
        let ghost pend = self.pending();
        let ghost start = self@;
        let mut i: usize = 0;
        assert(pend.remove_keys(ids@.take(0).to_set()) =~= pend);
        while i < ids.len()
            invariant
                self.wf(),
                i <= ids@.len(),
                ids@.to_set() == pend.dom(),
                ids@.no_duplicates(),
                self.entities@ == old(self).entities@,
                self.indices@ == old(self).indices@,
                self.marked_for_destroy@ == old(self).marked_for_destroy@,
                pend == old(self).pending(),
                start == old(self)@,
                forall|id: u32| #[trigger] pend.contains_key(id) ==> start.contains_key(id),
                self.pending() == pend.remove_keys(ids@.take(i as int).to_set()),
                forall|id: u32|
                    #[trigger] start.contains_key(id) ==> if ids@.take(i as int).contains(id) {
                        applied_in_turn(start[id], self@[id], list_of(pend, id))
                    } else {
                        self@[id] == start[id]
                    },
            decreases ids@.len() - i,
        {
            let id = ids[i];
            let ghost prefix = ids@.take(i as int);
            assert(ids@.to_set().contains(id));
            assert(!prefix.contains(id)) by {
                if prefix.contains(id) {
                    let a = choose|a: int| 0 <= a < prefix.len() && #[trigger] prefix[a] == id;
                    assert(ids@[a] == ids@[i as int]);
                }
            }
            assert(self.pending().contains_key(id));
            let ghost pending_before = self.pending();
            let ghost messages_before = self.messages@;
            assert(pending_before[id] == pend[id]);
            let mut queued = self.messages.remove(&id).unwrap();
            let ghost list = queued@;
            let ghost messages_after = self.messages@;
            assert(queued == messages_before[id]);
            assert(list == pend[id]);
            let index = *self.indices.get(&id).unwrap();
            let ghost comps = self.components@;
            let ghost first = comps[index as int];
            let ghost mut states: Seq<T> = seq![first];
            while queued.len() > 0
                invariant
                    self.wf(),
                    index < self.components@.len(),
                    index < comps.len(),
                    self.entities@ == old(self).entities@,
                    self.indices@ == old(self).indices@,
                    self.marked_for_destroy@ == old(self).marked_for_destroy@,
                    self.messages@ == messages_after,
                    states.len() >= 1,
                    states.len() - 1 + queued@.len() == list.len(),
                    queued@ == list.subrange(states.len() - 1, list.len() as int),
                    states[0] == first,
                    states.last() == self.components@[index as int],
                    self.components@ == comps.update(index as int, states.last()),
                    forall|t: int| 0 <= t < states.len() - 1 ==> #[trigger] list[t].applied(&states[t], &states[t + 1]),
                decreases queued@.len(),
            {
                let message = queued.remove(0);
                assert(message == list[states.len() - 1]);
                let ghost prev = self.components@;
                let component = self.components.get_mut(index);
                message.apply(component);
                assert(self.components@ == prev.update(index as int, self.components@[index as int]));
                proof {
                    let before = states;
                    states = states.push(self.components@[index as int]);
                    assert forall|t: int| 0 <= t < states.len() - 1 implies #[trigger] list[t].applied(&states[t], &states[t + 1]) by {
                        if t < before.len() - 1 {
                            assert(states[t] == before[t]);
                            assert(states[t + 1] == before[t + 1]);
                        }
                    }
                    assert(queued@ =~= list.subrange(states.len() - 1, list.len() as int));
                    assert(self.components@ =~= comps.update(index as int, states.last()));
                }
            }
            proof {
                assert(applied_through(states, first, self.components@[index as int], list));
                let done = ids@.take(i + 1);
                assert(done =~= prefix.push(id));
                assert(done.to_set() =~= prefix.to_set().insert(id)) by {
                    assert forall|v: u32| done.to_set().contains(v) <==> prefix.to_set().insert(id).contains(v) by {
                        if done.contains(v) {
                            let a = choose|a: int| 0 <= a < done.len() && #[trigger] done[a] == v;
                            if a < i {
                                assert(prefix[a] == v);
                            }
                        }
                        if prefix.contains(v) {
                            let a = choose|a: int| 0 <= a < prefix.len() && #[trigger] prefix[a] == v;
                            assert(done[a] == v);
                        }
                        if v == id {
                            assert(done[i as int] == v);
                        }
                    }
                }
                assert(messages_after == messages_before.remove(id));
                assert(self.pending() =~= pending_before.remove(id));
                assert(self.pending() =~= pend.remove_keys(done.to_set()));
                assert forall|other: u32| #[trigger] start.contains_key(other) implies if done.contains(other) {
                    applied_in_turn(start[other], self@[other], list_of(pend, other))
                } else {
                    self@[other] == start[other]
                } by {
                    assert(done.to_set().contains(other) == done.contains(other));
                    assert(prefix.to_set().contains(other) == prefix.contains(other));
                    if other == id {
                        assert(self@[other] == self.components@[index as int]);
                        assert(list_of(pend, other) == list);
                    } else {
                        assert(self.indices@[other] != index);
                        assert(self.components@[self.indices@[other] as int] == comps[self.indices@[other] as int]);
                    }
                }
            }
            i = i + 1;
        }
        proof {
            assert(ids@.take(ids@.len() as int) =~= ids@);
            assert(self.pending() =~= Map::<u32, Seq<M>>::empty()) by {
                assert forall|id: u32| !self.pending().contains_key(id) by {
                    if pend.contains_key(id) {
                        assert(ids@.to_set().contains(id));
                    }
                }
            }
            assert(self@.dom() =~= old(self)@.dom());
            assert forall|id: u32| #[trigger] old(self)@.contains_key(id) implies applied_in_turn(
                old(self)@[id],
                self@[id],
                list_of(old(self).pending(), id),
            ) by {
                if !ids@.contains(id) {
                    assert(!pend.contains_key(id)) by {
                        if pend.contains_key(id) {
                            assert(ids@.to_set().contains(id));
                        }
                    }
                    assert(applied_through(seq![start[id]], start[id], self@[id], list_of(pend, id)));
                }
            }
        }
    }

    proof fn lemma_len(&self)
        requires
            self.wf(),
        ensures
            self@.len() == self.entities@.len(),
    {
        crate::component::lemma_dense_len(self.entities@, self.components@, self.indices@);
    }
}

impl<'a, T> Iter<'a, T> {
    #[verifier::type_invariant]
    spec fn in_step(self) -> bool {
        &&& self.components@.len() == self.entities@.len()
        &&& self.index <= self.components@.len()
    }

    /// The components still to be yielded.
    pub closed spec fn remaining_components(&self) -> Seq<T> {
        self.components@.subrange(self.index as int, self.components@.len() as int)
    }

    /// The entities still to be yielded.
    pub closed spec fn remaining_entities(&self) -> Seq<Entity> {
        self.entities@.subrange(self.index as int, self.entities@.len() as int)
    }

    /// Yields the next component with its entity, or `None` once either sequence is exhausted.
    pub fn next(&mut self) -> (item: Option<(&'a T, Entity)>)
        ensures
            if old(self).remaining_components().len() > 0 && old(self).remaining_entities().len()
                > 0 {
                &&& item matches Some((c, e)) && *c == old(self).remaining_components()[0] && e
                    == old(self).remaining_entities()[0]
                &&& final(self).remaining_components() == old(self).remaining_components().drop_first()
                &&& final(self).remaining_entities() == old(self).remaining_entities().drop_first()
            } else {
                &&& item is None
                &&& final(self).remaining_components() == old(self).remaining_components()
                &&& final(self).remaining_entities() == old(self).remaining_entities()
            },
    {
        proof {
            use_type_invariant(&*self);
        }
        if self.index < self.components.len() && self.index < self.entities.len() {
            let i = self.index;
            self.index = self.index + 1;
            assert(self.remaining_components() =~= old(self).remaining_components().drop_first());
            assert(self.remaining_entities() =~= old(self).remaining_entities().drop_first());
            Some((&self.components[i], self.entities[i]))
        } else {
            None
        }
    }
}

} // verus!
