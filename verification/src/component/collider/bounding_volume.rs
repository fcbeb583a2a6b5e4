//! Storage of the bounding volumes used by collision processing, one per entity.

use crate::component::{dense_indexing, dense_view};
use crate::ecs::Entity;
use std::collections::HashMap;
use vstd::prelude::*;

verus! {

/// Keeps one bounding volume per entity in a dense array, so that collision processing can walk
/// all volumes in order.
#[derive(Debug)]
pub struct BoundingVolumeManager<V> {
    components: Vec<V>,
    entities: Vec<Entity>,
    indices: HashMap<u32, usize>,
}

impl<V> View for BoundingVolumeManager<V> {
    type V = Map<u32, V>;

    /// The volumes, keyed by the id of their entity.
    closed spec fn view(&self) -> Map<u32, V> {
        dense_view(self.components@, self.indices@)
    }
}

impl<V> BoundingVolumeManager<V> {
    pub closed spec fn wf(&self) -> bool {
        &&& self.components@.len() == self.entities@.len()
        &&& dense_indexing(self.entities@, self.indices@)
    }

    /// The owning entities, in storage order.
    pub closed spec fn entity_order(&self) -> Seq<Entity> {
        self.entities@
    }

    /// The volumes, in storage order.
    pub closed spec fn component_order(&self) -> Seq<V> {
        self.components@
    }

    pub fn new() -> (manager: BoundingVolumeManager<V>)
        ensures
            manager.wf(),
            manager@ == Map::<u32, V>::empty(),
            manager.entity_order() == Seq::<Entity>::empty(),
    {
        let manager = BoundingVolumeManager {
            components: Vec::new(),
            entities: Vec::new(),
            indices: HashMap::new(),
        };
        assert(manager@ =~= Map::<u32, V>::empty());
        manager
    }

    /// Gives `entity` the volume `component`; the entity must not have one already.
    pub fn assign(&mut self, entity: Entity, component: V)
        requires
            old(self).wf(),
            !old(self)@.contains_key(entity.0),
        ensures
            final(self).wf(),
            final(self)@ == old(self)@.insert(entity.0, component),
            final(self).entity_order() == old(self).entity_order().push(entity),
            final(self).component_order() == old(self).component_order().push(component),
    {
        proof {
            crate::component::lemma_dense_len(self.entities@, self.components@, self.indices@);
        }
        let index = self.components.len();
        self.components.push(component);
        self.entities.push(entity);
        self.indices.insert(entity.0, index);
        assert(self@ =~= old(self)@.insert(entity.0, component));
    }

    /// Gives `entity` the volume `component`: it replaces the entity's volume where it has one,
    /// and is assigned after the others where it has none.
    pub fn update_or_assign(&mut self, entity: Entity, component: V)
        requires
            old(self).wf(),
        ensures
            final(self).wf(),
            final(self)@ == old(self)@.insert(entity.0, component),
            final(self).entity_order() == if old(self)@.contains_key(entity.0) {
                old(self).entity_order()
            } else {
                old(self).entity_order().push(entity)
            },
    {
        match self.get_mut(entity) {
            Some(volume) => {
                *volume = component;
            },
            None => {
                self.assign(entity, component);
            },
        }
    }

    pub fn get(&self, entity: Entity) -> (component: Option<&V>)
        requires
            self.wf(),
        ensures
            match component {
                Some(c) => self@.contains_key(entity.0) && *c == self@[entity.0],
                None => !self@.contains_key(entity.0),
            },
    {
        match self.indices.get(&entity.0) {
            Some(index) => Some(&self.components[*index]),
            None => None,
        }
    }

    /// Mutable access to the volume of `entity`, if it has one.
    pub fn get_mut(&mut self, entity: Entity) -> (component: Option<&mut V>)
        requires
            old(self).wf(),
        ensures
            final(self).wf(),
            final(self).entity_order() == old(self).entity_order(),
            match component {
                Some(c) => {
                    &&& old(self)@.contains_key(entity.0)
                    &&& *c == old(self)@[entity.0]
                    &&& final(self)@ == old(self)@.insert(entity.0, *final(c))
                },
                None => !old(self)@.contains_key(entity.0) && final(self)@ == old(self)@,
            },
    {
        match self.indices.get(&entity.0) {
            Some(index) => {
                let i = *index;
                let c = &mut self.components[i];
                Some(c)
            },
            None => None,
        }
    }

    pub fn components(&self) -> (components: &Vec<V>)
        ensures
            components@ == self.component_order(),
    {
        &self.components
    }

    pub fn entities(&self) -> (entities: &Vec<Entity>)
        ensures
            entities@ == self.entity_order(),
    {
        &self.entities
    }

    /// Removes the volume of `entity` and returns it, or returns `None` if it has none. The last
    /// volume takes the place of the removed one.
    pub fn destroy_immediate(&mut self, entity: Entity) -> (removed: Option<V>)
        requires
            old(self).wf(),
        ensures
            final(self).wf(),
            final(self)@ == old(self)@.remove(entity.0),
            match removed {
                Some(v) => {
                    &&& old(self)@.contains_key(entity.0)
                    &&& v == old(self)@[entity.0]
                    &&& exists|i: int|
                        0 <= i < old(self).entity_order().len() && #[trigger] old(self).entity_order()[i]
                            == entity && final(self).entity_order() == old(self).entity_order().update(
                            i,
                            old(self).entity_order().last(),
                        ).drop_last() && final(self).component_order() == old(
                            self,
                        ).component_order().update(i, old(self).component_order().last()).drop_last()
                },
                None => {
                    &&& !old(self)@.contains_key(entity.0)
                    &&& final(self).entity_order() == old(self).entity_order()
                    &&& final(self).component_order() == old(self).component_order()
                },
            },
    {
        match self.indices.remove(&entity.0) {
            Some(index) => {
                let ghost old_entities = self.entities@;
                let ghost old_components = self.components@;
                let ghost old_indices = old(self).indices@;
                let removed_entity = self.entities.swap_remove(index);
                if index != self.entities.len() {
                    let moved_entity = self.entities[index];
                    self.indices.insert(moved_entity.0, index);
                }
                let removed = self.components.swap_remove(index);
                proof {
                    let last = old_entities.len() - 1;
                    assert forall|id: u32| #[trigger]
                        self.indices@.contains_key(id) implies self.indices@[id]
                        < self.entities@.len() && self.entities@[self.indices@[id] as int].0
                        == id by {
                        if index != last && id == old_entities[last].0 {
                        } else {
                            assert(old_indices.contains_key(id));
                            if old_indices[id] == last {
                                assert(old_entities[last].0 == id);
                            }
                        }
                    }
                    assert forall|i: int| 0 <= i < self.entities@.len() implies self.indices@.contains_key(
                        #[trigger] self.entities@[i].0,
                    ) && self.indices@[self.entities@[i].0] == i by {
                        if i == index {
                        } else {
                            assert(self.entities@[i] == old_entities[i]);
                            assert(old_indices[old_entities[i].0] == i);
                            if old_entities[i].0 == old_entities[last].0 {
                                assert(old_indices[old_entities[last].0] == last);
                            }
                        }
                    }
                    assert(self@ =~= old(self)@.remove(entity.0)) by {
                        assert forall|id: u32| self.indices@.contains_key(id) implies #[trigger]
                            self.components@[self.indices@[id] as int] == old_components[old_indices[id] as int] by {
                            if index != last && id == old_entities[last].0 {
                            } else {
                                if old_indices[id] == last {
                                    assert(old_entities[last].0 == id);
                                }
                            }
                        }
                    }
                }
                proof {
                    let i = index as int;
                    assert(old_entities[i].0 == entity.0);
                    assert(old_entities[i] == entity);
                    assert(self.entities@ == old_entities.update(i, old_entities.last()).drop_last());
                    assert(self.components@ == old_components.update(i, old_components.last()).drop_last());
                    assert(old(self).entity_order()[i] == entity);
                }
                Some(removed)
            },
            None => None,
        }
    }
}

} // verus!
