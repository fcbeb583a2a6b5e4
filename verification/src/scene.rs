//! The scene: the live entities, the registered component managers and the input state.

use crate::callback::{hash_map_get_mut, key_list};
use crate::ecs::{ComponentManagerBase, Entity, EntityManager, ManagerId};
use crate::input::Input;
use std::collections::HashMap;
use vstd::prelude::*;

verus! {

/// The registered component managers, keyed by the id of their type. The engine stores each
/// manager as a boxed `ComponentManagerBase` trait object.
pub struct ManagerMap<M>(HashMap<u64, M>);

impl<M> ManagerMap<M> {
    /// The registered managers, keyed by the id of their type.
    pub closed spec fn managers(&self) -> Map<u64, M> {
        self.0@
    }

    /// The ids of the registered managers.
    pub open spec fn ids(&self) -> Set<u64> {
        self.managers().dom()
    }

    pub fn new() -> (map: ManagerMap<M>)
        ensures
            map.ids() == Set::<u64>::empty(),
    {
        ManagerMap(HashMap::new())
    }

    pub fn contains(&self, id: ManagerId) -> (found: bool)
        ensures
            found == self.ids().contains(id.0),
    {
        self.0.contains_key(&id.0)
    }

    /// Runs the per-frame update of every registered manager, once each.
    pub fn update_all(&mut self)
        where M: ComponentManagerBase,
        ensures
            final(self).ids() == old(self).ids(),
            forall|id: u64| #[trigger]
                old(self).managers().contains_key(id) ==> old(self).managers()[id].updated(
                    &final(self).managers()[id],
                ),
    {
        let ids = key_list(&self.0);
        let mut i: usize = 0;
        while i < ids.len()
            invariant
                i <= ids@.len(),
                ids@.to_set() == old(self).ids(),
                ids@.no_duplicates(),
                self.ids() == old(self).ids(),
                forall|k: int|
                    0 <= k < i ==> old(self).managers()[#[trigger] ids@[k]].updated(
                        &self.managers()[ids@[k]],
                    ),
                forall|k: int|
                    i <= k < ids@.len() ==> self.managers()[#[trigger] ids@[k]] == old(
                        self,
                    ).managers()[ids@[k]],
            decreases ids@.len() - i,
        {
            let ghost before = self.managers();
            assert(ids@.to_set().contains(ids@[i as int]));
            match hash_map_get_mut(&mut self.0, &ids[i]) {
                Some(manager) => {
                    manager.update();
                },
                None => {},
            }
            proof {
                assert(self.0@.dom() =~= old(self).ids());
                assert forall|k: int| 0 <= k < i + 1 implies old(self).managers()[#[trigger] ids@[k]].updated(
                    &self.managers()[ids@[k]],
                ) by {
                    if k < i {
                        assert(ids@[k] != ids@[i as int]);
                    }
                }
                assert forall|k: int| i + 1 <= k < ids@.len() implies self.managers()[#[trigger] ids@[k]] == old(
                    self,
                ).managers()[ids@[k]] by {
                    assert(ids@[k] != ids@[i as int]);
                }
            }
            i = i + 1;
        }
        proof {
            assert forall|id: u64| #[trigger] old(self).managers().contains_key(id) implies old(
                self,
            ).managers()[id].updated(&self.managers()[id]) by {
                assert(ids@.to_set().contains(id));
                let k = choose|k: int| 0 <= k < ids@.len() && ids@[k] == id;
            }
        }
    }

    /// Registers `manager` under `id`. No manager may already be registered under `id`.
    pub fn register(&mut self, id: ManagerId, manager: M)
        requires
            !old(self).ids().contains(id.0),
        ensures
            final(self).managers() == old(self).managers().insert(id.0, manager),
    {
        self.0.insert(id.0, manager);
    }

    /// The manager registered under `id`, if any.
    pub fn get(&self, id: ManagerId) -> (manager: Option<&M>)
        ensures
            match manager {
                Some(m) => self.managers().contains_key(id.0) && *m == self.managers()[id.0],
                None => !self.managers().contains_key(id.0),
            },
    {
        self.0.get(&id.0)
    }

    /// Mutable access to the manager registered under `id`, if any.
    pub fn get_mut(&mut self, id: ManagerId) -> (manager: Option<&mut M>)
        ensures
            match manager {
                Some(m) => {
                    &&& old(self).managers().contains_key(id.0)
                    &&& *m == old(self).managers()[id.0]
                    &&& final(self).managers() == old(self).managers().insert(id.0, *final(m))
                },
                None => !old(self).managers().contains_key(id.0) && final(self).managers() == old(
                    self,
                ).managers(),
            },
    {
        hash_map_get_mut(&mut self.0, &id.0)
    }
}

/// Contains all the data that defines the current state of the world.
pub struct Scene<M> {
    pub entity_manager: EntityManager,
    pub managers: ManagerMap<M>,
    pub input: Input,
}

impl<M> Scene<M> {
    pub open spec fn wf(&self) -> bool {
        self.entity_manager.wf()
    }

    /// The entity bookkeeping of the scene.
    pub open spec fn entities(&self) -> EntityManager {
        self.entity_manager
    }

    /// The ids of the registered component managers.
    pub open spec fn manager_ids(&self) -> Set<u64> {
        self.managers.ids()
    }

    pub fn new(managers: ManagerMap<M>) -> (scene: Scene<M>)
        ensures
            scene.wf(),
            scene.entities().live() == Set::<u32>::empty(),
            scene.entities().recycled() == Seq::<Entity>::empty(),
            scene.entities().next_id() == 1,
            scene.manager_ids() == managers.ids(),
            scene.input@ == Input::new_view(),
    {
        Scene { entity_manager: EntityManager::new(), managers: managers, input: Input::new() }
    }

    /// The manager registered under `id`, which must exist.
    pub fn get_manager(&self, id: ManagerId) -> (manager: &M)
        requires
            self.manager_ids().contains(id.0),
        ensures
            *manager == self.managers.managers()[id.0],
    {
        self.managers.get(id).unwrap()
    }

    pub fn has_manager(&self, id: ManagerId) -> (found: bool)
        ensures
            found == self.manager_ids().contains(id.0),
    {
        self.managers.contains(id)
    }

    pub fn is_alive(&self, entity: Entity) -> (alive: bool)
        ensures
            alive == self.entities().live().contains(entity.0),
    {
        self.entity_manager.is_alive(entity)
    }

    pub fn create_entity(&mut self) -> (entity: Entity)
        requires
            old(self).wf(),
            old(self).entities().can_create(),
        ensures
            final(self).wf(),
            final(self).entities().created(old(self).entities(), entity),
            final(self).manager_ids() == old(self).manager_ids(),
            final(self).input == old(self).input,
    {
        self.entity_manager.create()
    }

    /// Runs the per-frame update of every component manager.
    pub fn update_managers(&mut self)
        where M: ComponentManagerBase,
        requires
            old(self).wf(),
        ensures
            final(self).wf(),
            final(self).entities() == old(self).entities(),
            final(self).manager_ids() == old(self).manager_ids(),
            final(self).input == old(self).input,
            forall|id: u64| #[trigger]
                old(self).managers.managers().contains_key(id) ==> old(self).managers.managers()[id].updated(
                    &final(self).managers.managers()[id],
                ),
    {
        self.managers.update_all();
    }

    /// Destroys `entity` if it is alive; does nothing otherwise.
    pub fn destroy_entity(&mut self, entity: Entity)
        requires
            old(self).wf(),
        ensures
            final(self).wf(),
            final(self).manager_ids() == old(self).manager_ids(),
            final(self).input == old(self).input,
            old(self).entities().live().contains(entity.0) ==> {
                &&& final(self).entities().live() == old(self).entities().live().remove(entity.0)
                &&& final(self).entities().recycled() == old(self).entities().recycled().push(
                    entity,
                )
                &&& final(self).entities().next_id() == old(self).entities().next_id()
            },
            !old(self).entities().live().contains(entity.0) ==> final(self).entities() == old(
                self,
            ).entities(),
    {
        if self.is_alive(entity) {
            self.entity_manager.destroy(entity);
        }
    }
}

} // verus!
