//! Entities and the bookkeeping of which entities are alive.

use std::collections::HashSet;
use std::collections::VecDeque;
use vstd::prelude::*;

verus! {

/// A handle identifying a game object. Entities carry no data themselves; components are
/// associated with them by the component managers.
#[derive(Clone, Copy, PartialEq, Eq, Hash, Debug, Structural)]
pub struct Entity(pub u32);

/// Once more than this many destroyed entities wait for reuse, new entities are taken from the
/// front of the recycle queue rather than given a fresh id.
pub const MIN_RECYCLED_ENTITIES: usize = 1000;

impl Entity {
    /// Creates a new entity through the entity manager of the scene.
    pub fn new(manager: &mut EntityManager) -> (entity: Entity)
        requires
            old(manager).wf(),
            old(manager).can_create(),
        ensures
            final(manager).wf(),
            final(manager).created(*old(manager), entity),
    {
        manager.create()
    }
}

/// Tracks which entities are alive, hands out fresh ids and recycles destroyed entities.
#[derive(Debug)]
pub struct EntityManager {
    entities: HashSet<u32>,
    recycled_entities: VecDeque<Entity>,
    marked_for_destroy: Vec<Entity>,
    id_counter: u32,
}

impl EntityManager {
    /// The ids of the live entities.
    pub closed spec fn live(&self) -> Set<u32> {
        self.entities@
    }

    /// Destroyed entities waiting to be handed out again, oldest first.
    pub closed spec fn recycled(&self) -> Seq<Entity> {
        self.recycled_entities@
    }

    /// The id that the next freshly created entity receives.
    pub closed spec fn next_id(&self) -> u32 {
        self.id_counter
    }

    /// Every id in use lies in `1..next_id`; the recycle queue holds no live entity and no
    /// entity twice.
    pub closed spec fn wf(&self) -> bool {
        &&& self.id_counter >= 1
        &&& forall|id: u32| #[trigger]
            self.entities@.contains(id) ==> 1 <= id < self.id_counter
        &&& forall|i: int|
            0 <= i < self.recycled_entities@.len() ==> {
                let e = #[trigger] self.recycled_entities@[i];
                &&& 1 <= e.0 < self.id_counter
                &&& !self.entities@.contains(e.0)
            }
        &&& forall|i: int, j: int|
            0 <= i < j < self.recycled_entities@.len() ==> #[trigger] self.recycled_entities@[i]
                != #[trigger] self.recycled_entities@[j]
    }

    /// `create` takes the next entity from the recycle queue once it holds more than
    /// `MIN_RECYCLED_ENTITIES` entities; otherwise it needs an unused id.
    pub open spec fn can_create(&self) -> bool {
        self.recycled().len() > MIN_RECYCLED_ENTITIES || self.next_id() < u32::MAX
    }

    /// `self` is the state after `create` returned `entity` from state `old`.
    pub open spec fn created(&self, old: EntityManager, entity: Entity) -> bool {
        &&& !old.live().contains(entity.0)
        &&& if old.recycled().len() > MIN_RECYCLED_ENTITIES {
            &&& entity == old.recycled()[0]
            &&& self.recycled() == old.recycled().drop_first()
            &&& self.live() == old.live()
            &&& self.next_id() == old.next_id()
        } else {
            &&& entity == Entity(old.next_id())
            &&& self.live() == old.live().insert(old.next_id())
            &&& self.next_id() == old.next_id() + 1
            &&& self.recycled() == old.recycled()
        }
    }

    pub fn new() -> (manager: EntityManager)
        ensures
            manager.wf(),
            manager.live() == Set::<u32>::empty(),
            manager.recycled() == Seq::<Entity>::empty(),
            manager.next_id() == 1,
    {
        EntityManager {
            entities: HashSet::new(),
            recycled_entities: VecDeque::new(),
            marked_for_destroy: Vec::new(),
            id_counter: 1,
        }
    }

    /// Creates an entity. The returned entity is never one that is alive.
    pub fn create(&mut self) -> (entity: Entity)
        requires
            old(self).wf(),
            old(self).can_create(),
        ensures
            final(self).wf(),
            final(self).created(*old(self), entity),
    {
        if self.recycled_entities.len() > MIN_RECYCLED_ENTITIES {
            let entity = self.recycled_entities.pop_front().unwrap();
            assert forall|i: int, j: int|
                0 <= i < j < self.recycled_entities@.len() implies #[trigger] self.recycled_entities@[i]
                != #[trigger] self.recycled_entities@[j] by {
                assert(self.recycled_entities@[i] == old(self).recycled_entities@[i + 1]);
                assert(self.recycled_entities@[j] == old(self).recycled_entities@[j + 1]);
            }
            assert forall|i: int| 0 <= i < self.recycled_entities@.len() implies {
                let e = #[trigger] self.recycled_entities@[i];
                &&& 1 <= e.0 < self.id_counter
                &&& !self.entities@.contains(e.0)
            } by {
                assert(self.recycled_entities@[i] == old(self).recycled_entities@[i + 1]);
            }
            entity
        } else {
            let entity = Entity(self.id_counter);
            self.id_counter = self.id_counter + 1;
            self.entities.insert(entity.0);
            entity
        }
    }

    /// Destroys a live entity and queues it for reuse.
    pub fn destroy(&mut self, entity: Entity)
        requires
            old(self).wf(),
            old(self).live().contains(entity.0),
        ensures
            final(self).wf(),
            final(self).live() == old(self).live().remove(entity.0),
            final(self).recycled() == old(self).recycled().push(entity),
            final(self).next_id() == old(self).next_id(),
    {
        let removed = self.entities.remove(&entity.0);
        self.recycled_entities.push_back(entity);
        assert forall|i: int, j: int|
            0 <= i < j < self.recycled_entities@.len() implies #[trigger] self.recycled_entities@[i]
            != #[trigger] self.recycled_entities@[j] by {
            if j == self.recycled_entities@.len() - 1 {
                assert(!old(self).entities@.contains(old(self).recycled_entities@[i].0));
            }
        }
    }

    pub fn is_alive(&self, entity: Entity) -> (alive: bool)
        ensures
            alive == self.live().contains(entity.0),
    {
        self.entities.contains(&entity.0)
    }
}

/// Behaviour common to all component managers, run once per frame.
pub trait ComponentManagerBase: Sized {
    /// `after` is what the per-frame update makes of this manager. A manager that does not say
    /// what its update does promises nothing about it.
    open spec fn updated(&self, after: &Self) -> bool {
        true
    }

    /// The per-frame update. A manager with no per-frame work does nothing, with `updated`
    /// holding of a manager and itself.
    fn update(&mut self)
        ensures
            old(self).updated(&*final(self)),
    ;
}

/// A message for a component of type `T`, applied to it when the component manager processes
/// its pending messages.
pub trait Message<T>: Sized {
    /// `after` is what applying this message makes of `before`. A message that does not say what
    /// it does promises nothing about it.
    open spec fn applied(&self, before: &T, after: &T) -> bool {
        true
    }

    fn apply(self, component: &mut T)
        ensures
            self.applied(&*old(component), &*final(component)),
    ;
}

/// A component goes from `before` to `after` when `messages` are applied to it in turn: through
/// the states `states`, each message taking it from one state to the next.
pub open spec fn applied_through<T, M: Message<T>>(states: Seq<T>, before: T, after: T, messages: Seq<M>) -> bool {
    &&& states.len() == messages.len() + 1
    &&& states[0] == before
    &&& states.last() == after
    &&& forall|i: int| 0 <= i < messages.len() ==> #[trigger] messages[i].applied(&states[i], &states[i + 1])
}

/// Applying `messages` in turn takes a component from `before` to `after`; with no messages it
/// stays as it is.
pub open spec fn applied_in_turn<T, M: Message<T>>(before: T, after: T, messages: Seq<M>) -> bool {
    exists|states: Seq<T>| #[trigger] applied_through(states, before, after, messages)
}

/// Behaviour associated with a specific component, run once per frame.
pub trait ComponentUpdate {
    fn update(&mut self);
}

/// Identifies a component manager type.
#[derive(Debug, Clone, Copy, PartialEq, Eq, Hash, Structural)]
pub struct ManagerId(pub u64);

/// Identifies a system type.
#[derive(Debug, Clone, Copy, PartialEq, Eq, Hash, Structural)]
pub struct SystemId(pub u64);

} // verus!
