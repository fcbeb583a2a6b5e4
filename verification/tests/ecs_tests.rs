use gunship::ecs::Entity;
use gunship::ecs::EntityManager;
use gunship::ecs::ManagerId;
use gunship::ecs::MIN_RECYCLED_ENTITIES;
use gunship::scene::ManagerMap;
use gunship::scene::Scene;

#[test]
fn entity_manager_hands_out_fresh_ids_from_one() {
    let mut manager = EntityManager::new();
    let first = manager.create();
    let second = Entity::new(&mut manager);
    assert_eq!(first, Entity(1));
    assert_eq!(second, Entity(2));
    assert!(manager.is_alive(first));
    assert!(manager.is_alive(second));
    assert!(!manager.is_alive(Entity(3)));
}

#[test]
fn destroyed_entity_is_no_longer_alive() {
    let mut manager = EntityManager::new();
    let entity = manager.create();
    manager.destroy(entity);
    assert!(!manager.is_alive(entity));
    // Too few entities wait for reuse, so the next one gets a fresh id.
    assert_eq!(manager.create(), Entity(2));
}

#[test]
fn entities_are_recycled_once_enough_are_destroyed() {
    let mut manager = EntityManager::new();
    let mut created = Vec::new();
    for _ in 0..MIN_RECYCLED_ENTITIES + 2 {
        created.push(manager.create());
    }
    for entity in &created[..MIN_RECYCLED_ENTITIES + 1] {
        manager.destroy(*entity);
    }
    // More than the minimum wait for reuse: the oldest destroyed entity comes back first.
    let recycled = manager.create();
    assert_eq!(recycled, created[0]);
    let next = manager.create();
    // Back at the minimum, so ids are fresh again.
    assert_eq!(next, Entity(MIN_RECYCLED_ENTITIES as u32 + 3));
}

#[test]
fn manager_map_registers_ids() {
    let mut managers: ManagerMap<&str> = ManagerMap::new();
    assert!(!managers.contains(ManagerId(7)));
    managers.register(ManagerId(7), "transforms");
    assert!(managers.contains(ManagerId(7)));
    assert!(!managers.contains(ManagerId(8)));
}

#[test]
fn scene_creates_and_destroys_entities() {
    let mut managers: ManagerMap<u8> = ManagerMap::new();
    managers.register(ManagerId(1), 0);
    let mut scene = Scene::new(managers);
    assert!(scene.has_manager(ManagerId(1)));
    assert!(!scene.has_manager(ManagerId(2)));
    let entity = scene.create_entity();
    assert_eq!(entity, Entity(1));
    assert!(scene.is_alive(entity));
    scene.destroy_entity(entity);
    assert!(!scene.is_alive(entity));
    // Destroying a dead entity does nothing.
    scene.destroy_entity(entity);
    assert!(!scene.is_alive(entity));
    assert_eq!(scene.create_entity(), Entity(2));
}

struct Counting(std::rc::Rc<std::cell::Cell<u32>>);

impl gunship::ecs::ComponentManagerBase for Counting {
    fn update(&mut self) {
        self.0.set(self.0.get() + 1);
    }
}

#[test]
fn scene_updates_every_manager_once() {
    let count = std::rc::Rc::new(std::cell::Cell::new(0));
    let mut managers = ManagerMap::new();
    managers.register(ManagerId(1), Counting(count.clone()));
    managers.register(ManagerId(2), Counting(count.clone()));
    let mut scene = Scene::new(managers);
    scene.update_managers();
    assert_eq!(count.get(), 2);
    assert!(scene.has_manager(ManagerId(1)));
}

#[test]
fn managers_are_found_by_id() {
    let mut managers: ManagerMap<Vec<u8>> = ManagerMap::new();
    managers.register(ManagerId(3), vec![1]);
    assert_eq!(managers.get(ManagerId(3)), Some(&vec![1]));
    assert_eq!(managers.get(ManagerId(4)), None);
    managers.get_mut(ManagerId(3)).unwrap().push(2);
    assert!(managers.get_mut(ManagerId(4)).is_none());
    let scene = Scene::new(managers);
    assert_eq!(scene.get_manager(ManagerId(3)), &vec![1, 2]);
}
