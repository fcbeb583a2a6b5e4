use gunship::callback::CallbackId;
use gunship::callback::CallbackManager;
use gunship::component::audio::AudioSource;
use gunship::component::audio::AudioSourceManager;
use gunship::component::collider::bounding_volume::BoundingVolumeManager;
use gunship::component::collider::CollisionCallback;
use gunship::component::collider::ColliderManager;
use gunship::component::collider::CollisionCallbackManager;
use gunship::component::struct_component_manager::StructComponentManager;
use gunship::ecs::Entity;
use gunship::ecs::Message;
use gunship::wav::DataChunk;
use gunship::wav::FormatChunk;
use gunship::wav::Wave;
use std::cell::RefCell;
use std::rc::Rc;

fn clip(samples: Vec<u16>) -> Rc<Wave> {
    Rc::new(Wave { format: FormatChunk::new(), data: DataChunk { samples } })
}

#[test]
fn struct_component_manager_assign_get_and_iterate() {
    let mut manager: StructComponentManager<&str, ()> = StructComponentManager::new();
    manager.assign(Entity(3), "three");
    manager.assign(Entity(1), "one");
    assert_eq!(manager.len(), 2);
    assert_eq!(manager.get(Entity(3)), Some(&"three"));
    assert_eq!(manager.get(Entity(2)), None);
    *manager.get_mut(Entity(1)).unwrap() = "uno";
    assert_eq!(manager.get(Entity(1)), Some(&"uno"));
    let mut iter = manager.iter();
    assert_eq!(iter.next(), Some((&"three", Entity(3))));
    assert_eq!(iter.next(), Some((&"uno", Entity(1))));
    assert_eq!(iter.next(), None);
}

#[test]
fn struct_component_manager_destroy_only_marks() {
    let mut manager: StructComponentManager<u32, ()> = StructComponentManager::new();
    manager.assign(Entity(5), 50u32);
    manager.destroy(Entity(5));
    // Destruction is deferred: the component stays until the marks are processed.
    assert_eq!(manager.get(Entity(5)), Some(&50));
    assert_eq!(manager.len(), 1);
}

#[test]
fn audio_source_play_pause_stop_reset() {
    let mut source = AudioSource::new(clip(vec![1, 2, 3, 4]));
    assert!(!source.is_playing());
    assert_eq!(source.remaining_samples(), &[1, 2, 3, 4]);
    source.play();
    assert!(source.is_playing());
    source.advance(3);
    assert_eq!(source.remaining_samples(), &[4]);
    source.pause();
    assert!(!source.is_playing());
    assert_eq!(source.remaining_samples(), &[4]);
    source.play();
    source.reset();
    assert!(source.is_playing());
    assert_eq!(source.remaining_samples(), &[1, 2, 3, 4]);
    source.advance(2);
    source.stop();
    assert!(!source.is_playing());
    assert_eq!(source.remaining_samples(), &[1, 2, 3, 4]);
}

#[test]
fn audio_source_stops_at_the_end_of_the_clip() {
    let mut source = AudioSource::new(clip(vec![7, 8]));
    source.play();
    source.advance(1);
    assert!(source.is_playing());
    source.advance(1);
    assert!(!source.is_playing());
    assert_eq!(source.remaining_samples(), &[7, 8]);
}

#[test]
fn audio_source_manager_assigns_stopped_sources() {
    let mut manager = AudioSourceManager::new();
    manager.assign(Entity(2), clip(vec![1, 1]));
    assert!(manager.get(Entity(1)).is_none());
    let source = manager.get(Entity(2)).unwrap();
    assert!(!source.is_playing());
    manager.get_mut(Entity(2)).unwrap().play();
    assert!(manager.get(Entity(2)).unwrap().is_playing());
    let mut iter = manager.iter();
    assert_eq!(iter.next().map(|(_, entity)| entity), Some(Entity(2)));
    assert!(iter.next().is_none());
    manager.destroy(Entity(2));
    assert!(manager.get(Entity(2)).is_some());
}

#[test]
fn bounding_volume_manager_destroy_swaps_in_the_last() {
    let mut manager = BoundingVolumeManager::new();
    manager.assign(Entity(1), 'a');
    manager.assign(Entity(2), 'b');
    manager.assign(Entity(3), 'c');
    assert_eq!(manager.get(Entity(2)), Some(&'b'));
    assert_eq!(manager.destroy_immediate(Entity(1)), Some('a'));
    assert_eq!(manager.components(), &vec!['c', 'b']);
    assert_eq!(manager.entities(), &vec![Entity(3), Entity(2)]);
    assert_eq!(manager.get(Entity(3)), Some(&'c'));
    assert_eq!(manager.get(Entity(1)), None);
    assert_eq!(manager.destroy_immediate(Entity(1)), None);
    *manager.get_mut(Entity(2)).unwrap() = 'B';
    assert_eq!(manager.get(Entity(2)), Some(&'B'));
}

#[test]
fn callback_manager_registers_and_replaces() {
    let mut callbacks = CallbackManager::new();
    assert!(callbacks.get(&CallbackId(1)).is_none());
    callbacks.register(CallbackId(1), 10u32);
    assert_eq!(callbacks.get(&CallbackId(1)), Some(&10));
    callbacks.register(CallbackId(1), 11);
    assert_eq!(callbacks.get(&CallbackId(1)), Some(&11));
    *callbacks.get_mut(&CallbackId(1)).unwrap() += 1;
    assert_eq!(callbacks.get(&CallbackId(1)), Some(&12));
    assert!(callbacks.get_mut(&CallbackId(2)).is_none());
}

type Log = Rc<RefCell<Vec<(&'static str, Entity, Vec<Entity>)>>>;

struct Recorder {
    name: &'static str,
    log: Log,
}

impl CollisionCallback<()> for Recorder {
    fn invoke(&mut self, _scene: &(), first: Entity, others: &[Entity]) {
        self.log.borrow_mut().push((self.name, first, others.to_vec()));
    }
}

/// The calls logged since the last look, in a fixed order.
fn take_calls(log: &Log) -> Vec<(&'static str, Entity, Vec<Entity>)> {
    let mut calls = std::mem::take(&mut *log.borrow_mut());
    calls.sort_by_key(|call| (call.1 .0, call.0));
    calls
}

#[test]
fn collision_callbacks_receive_each_entitys_partners() {
    let log: Log = Rc::new(RefCell::new(Vec::new()));
    let mut manager = CollisionCallbackManager::new();
    manager.register(CallbackId(1), Recorder { name: "first", log: log.clone() });
    // The callback under id 1 is registered already, so the one handed over here is dropped.
    manager.assign(Entity(1), CallbackId(1), Recorder { name: "unused", log: log.clone() });
    // Nothing is registered under id 2 yet, so assigning registers this callback.
    manager.assign(Entity(3), CallbackId(2), Recorder { name: "second", log: log.clone() });
    manager.assign(Entity(3), CallbackId(1), Recorder { name: "unused", log: log.clone() });
    let collisions = [(Entity(1), Entity(2)), (Entity(3), Entity(1))];
    manager.process_collisions(&(), &collisions);
    assert_eq!(
        take_calls(&log),
        vec![
            ("first", Entity(1), vec![Entity(2), Entity(3)]),
            ("first", Entity(3), vec![Entity(1)]),
            ("second", Entity(3), vec![Entity(1)]),
        ],
    );

    // The gathered collisions are cleared, so the next frame starts empty.
    manager.process_collisions(&(), &[]);
    assert!(take_calls(&log).is_empty());

    manager.unregister_all(Entity(3));
    manager.process_collisions(&(), &[(Entity(3), Entity(4))]);
    assert!(take_calls(&log).is_empty());
}

#[test]
fn dispatch_lists_each_colliding_entity_with_callbacks_once() {
    let mut manager: CollisionCallbackManager<u8> = CollisionCallbackManager::new();
    manager.register(CallbackId(5), 0);
    manager.assign(Entity(2), CallbackId(5), 1);
    manager.assign(Entity(2), CallbackId(6), 2);
    manager.assign(Entity(9), CallbackId(6), 3);
    let collisions = [(Entity(1), Entity(2)), (Entity(2), Entity(3)), (Entity(2), Entity(1))];
    let mut dispatches = manager.dispatch_collisions(&collisions);
    dispatches.sort_by_key(|d| d.entity.0);
    assert_eq!(dispatches.len(), 1);
    assert_eq!(dispatches[0].entity, Entity(2));
    assert_eq!(dispatches[0].others, vec![Entity(1), Entity(3), Entity(1)]);
    assert_eq!(dispatches[0].callbacks, vec![CallbackId(5), CallbackId(6)]);
    // Entity 9 has a callback but did not collide; the lists are empty afterwards.
    assert!(manager.dispatch_collisions(&[]).is_empty());
}

#[test]
fn collider_manager_keeps_colliders_volumes_and_callbacks() {
    let mut manager: ColliderManager<&str, u8, char> = ColliderManager::new();
    manager.assign(Entity(4), "sphere");
    assert_eq!(manager.get(Entity(4)), Some(&"sphere"));
    assert_eq!(manager.get(Entity(5)), None);
    manager.register_callback(CallbackId(1), 7);
    manager.assign_callback(Entity(4), CallbackId(1), 8);
    manager.assign_callback(Entity(4), CallbackId(2), 9);
    manager.bvh_manager_mut().assign(Entity(4), 'v');
    assert_eq!(manager.bvh_manager().get(Entity(4)), Some(&'v'));
    manager.assign(Entity(2), "box");
    let mut iter = manager.iter();
    assert_eq!(iter.next(), Some((&"sphere", Entity(4))));
    assert_eq!(iter.next(), Some((&"box", Entity(2))));
    assert_eq!(iter.next(), None);
    manager.destroy(Entity(4));
    // Destruction is deferred.
    assert_eq!(manager.get(Entity(4)), Some(&"sphere"));
}

#[test]
fn collider_manager_destroys_marked_volumes_and_callbacks() {
    let mut manager: ColliderManager<&str, u8, char> = ColliderManager::new();
    manager.assign(Entity(4), "sphere");
    manager.assign(Entity(6), "box");
    manager.assign_callback(Entity(4), CallbackId(1), 7);
    manager.assign_callback(Entity(6), CallbackId(1), 7);
    manager.bvh_manager_mut().assign(Entity(4), 'v');
    manager.bvh_manager_mut().assign(Entity(6), 'w');
    manager.destroy(Entity(4));
    manager.destroy_marked();
    assert_eq!(manager.bvh_manager().get(Entity(4)), None);
    assert_eq!(manager.bvh_manager().get(Entity(6)), Some(&'w'));
    assert_eq!(manager.bvh_manager().entities(), &vec![Entity(6)]);
    // Entity 4 has no callbacks left; entity 6 keeps its own.
    let dispatches = manager.callback_manager_mut().dispatch_collisions(&[(Entity(4), Entity(6))]);
    assert_eq!(dispatches.len(), 1);
    assert_eq!(dispatches[0].entity, Entity(6));
    assert_eq!(dispatches[0].others, vec![Entity(4)]);
    // The marks are cleared, so a second pass removes nothing more.
    manager.destroy_marked();
    assert_eq!(manager.bvh_manager().get(Entity(6)), Some(&'w'));
}

/// A message that scales a component, then adds to it.
struct ScaleAdd(u32, u32);

impl Message<u32> for ScaleAdd {
    fn apply(self, component: &mut u32) {
        *component = *component * self.0 + self.1;
    }
}

#[test]
fn struct_component_manager_applies_messages_in_order_sent() {
    let mut manager: StructComponentManager<u32, ScaleAdd> = StructComponentManager::new();
    manager.assign(Entity(1), 1);
    manager.assign(Entity(2), 10);
    manager.assign(Entity(3), 7);
    manager.send_message(Entity(1), ScaleAdd(2, 0));
    manager.send_message(Entity(2), ScaleAdd(1, 5));
    manager.send_message(Entity(1), ScaleAdd(1, 3));
    assert!(manager.message_targets_exist());
    manager.process_messages();
    // 1 * 2 + 0, then * 1 + 3; applied the other way round it would be 8.
    assert_eq!(manager.get(Entity(1)), Some(&5));
    assert_eq!(manager.get(Entity(2)), Some(&15));
    assert_eq!(manager.get(Entity(3)), Some(&7));
    // The queues are empty afterwards.
    manager.process_messages();
    assert_eq!(manager.get(Entity(1)), Some(&5));
}

#[test]
fn struct_component_manager_reports_messages_without_target() {
    let mut manager: StructComponentManager<u32, ScaleAdd> = StructComponentManager::new();
    manager.assign(Entity(1), 1);
    assert!(manager.message_targets_exist());
    manager.send_message(Entity(4), ScaleAdd(1, 1));
    assert!(!manager.message_targets_exist());
}

#[test]
fn struct_component_manager_visits_components_by_index() {
    let mut manager: StructComponentManager<u32, ()> = StructComponentManager::new();
    manager.assign(Entity(8), 1);
    manager.assign(Entity(9), 2);
    for index in 0..manager.len() {
        *manager.get_mut_at(index) += 10;
    }
    assert_eq!(manager.get(Entity(8)), Some(&11));
    assert_eq!(manager.get(Entity(9)), Some(&12));
}

#[test]
fn audio_sources_advance_only_while_playing() {
    let mut manager = AudioSourceManager::new();
    manager.assign(Entity(1), clip(vec![1, 2, 3, 4]));
    manager.assign(Entity(2), clip(vec![5, 6]));
    manager.assign(Entity(3), clip(vec![7, 8, 9]));
    manager.get_mut_at(0).play();
    manager.get_mut_at(1).play();
    // Source 1 streams two samples, source 2 finishes its clip, source 3 is stopped.
    manager.advance_playing(&[2, 2, 0]);
    assert_eq!(manager.get(Entity(1)).unwrap().remaining_samples(), &[3, 4]);
    assert!(manager.get(Entity(1)).unwrap().is_playing());
    assert_eq!(manager.get(Entity(2)).unwrap().remaining_samples(), &[5, 6]);
    assert!(!manager.get(Entity(2)).unwrap().is_playing());
    assert_eq!(manager.get(Entity(3)).unwrap().remaining_samples(), &[7, 8, 9]);
}

#[test]
fn bounding_volumes_update_or_assign() {
    let mut manager = BoundingVolumeManager::new();
    manager.update_or_assign(Entity(2), 'a');
    manager.update_or_assign(Entity(5), 'b');
    manager.update_or_assign(Entity(2), 'c');
    assert_eq!(manager.get(Entity(2)), Some(&'c'));
    assert_eq!(manager.get(Entity(5)), Some(&'b'));
    assert_eq!(manager.entities(), &vec![Entity(2), Entity(5)]);
    assert_eq!(manager.components(), &vec!['c', 'b']);
}
