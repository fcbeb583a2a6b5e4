//! The engine's per-frame decisions.
//!
//! Each frame the engine drains the window's messages into the input state, then runs gameplay
//! (alarms, systems, component managers, collision and audio) unless the debug pause is on, in
//! which case a press of the step key runs a single frame. The window, the renderer and the
//! frame timing are driven by the caller, which acts on what these functions decide.

use crate::ecs::ManagerId;
use crate::ecs::SystemId;
use crate::input::apply_input;
use crate::input::cleared;
use crate::input::message_supported;
use crate::input::Input;
use crate::input::InputMessage;
use crate::input::InputView;
use crate::input::ScanCode;
use crate::resource::MeshId;
use crate::scene::ManagerMap;
use std::collections::HashMap;
use vstd::prelude::*;

verus! {

/// A message delivered by the game window.
#[derive(Clone, Copy, Debug)]
pub enum WindowMessage {
    Activate,
    Close,
    Destroy,
    Paint,
    Input(InputMessage),
}

/// Every input message among `messages` names a tracked mouse button, if any.
pub open spec fn messages_supported(messages: Seq<WindowMessage>) -> bool {
    forall|i: int|
        0 <= i < messages.len() ==> (#[trigger] messages[i] matches WindowMessage::Input(m)
            ==> message_supported(m))
}

/// The input state after the input messages among `messages` have been applied, in order, to
/// `s`; other messages leave it as it is.
pub open spec fn apply_messages(s: InputView, messages: Seq<WindowMessage>) -> InputView
    decreases messages.len(),
{
    if messages.len() == 0 {
        s
    } else {
        let before = apply_messages(s, messages.drop_last());
        match messages.last() {
            WindowMessage::Input(m) => apply_input(before, m),
            _ => before,
        }
    }
}

/// Starts a frame: clears the per-frame input state, then applies the frame's window messages
/// in order. Returns whether the window asked to close.
pub fn gather_input(input: &mut Input, messages: &Vec<WindowMessage>) -> (close: bool)
    requires
        messages_supported(messages@),
    ensures
        close == exists|i: int| 0 <= i < messages@.len() && #[trigger] messages@[i] is Close,
        final(input)@ == apply_messages(cleared(old(input)@), messages@),
{
    input.clear();
    let mut close = false;
    let mut i: usize = 0;
    while i < messages.len()
        invariant
            i <= messages@.len(),
            messages_supported(messages@),
            close == exists|k: int| 0 <= k < i && #[trigger] messages@[k] is Close,
            input@ == apply_messages(cleared(old(input)@), messages@.take(i as int)),
        decreases messages@.len() - i,
    {
        let message = messages[i];
        assert(messages@.take(i + 1).drop_last() =~= messages@.take(i as int));
        match message {
            WindowMessage::Close => {
                close = true;
            },
            WindowMessage::Input(m) => {
                assert(messages@[i as int] matches WindowMessage::Input(m));
                input.push_input(m);
            },
            _ => {},
        }
        i = i + 1;
    }
    assert(messages@.take(messages@.len() as int) =~= messages@);
    close
}

/// What to do this frame, and the debug pause state for the next one.
#[derive(Clone, Copy, Debug, PartialEq, Eq, Structural)]
pub struct FrameControl {
    /// Whether gameplay updates run this frame.
    pub run_gameplay: bool,
    /// Whether the debug pause is on after this frame.
    pub debug_pause: bool,
}

/// The debug-pause rules of a frame, given the keys pressed this frame: gameplay runs unless the
/// pause is on, and a press of `step_key` runs it anyway; afterwards a press of `step_key` leaves
/// the pause on, and otherwise a press of `pause_key` toggles it.
pub open spec fn frame_control(debug_pause: bool, pressed: Set<u32>, pause_key: ScanCode, step_key: ScanCode) -> FrameControl {
    FrameControl {
        run_gameplay: !debug_pause || pressed.contains(step_key.0),
        debug_pause: if pressed.contains(step_key.0) {
            true
        } else if pressed.contains(pause_key.0) {
            !debug_pause
        } else {
            debug_pause
        },
    }
}

/// While the debug pause is on, gameplay stays frozen until the step key is pressed; a press of
/// the step key runs exactly one frame and leaves the pause on, and the pause key alone turns the
/// pause off without running the frame.
pub proof fn lemma_debug_step(pressed: Set<u32>, pause_key: ScanCode, step_key: ScanCode)
    ensures
        pressed.contains(step_key.0) ==> frame_control(true, pressed, pause_key, step_key) == (FrameControl { run_gameplay: true, debug_pause: true }),
        !pressed.contains(step_key.0) && !pressed.contains(pause_key.0) ==> frame_control(true, pressed, pause_key, step_key) == (FrameControl { run_gameplay: false, debug_pause: true }),
        !pressed.contains(step_key.0) && pressed.contains(pause_key.0) ==> frame_control(true, pressed, pause_key, step_key) == (FrameControl { run_gameplay: false, debug_pause: false }),
        !pressed.contains(step_key.0) ==> frame_control(false, pressed, pause_key, step_key).run_gameplay,
{
}

/// Applies the debug-pause rules to this frame's input.
pub fn update_frame_control(debug_pause: bool, input: &Input, pause_key: ScanCode, step_key: ScanCode) -> (control: FrameControl)
    ensures
        control == frame_control(debug_pause, input@.keys_pressed, pause_key, step_key),
{
    let step = input.key_pressed(step_key);
    let run_gameplay = !debug_pause || step;
    let mut pause = debug_pause;
    if input.key_pressed(pause_key) {
        pause = !pause;
    }
    if step {
        pause = true;
    }
    FrameControl { run_gameplay, debug_pause: pause }
}

/// The debug-pause rules of the fiber-based main loop: a press of `pause_key` first toggles the
/// pause; the per-frame behaviors then run if there are any and either the pause is off or
/// `step_key` was pressed. The step key does not change the pause.
pub fn behavior_frame_control(
    debug_pause: bool,
    input: &Input,
    pause_key: ScanCode,
    step_key: ScanCode,
    behavior_count: usize,
) -> (control: FrameControl)
    ensures
        control.debug_pause == (debug_pause != input@.keys_pressed.contains(pause_key.0)),
        control.run_gameplay == (behavior_count > 0 && (!control.debug_pause
            || input@.keys_pressed.contains(step_key.0))),
{
    let mut pause = debug_pause;
    if input.key_pressed(pause_key) {
        pause = !pause;
    }
    let step = input.key_pressed(step_key);
    FrameControl { run_gameplay: behavior_count > 0 && (!pause || step), debug_pause: pause }
}

/// The ids of the managers in `managers`.
pub open spec fn ids_of<M>(managers: Seq<(ManagerId, M)>) -> Set<u64> {
    Set::new(|id: u64| exists|k: int| 0 <= k < managers.len() && #[trigger] managers[k].0.0 == id)
}

/// Gathers the component managers and systems of the engine, and the number of workers it runs
/// on, before the engine is created. Managers are keyed by the id of their type, systems by the
/// id of theirs; each type can be registered once.
pub struct EngineBuilder<M, S> {
    systems: HashMap<u64, S>,
    debug_systems: HashMap<u64, S>,
    managers: ManagerMap<M>,
    max_workers: usize,
}

impl<M, S> EngineBuilder<M, S> {
    /// The number of workers the engine runs on, the calling thread included.
    pub closed spec fn workers(&self) -> usize {
        self.max_workers
    }

    /// The registered systems, keyed by the id of their type.
    pub closed spec fn systems(&self) -> Map<u64, S> {
        self.systems@
    }

    /// The registered debug systems, which run even while the engine is paused.
    pub closed spec fn debug_systems(&self) -> Map<u64, S> {
        self.debug_systems@
    }

    /// The ids of the registered component managers.
    pub closed spec fn manager_ids(&self) -> Set<u64> {
        self.managers.ids()
    }

    pub fn new() -> (builder: EngineBuilder<M, S>)
        ensures
            builder.workers() == 1,
            builder.systems() == Map::<u64, S>::empty(),
            builder.debug_systems() == Map::<u64, S>::empty(),
            builder.manager_ids() == Set::<u64>::empty(),
    {
        EngineBuilder {
            systems: HashMap::new(),
            debug_systems: HashMap::new(),
            managers: ManagerMap::new(),
            max_workers: 1,
        }
    }

    /// A builder with the engine's own component managers already registered: `internal`, each
    /// under its id. The ids must be distinct.
    pub fn with_managers(internal: Vec<(ManagerId, M)>) -> (builder: EngineBuilder<M, S>)
        requires
            forall|a: int, b: int| 0 <= a < b < internal@.len() ==> internal@[a].0 != internal@[b].0,
        ensures
            builder.workers() == 1,
            builder.systems() == Map::<u64, S>::empty(),
            builder.debug_systems() == Map::<u64, S>::empty(),
            builder.manager_ids() == ids_of(internal@),
    {
        let mut builder = EngineBuilder::new();
        let mut managers = internal;
        let ghost all = managers@;
        let ghost mut taken: Seq<(ManagerId, M)> = Seq::empty();
        assert(ids_of(taken) =~= Set::<u64>::empty());
        while managers.len() > 0
            invariant
                all == managers@ + taken.reverse(),
                forall|a: int, b: int| 0 <= a < b < all.len() ==> all[a].0 != all[b].0,
                builder.workers() == 1,
                builder.systems() == Map::<u64, S>::empty(),
                builder.debug_systems() == Map::<u64, S>::empty(),
                builder.manager_ids() == ids_of(taken),
            decreases managers@.len(),
        {
            let ghost rest = managers@;
            let (id, manager) = managers.pop().unwrap();
            proof {
                assert(rest == managers@.push((id, manager)));
                assert(all[managers@.len() as int] == (id, manager));
                if ids_of(taken).contains(id.0) {
                    let k = choose|k: int| 0 <= k < taken.len() && #[trigger] taken[k].0.0 == id.0;
                    assert(all[all.len() - 1 - k] == taken[k]);
                }
                let longer = taken.push((id, manager));
                assert(ids_of(longer) =~= ids_of(taken).insert(id.0)) by {
                    assert forall|i: u64| ids_of(longer).contains(i) implies ids_of(taken).insert(id.0).contains(i) by {
                        let k = choose|k: int| 0 <= k < longer.len() && #[trigger] longer[k].0.0 == i;
                        if k < taken.len() {
                            assert(taken[k] == longer[k]);
                        }
                    }
                    assert forall|i: u64| ids_of(taken).insert(id.0).contains(i) implies ids_of(longer).contains(i) by {
                        if i == id.0 {
                            assert(longer[taken.len() as int].0.0 == i);
                        } else {
                            let k = choose|k: int| 0 <= k < taken.len() && #[trigger] taken[k].0.0 == i;
                            assert(longer[k] == taken[k]);
                        }
                    }
                }
                assert(all =~= managers@ + longer.reverse());
                taken = longer;
            }
            builder.managers.register(id, manager);
        }
        proof {
            assert(all =~= taken.reverse());
            assert(ids_of(all) =~= ids_of(taken)) by {
                assert forall|i: u64| ids_of(all).contains(i) implies ids_of(taken).contains(i) by {
                    let k = choose|k: int| 0 <= k < all.len() && #[trigger] all[k].0.0 == i;
                    assert(taken[taken.len() - 1 - k] == all[k]);
                }
                assert forall|i: u64| ids_of(taken).contains(i) implies ids_of(all).contains(i) by {
                    let k = choose|k: int| 0 <= k < taken.len() && #[trigger] taken[k].0.0 == i;
                    assert(all[all.len() - 1 - k] == taken[k]);
                }
            }
        }
        builder
    }

    /// Sets the number of workers, which must be at least one.
    pub fn max_workers(&mut self, workers: usize) -> (builder: &mut EngineBuilder<M, S>)
        requires
            workers > 0,
        ensures
            builder.workers() == workers,
            builder.systems() == old(self).systems(),
            builder.debug_systems() == old(self).debug_systems(),
            builder.manager_ids() == old(self).manager_ids(),
            *final(self) == *final(builder),
    {
        self.max_workers = workers;
        self
    }

    /// Registers `manager` under the id of its type, which must not be registered yet.
    pub fn register_manager(&mut self, id: ManagerId, manager: M) -> (builder: &mut EngineBuilder<M, S>)
        requires
            !old(self).manager_ids().contains(id.0),
        ensures
            builder.manager_ids() == old(self).manager_ids().insert(id.0),
            builder.workers() == old(self).workers(),
            builder.systems() == old(self).systems(),
            builder.debug_systems() == old(self).debug_systems(),
            *final(self) == *final(builder),
    {
        self.managers.register(id, manager);
        self
    }

    /// Registers `system` under the id of its type, which must not be registered yet.
    pub fn register_system(&mut self, id: SystemId, system: S) -> (builder: &mut EngineBuilder<M, S>)
        requires
            !old(self).systems().contains_key(id.0),
        ensures
            builder.systems() == old(self).systems().insert(id.0, system),
            builder.workers() == old(self).workers(),
            builder.debug_systems() == old(self).debug_systems(),
            builder.manager_ids() == old(self).manager_ids(),
            *final(self) == *final(builder),
    {
        self.systems.insert(id.0, system);
        self
    }

    /// Registers the debug system `system` under the id of its type, which must not be
    /// registered as a debug system yet.
    pub fn register_debug_system(&mut self, id: SystemId, system: S) -> (builder: &mut EngineBuilder<M, S>)
        requires
            !old(self).debug_systems().contains_key(id.0),
        ensures
            builder.debug_systems() == old(self).debug_systems().insert(id.0, system),
            builder.workers() == old(self).workers(),
            builder.systems() == old(self).systems(),
            builder.manager_ids() == old(self).manager_ids(),
            *final(self) == *final(builder),
    {
        self.debug_systems.insert(id.0, system);
        self
    }

    pub fn has_system(&self, id: SystemId) -> (found: bool)
        ensures
            found == self.systems().contains_key(id.0),
    {
        self.systems.contains_key(&id.0)
    }

    pub fn has_debug_system(&self, id: SystemId) -> (found: bool)
        ensures
            found == self.debug_systems().contains_key(id.0),
    {
        self.debug_systems.contains_key(&id.0)
    }

    pub fn has_manager(&self, id: ManagerId) -> (found: bool)
        ensures
            found == self.manager_ids().contains(id.0),
    {
        self.managers.contains(id)
    }

    /// The number of threads to spawn besides the calling one: one fewer than the workers.
    pub fn spawned_workers(&self) -> (count: usize)
        ensures
            count == if self.workers() > 0 {
                self.workers() - 1
            } else {
                0
            },
    {
        if self.max_workers > 0 {
            self.max_workers - 1
        } else {
            0
        }
    }

    /// Takes the builder apart into its systems, debug systems, managers and worker count.
    pub fn into_parts(self) -> (parts: (HashMap<u64, S>, HashMap<u64, S>, ManagerMap<M>, usize))
        ensures
            parts.0@ == self.systems(),
            parts.1@ == self.debug_systems(),
            parts.2.ids() == self.manager_ids(),
            parts.3 == self.workers(),
    {
        (self.systems, self.debug_systems, self.managers, self.max_workers)
    }
}


/// What the engine has registered with the renderer: whether it has its camera, and the
/// renderer's mesh (of type `G`) for each mesh id.
pub struct RenderRegistry<G> {
    camera: bool,
    meshes: HashMap<usize, G>,
}

impl<G> RenderRegistry<G> {
    /// Whether the camera is registered.
    pub closed spec fn has_camera(&self) -> bool {
        self.camera
    }

    /// The renderer's mesh for each registered mesh id.
    pub closed spec fn meshes(&self) -> Map<usize, G> {
        self.meshes@
    }

    pub fn new() -> (registry: RenderRegistry<G>)
        ensures
            !registry.has_camera(),
            registry.meshes() == Map::<usize, G>::empty(),
    {
        RenderRegistry { camera: false, meshes: HashMap::new() }
    }

    /// Whether the camera is registered.
    pub fn camera_registered(&self) -> (registered: bool)
        ensures
            registered == self.has_camera(),
    {
        self.camera
    }

    /// Whether a mesh is registered under `mesh_id`.
    pub fn has_mesh(&self, mesh_id: MeshId) -> (found: bool)
        ensures
            found == self.meshes().contains_key(mesh_id),
    {
        self.meshes.contains_key(&mesh_id)
    }

    /// Records the camera. The engine draws with one camera: none may be registered yet.
    pub fn register_camera(&mut self)
        requires
            !old(self).has_camera(),
        ensures
            final(self).has_camera(),
            final(self).meshes() == old(self).meshes(),
    {
        self.camera = true;
    }

    /// Records `mesh` as the renderer's mesh for `mesh_id`, which must not name a mesh yet.
    pub fn register_mesh(&mut self, mesh_id: MeshId, mesh: G)
        requires
            !old(self).meshes().contains_key(mesh_id),
        ensures
            final(self).has_camera() == old(self).has_camera(),
            final(self).meshes() == old(self).meshes().insert(mesh_id, mesh),
    {
        self.meshes.insert(mesh_id, mesh);
    }

    /// The renderer's mesh for an instance of the mesh `mesh_id`, which must be registered.
    pub fn mesh_for_instance(&self, mesh_id: MeshId) -> (mesh: &G)
        requires
            self.meshes().contains_key(mesh_id),
        ensures
            *mesh == self.meshes()[mesh_id],
    {
        self.meshes.get(&mesh_id).unwrap()
    }
}

} // verus!
