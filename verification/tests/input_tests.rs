use gunship::engine::behavior_frame_control;
use gunship::engine::gather_input;
use gunship::engine::update_frame_control;
use gunship::engine::EngineBuilder;
use gunship::engine::FrameControl;
use gunship::engine::RenderRegistry;
use gunship::engine::WindowMessage;
use gunship::ecs::ManagerId;
use gunship::ecs::SystemId;
use gunship::input::Input;
use gunship::input::InputMessage;
use gunship::input::ScanCode;

const PAUSE: ScanCode = ScanCode(120);
const STEP: ScanCode = ScanCode(122);

#[test]
fn new_input_is_idle() {
    let input = Input::new();
    assert_eq!(input.mouse_pos(), (400, 400));
    assert_eq!(input.mouse_delta(), (0, 0));
    assert_eq!(input.mouse_scroll(), 0);
    assert!(!input.key_down(ScanCode(1)));
    for button in 0..5 {
        assert!(!input.mouse_button_down(button));
        assert!(!input.mouse_button_pressed(button));
        assert!(!input.mouse_button_released(button));
    }
}

#[test]
fn key_down_then_up_within_a_frame() {
    let mut input = Input::new();
    input.push_input(InputMessage::KeyDown(ScanCode(30)));
    assert!(input.key_down(ScanCode(30)));
    assert!(input.key_pressed(ScanCode(30)));
    assert!(!input.key_released(ScanCode(30)));
    input.push_input(InputMessage::KeyUp(ScanCode(30)));
    assert!(!input.key_down(ScanCode(30)));
    assert!(input.key_pressed(ScanCode(30)));
    assert!(input.key_released(ScanCode(30)));
}

#[test]
fn held_key_is_pressed_only_once() {
    let mut input = Input::new();
    input.push_input(InputMessage::KeyDown(ScanCode(30)));
    input.clear();
    assert!(input.key_down(ScanCode(30)));
    assert!(!input.key_pressed(ScanCode(30)));
    // A repeated key-down for a held key does not count as a new press.
    input.push_input(InputMessage::KeyDown(ScanCode(30)));
    assert!(!input.key_pressed(ScanCode(30)));
}

#[test]
fn clear_keeps_held_state_and_position() {
    let mut input = Input::new();
    input.push_input(InputMessage::MousePos(10, 20));
    input.push_input(InputMessage::MouseMove(3, -4));
    input.push_input(InputMessage::MouseWheel(2));
    input.push_input(InputMessage::KeyUp(ScanCode(5)));
    input.clear();
    assert_eq!(input.mouse_pos(), (10, 20));
    assert_eq!(input.mouse_delta(), (0, 0));
    assert_eq!(input.mouse_scroll(), 0);
    assert!(!input.key_released(ScanCode(5)));
}

#[test]
fn mouse_button_messages_follow_the_window_convention() {
    let mut input = Input::new();
    // The window reports the button going up as `MouseButtonReleased`.
    input.push_input(InputMessage::MouseButtonReleased(0));
    assert!(input.mouse_button_down(0));
    assert!(input.mouse_button_pressed(0));
    input.push_input(InputMessage::MouseButtonPressed(0));
    assert!(!input.mouse_button_down(0));
    assert!(input.mouse_button_released(0));
    assert!(!input.mouse_button_down(1));
}

#[test]
fn gather_input_clears_applies_and_reports_close() {
    let mut input = Input::new();
    input.push_input(InputMessage::KeyDown(ScanCode(9)));
    let messages = vec![
        WindowMessage::Activate,
        WindowMessage::Input(InputMessage::KeyDown(ScanCode(11))),
        WindowMessage::Paint,
        WindowMessage::Input(InputMessage::MouseWheel(-1)),
    ];
    let close = gather_input(&mut input, &messages);
    assert!(!close);
    assert!(!input.key_pressed(ScanCode(9)));
    assert!(input.key_down(ScanCode(9)));
    assert!(input.key_pressed(ScanCode(11)));
    assert_eq!(input.mouse_scroll(), -1);

    let messages = vec![
        WindowMessage::Close,
        WindowMessage::Input(InputMessage::KeyUp(ScanCode(9))),
        WindowMessage::Destroy,
    ];
    assert!(gather_input(&mut input, &messages));
    // Messages after the close request are still applied.
    assert!(input.key_released(ScanCode(9)));
    assert!(!input.key_pressed(ScanCode(11)));
}

fn pressed(keys: &[ScanCode]) -> Input {
    let mut input = Input::new();
    for key in keys {
        input.push_input(InputMessage::KeyDown(*key));
    }
    input
}

#[test]
fn update_frame_control_runs_unless_paused() {
    let none = pressed(&[]);
    assert_eq!(
        update_frame_control(false, &none, PAUSE, STEP),
        FrameControl { run_gameplay: true, debug_pause: false },
    );
    assert_eq!(
        update_frame_control(true, &none, PAUSE, STEP),
        FrameControl { run_gameplay: false, debug_pause: true },
    );
}

#[test]
fn update_frame_control_pause_key_toggles_after_the_frame() {
    let pause = pressed(&[PAUSE]);
    assert_eq!(
        update_frame_control(false, &pause, PAUSE, STEP),
        FrameControl { run_gameplay: true, debug_pause: true },
    );
    assert_eq!(
        update_frame_control(true, &pause, PAUSE, STEP),
        FrameControl { run_gameplay: false, debug_pause: false },
    );
}

#[test]
fn update_frame_control_step_runs_one_frame_and_stays_paused() {
    let step = pressed(&[STEP]);
    assert_eq!(
        update_frame_control(true, &step, PAUSE, STEP),
        FrameControl { run_gameplay: true, debug_pause: true },
    );
    assert_eq!(
        update_frame_control(false, &step, PAUSE, STEP),
        FrameControl { run_gameplay: true, debug_pause: true },
    );
    let both = pressed(&[PAUSE, STEP]);
    assert_eq!(
        update_frame_control(true, &both, PAUSE, STEP),
        FrameControl { run_gameplay: true, debug_pause: true },
    );
}

#[test]
fn behavior_frame_control_toggles_before_running() {
    let pause = pressed(&[PAUSE]);
    assert_eq!(
        behavior_frame_control(false, &pause, PAUSE, STEP, 2),
        FrameControl { run_gameplay: false, debug_pause: true },
    );
    assert_eq!(
        behavior_frame_control(true, &pause, PAUSE, STEP, 2),
        FrameControl { run_gameplay: true, debug_pause: false },
    );
    let step = pressed(&[STEP]);
    assert_eq!(
        behavior_frame_control(true, &step, PAUSE, STEP, 1),
        FrameControl { run_gameplay: true, debug_pause: true },
    );
    let none = pressed(&[]);
    assert_eq!(
        behavior_frame_control(false, &none, PAUSE, STEP, 0),
        FrameControl { run_gameplay: false, debug_pause: false },
    );
}

#[test]
fn engine_builder_counts_workers() {
    let mut builder: EngineBuilder<u8, u8> = EngineBuilder::new();
    assert_eq!(builder.spawned_workers(), 0);
    builder.max_workers(4).max_workers(3);
    assert_eq!(builder.spawned_workers(), 2);
}

#[test]
fn engine_builder_registers_managers_and_systems() {
    let mut builder: EngineBuilder<&str, &str> = EngineBuilder::new();
    builder
        .register_manager(ManagerId(1), "transforms")
        .register_system(SystemId(7), "physics")
        .register_debug_system(SystemId(7), "overlay");
    assert!(builder.has_manager(ManagerId(1)));
    assert!(!builder.has_manager(ManagerId(2)));
    assert!(builder.has_system(SystemId(7)));
    assert!(builder.has_debug_system(SystemId(7)));
    assert!(!builder.has_system(SystemId(8)));
    let (systems, debug_systems, managers, workers) = builder.into_parts();
    assert_eq!(systems.get(&7), Some(&"physics"));
    assert_eq!(debug_systems.get(&7), Some(&"overlay"));
    assert!(managers.contains(ManagerId(1)));
    assert_eq!(workers, 1);
}

#[test]
fn builder_with_managers_registers_each_internal_manager() {
    let builder: EngineBuilder<&str, u8> =
        EngineBuilder::with_managers(vec![(ManagerId(3), "audio"), (ManagerId(8), "alarms"), (ManagerId(5), "colliders")]);
    assert!(builder.has_manager(ManagerId(3)));
    assert!(builder.has_manager(ManagerId(8)));
    assert!(builder.has_manager(ManagerId(5)));
    assert!(!builder.has_manager(ManagerId(4)));
    assert!(!builder.has_system(SystemId(3)));
    assert_eq!(builder.spawned_workers(), 0);
}

#[test]
fn render_registry_records_the_camera() {
    let mut registry: RenderRegistry<char> = RenderRegistry::new();
    assert!(!registry.camera_registered());
    registry.register_camera();
    assert!(registry.camera_registered());
}

#[test]
fn render_registry_maps_mesh_ids_to_renderer_meshes() {
    let mut registry: RenderRegistry<char> = RenderRegistry::new();
    assert!(!registry.has_mesh(4));
    registry.register_mesh(4, 'a');
    registry.register_mesh(9, 'b');
    assert!(registry.has_mesh(4));
    assert!(!registry.has_mesh(7));
    assert_eq!(registry.mesh_for_instance(4), &'a');
    assert_eq!(registry.mesh_for_instance(9), &'b');
}
