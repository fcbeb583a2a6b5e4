//! Per-frame input state: which keys are held, pressed or released this frame, and the state
//! of the mouse.

use std::collections::HashSet;
use vstd::prelude::*;

verus! {

/// The number of mouse buttons whose state is tracked.
pub const MAX_SUPPORTED_MOUSE_BUTTONS: usize = 5;

/// Identifies a keyboard key by its platform scan code.
#[derive(Clone, Copy, PartialEq, Eq, Hash, Debug, Structural)]
pub struct ScanCode(pub u32);

/// An input event delivered by the window.
#[derive(Clone, Copy, Debug)]
pub enum InputMessage {
    KeyDown(ScanCode),
    KeyUp(ScanCode),
    MouseMove(i32, i32),
    MousePos(i32, i32),
    MouseButtonPressed(u8),
    MouseButtonReleased(u8),
    MouseWheel(i32),
}

/// The abstract state of `Input`.
#[verifier::ext_equal]
pub struct InputView {
    pub keys_pressed: Set<u32>,
    pub keys_released: Set<u32>,
    pub keys_down: Set<u32>,
    pub mouse_pos: (i32, i32),
    pub mouse_delta: (i32, i32),
    pub mouse_down: Seq<bool>,
    pub mouse_pressed: Seq<bool>,
    pub mouse_released: Seq<bool>,
    pub mouse_scroll: i32,
}

#[derive(Debug)]
pub struct Input {
    keys_pressed: HashSet<u32>,
    keys_released: HashSet<u32>,
    keys_down: HashSet<u32>,
    mouse_pos: (i32, i32),
    mouse_delta: (i32, i32),
    mouse_down: [bool; 5],
    mouse_pressed: [bool; 5],
    mouse_released: [bool; 5],
    mouse_scroll: i32,
}

impl View for Input {
    type V = InputView;

    closed spec fn view(&self) -> InputView {
        InputView {
            keys_pressed: self.keys_pressed@,
            keys_released: self.keys_released@,
            keys_down: self.keys_down@,
            mouse_pos: self.mouse_pos,
            mouse_delta: self.mouse_delta,
            mouse_down: self.mouse_down@,
            mouse_pressed: self.mouse_pressed@,
            mouse_released: self.mouse_released@,
            mouse_scroll: self.mouse_scroll,
        }
    }
}

/// The state after `message` has been applied to state `s`.
pub open spec fn apply_input(s: InputView, message: InputMessage) -> InputView {
    match message {
        InputMessage::KeyDown(key) => InputView {
            keys_pressed: if s.keys_down.contains(key.0) {
                s.keys_pressed
            } else {
                s.keys_pressed.insert(key.0)
            },
            keys_down: s.keys_down.insert(key.0),
            ..s
        },
        InputMessage::KeyUp(key) => InputView {
            keys_released: s.keys_released.insert(key.0),
            keys_down: s.keys_down.remove(key.0),
            ..s
        },
        InputMessage::MouseMove(x_delta, y_delta) => InputView { mouse_delta: (x_delta, y_delta), ..s },
        InputMessage::MousePos(x_pos, y_pos) => InputView { mouse_pos: (x_pos, y_pos), ..s },
        InputMessage::MouseButtonPressed(button) => InputView {
            mouse_down: s.mouse_down.update(button as int, false),
            mouse_released: s.mouse_released.update(button as int, true),
            ..s
        },
        InputMessage::MouseButtonReleased(button) => InputView {
            mouse_pressed: s.mouse_pressed.update(button as int, !s.mouse_down[button as int]),
            mouse_down: s.mouse_down.update(button as int, true),
            ..s
        },
        InputMessage::MouseWheel(scroll_amount) => InputView { mouse_scroll: scroll_amount, ..s },
    }
}

/// Mouse-button messages name one of the tracked buttons.
pub open spec fn message_supported(message: InputMessage) -> bool {
    match message {
        InputMessage::MouseButtonPressed(button) => button < MAX_SUPPORTED_MOUSE_BUTTONS,
        InputMessage::MouseButtonReleased(button) => button < MAX_SUPPORTED_MOUSE_BUTTONS,
        _ => true,
    }
}

/// The state at the start of a new frame: nothing pressed or released, no mouse motion or
/// scrolling, with held keys and buttons and the mouse position kept.
pub open spec fn cleared(s: InputView) -> InputView {
    InputView {
        keys_pressed: Set::empty(),
        keys_released: Set::empty(),
        mouse_delta: (0i32, 0i32),
        mouse_pressed: no_buttons(),
        mouse_released: no_buttons(),
        mouse_scroll: 0i32,
        ..s
    }
}

/// A key that goes down is held and pressed; once a new frame has started, further key-down
/// messages for the held key are not presses again. A key that goes up is released and no
/// longer held.
pub proof fn lemma_key_press_once(s: InputView, key: ScanCode)
    ensures
        apply_input(s, InputMessage::KeyDown(key)).keys_down.contains(key.0),
        !s.keys_down.contains(key.0) ==> apply_input(s, InputMessage::KeyDown(key)).keys_pressed.contains(key.0),
        s.keys_down.contains(key.0) ==> apply_input(s, InputMessage::KeyDown(key)).keys_pressed == s.keys_pressed,
        !apply_input(cleared(apply_input(s, InputMessage::KeyDown(key))), InputMessage::KeyDown(key)).keys_pressed.contains(key.0),
        !apply_input(s, InputMessage::KeyUp(key)).keys_down.contains(key.0),
        apply_input(s, InputMessage::KeyUp(key)).keys_released.contains(key.0),
{
}

/// A key going down changes nothing about the other keys: every other key is pressed, released
/// and held exactly as before. The key itself is held afterwards, is pressed if it was pressed
/// before or was not held, and is released exactly if it was released before.
pub proof fn lemma_key_down_leaves_other_keys(s: InputView, key: ScanCode, other: u32)
    ensures
        other != key.0 ==> (apply_input(s, InputMessage::KeyDown(key)).keys_pressed.contains(other)
            == s.keys_pressed.contains(other)),
        other != key.0 ==> (apply_input(s, InputMessage::KeyDown(key)).keys_down.contains(other)
            == s.keys_down.contains(other)),
        apply_input(s, InputMessage::KeyDown(key)).keys_released == s.keys_released,
        apply_input(s, InputMessage::KeyDown(key)).keys_pressed.contains(key.0) == (s.keys_pressed.contains(key.0)
            || !s.keys_down.contains(key.0)),
        s.keys_pressed.subset_of(apply_input(s, InputMessage::KeyDown(key)).keys_pressed),
{
}

/// A key going up changes nothing about the other keys, and presses no key.
pub proof fn lemma_key_up_leaves_other_keys(s: InputView, key: ScanCode, other: u32)
    ensures
        other != key.0 ==> (apply_input(s, InputMessage::KeyUp(key)).keys_released.contains(other)
            == s.keys_released.contains(other)),
        other != key.0 ==> (apply_input(s, InputMessage::KeyUp(key)).keys_down.contains(other)
            == s.keys_down.contains(other)),
        apply_input(s, InputMessage::KeyUp(key)).keys_pressed == s.keys_pressed,
{
}

/// A mouse move records its deltas as they come, the x delta first and the y delta second;
/// a mouse position does the same for the position, and a wheel message records its scroll
/// amount. None of them touches the keys or the other mouse values.
pub proof fn lemma_mouse_messages_record_their_values(s: InputView, x: i32, y: i32)
    ensures
        apply_input(s, InputMessage::MouseMove(x, y)).mouse_delta.0 == x,
        apply_input(s, InputMessage::MouseMove(x, y)).mouse_delta.1 == y,
        apply_input(s, InputMessage::MouseMove(x, y)).mouse_pos == s.mouse_pos,
        apply_input(s, InputMessage::MouseMove(x, y)).keys_pressed == s.keys_pressed,
        apply_input(s, InputMessage::MousePos(x, y)).mouse_pos.0 == x,
        apply_input(s, InputMessage::MousePos(x, y)).mouse_pos.1 == y,
        apply_input(s, InputMessage::MousePos(x, y)).mouse_delta == s.mouse_delta,
        apply_input(s, InputMessage::MouseWheel(x)).mouse_scroll == x,
        apply_input(s, InputMessage::MouseWheel(x)).mouse_delta == s.mouse_delta,
{
}

/// A mouse-button message changes only that button's entries: a `MouseButtonPressed` message
/// marks the button released and not held, and a `MouseButtonReleased` message marks it held,
/// and pressed if it was not held before. The other buttons and the keys stay as they are.
pub proof fn lemma_mouse_button_messages(s: InputView, button: u8, other: int)
    requires
        s.mouse_down.len() == 5,
        s.mouse_pressed.len() == 5,
        s.mouse_released.len() == 5,
        button < 5,
        0 <= other < 5,
        other != button,
    ensures
        !apply_input(s, InputMessage::MouseButtonPressed(button)).mouse_down[button as int],
        apply_input(s, InputMessage::MouseButtonPressed(button)).mouse_released[button as int],
        apply_input(s, InputMessage::MouseButtonPressed(button)).mouse_pressed == s.mouse_pressed,
        apply_input(s, InputMessage::MouseButtonPressed(button)).mouse_down[other] == s.mouse_down[other],
        apply_input(s, InputMessage::MouseButtonPressed(button)).mouse_released[other] == s.mouse_released[other],
        apply_input(s, InputMessage::MouseButtonReleased(button)).mouse_down[button as int],
        apply_input(s, InputMessage::MouseButtonReleased(button)).mouse_pressed[button as int] == !s.mouse_down[button as int],
        apply_input(s, InputMessage::MouseButtonReleased(button)).mouse_released == s.mouse_released,
        apply_input(s, InputMessage::MouseButtonReleased(button)).mouse_down[other] == s.mouse_down[other],
        apply_input(s, InputMessage::MouseButtonReleased(button)).mouse_pressed[other] == s.mouse_pressed[other],
        apply_input(s, InputMessage::MouseButtonReleased(button)).keys_pressed == s.keys_pressed,
        apply_input(s, InputMessage::MouseButtonPressed(button)).keys_down == s.keys_down,
{
}

/// Starting a new frame keeps what is held and where the mouse is, and forgets the rest.
pub proof fn lemma_clear_keeps_held(s: InputView)
    ensures
        cleared(s).keys_down == s.keys_down,
        cleared(s).mouse_down == s.mouse_down,
        cleared(s).mouse_pos == s.mouse_pos,
        cleared(cleared(s)) == cleared(s),
{
}

/// Five copies of `false`, one per tracked mouse button.
pub open spec fn no_buttons() -> Seq<bool> {
    seq![false, false, false, false, false]
}

impl Input {
    /// The state of a freshly created `Input`.
    pub open spec fn new_view() -> InputView {
        InputView {
            keys_pressed: Set::empty(),
            keys_released: Set::empty(),
            keys_down: Set::empty(),
            mouse_pos: (400i32, 400i32),
            mouse_delta: (0i32, 0i32),
            mouse_down: no_buttons(),
            mouse_pressed: no_buttons(),
            mouse_released: no_buttons(),
            mouse_scroll: 0i32,
        }
    }

    pub fn new() -> (input: Input)
        ensures
            input@ == Input::new_view(),
    {
        Input {
            keys_pressed: HashSet::new(),
            keys_released: HashSet::new(),
            keys_down: HashSet::new(),
            mouse_pos: (400, 400),
            mouse_delta: (0, 0),
            mouse_down: [false, false, false, false, false],
            mouse_pressed: [false, false, false, false, false],
            mouse_released: [false, false, false, false, false],
            mouse_scroll: 0,
        }
    }

    /// Starts a new frame: forgets which keys and buttons were pressed or released and the
    /// mouse motion, keeping which keys and buttons are held and the mouse position.
    pub fn clear(&mut self)
        ensures
            final(self)@ == cleared(old(self)@),
    {
        self.keys_pressed.clear();
        self.keys_released.clear();
        self.mouse_delta = (0, 0);
        self.mouse_pressed = [false, false, false, false, false];
        self.mouse_released = [false, false, false, false, false];
        self.mouse_scroll = 0;
    }

    /// Records one input event.
    pub fn push_input(&mut self, message: InputMessage)
        requires
            message_supported(message),
        ensures
            final(self)@ == apply_input(old(self)@, message),
    {
        match message {
            InputMessage::KeyDown(key) => {
                if !self.key_down(key) {
                    self.keys_pressed.insert(key.0);
                }
                self.keys_down.insert(key.0);
            },
            InputMessage::KeyUp(key) => {
                self.keys_released.insert(key.0);
                self.keys_down.remove(&key.0);
            },
            InputMessage::MouseMove(x_delta, y_delta) => {
                self.mouse_delta = (x_delta, y_delta);
            },
            InputMessage::MousePos(x_pos, y_pos) => {
                self.mouse_pos = (x_pos, y_pos);
            },
            InputMessage::MouseButtonPressed(button) => {
                let index = button as usize;
                self.mouse_down[index] = false;
                self.mouse_released[index] = true;
            },
            InputMessage::MouseButtonReleased(button) => {
                let index = button as usize;
                self.mouse_pressed[index] = true ^ self.mouse_down[index];
                self.mouse_down[index] = true;
            },
            InputMessage::MouseWheel(scroll_amount) => {
                self.mouse_scroll = scroll_amount;
            },
        }
    }

    /// Whether `key` is currently held.
    pub fn key_down(&self, key: ScanCode) -> (down: bool)
        ensures
            down == self@.keys_down.contains(key.0),
    {
        self.keys_down.contains(&key.0)
    }

    /// Whether `key` went down this frame.
    pub fn key_pressed(&self, key: ScanCode) -> (pressed: bool)
        ensures
            pressed == self@.keys_pressed.contains(key.0),
    {
        self.keys_pressed.contains(&key.0)
    }

    /// Whether `key` went up this frame.
    pub fn key_released(&self, key: ScanCode) -> (released: bool)
        ensures
            released == self@.keys_released.contains(key.0),
    {
        self.keys_released.contains(&key.0)
    }

    pub fn mouse_pos(&self) -> (pos: (i32, i32))
        ensures
            pos == self@.mouse_pos,
    {
        self.mouse_pos
    }

    pub fn mouse_delta(&self) -> (delta: (i32, i32))
        ensures
            delta == self@.mouse_delta,
    {
        self.mouse_delta
    }

    pub fn mouse_button_down(&self, button: usize) -> (down: bool)
        requires
            button < MAX_SUPPORTED_MOUSE_BUTTONS,
        ensures
            down == self@.mouse_down[button as int],
    {
        self.mouse_down[button]
    }

    pub fn mouse_button_pressed(&self, button: usize) -> (pressed: bool)
        requires
            button < MAX_SUPPORTED_MOUSE_BUTTONS,
        ensures
            pressed == self@.mouse_pressed[button as int],
    {
        self.mouse_pressed[button]
    }

    pub fn mouse_button_released(&self, button: usize) -> (released: bool)
        requires
            button < MAX_SUPPORTED_MOUSE_BUTTONS,
        ensures
            released == self@.mouse_released[button as int],
    {
        self.mouse_released[button]
    }

    pub fn mouse_scroll(&self) -> (scroll: i32)
        ensures
            scroll == self@.mouse_scroll,
    {
        self.mouse_scroll
    }
}

} // verus!
