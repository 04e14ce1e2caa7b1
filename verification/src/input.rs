//! Keyboard and mouse-button state, and the movement direction it asks
//! for. Pointer coordinates stay with the windowing front end.

use vstd::prelude::*;

verus! {

/// The keys the engine reacts to.
#[derive(PartialEq, Eq, Structural, Clone, Copy)]
pub enum Key {
    A,
    D,
    W,
    S,
    /// Any other key.
    Other,
}

/// An input event, as far as the key and button state needs it.
pub enum InputEvent {
    /// A key went down (`pressed`) or up; `key` is `None` when the key has
    /// no virtual key code.
    Keyboard { key: Option<Key>, pressed: bool },
    /// A mouse button went down or up.
    MouseButton { left: bool, pressed: bool },
    /// The pointer moved.
    CursorMoved,
    /// Anything else.
    Other,
}

/// Which movement keys are held and whether the left mouse button drags.
pub struct InputHandler {
    pub left: bool,
    pub right: bool,
    pub up: bool,
    pub down: bool,
    pub mouse_left_pressed: bool,
    pub dragging: bool,
}

/// The handler after `event`, and whether the event was used: a key with
/// a key code sets its movement flag (other keys change nothing), the left
/// mouse button sets both the pressed and the dragging flag, a pointer
/// move is used without changing the flags, anything else is ignored.
pub open spec fn event_effect(h: InputHandler, event: InputEvent) -> (InputHandler, bool) {
    match event {
        InputEvent::Keyboard { key: Some(k), pressed } => (
            match k {
                Key::A => InputHandler { left: pressed, ..h },
                Key::D => InputHandler { right: pressed, ..h },
                Key::W => InputHandler { up: pressed, ..h },
                Key::S => InputHandler { down: pressed, ..h },
                Key::Other => h,
            },
            true,
        ),
        InputEvent::MouseButton { left: true, pressed } => (
            InputHandler { mouse_left_pressed: pressed, dragging: pressed, ..h },
            true,
        ),
        InputEvent::CursorMoved => (h, true),
        _ => (h, false),
    }
}

/// The movement direction of the held keys: (right - left, up - down).
pub open spec fn velocity_of(h: InputHandler) -> (int, int) {
    (
        (if h.right { 1int } else { 0int }) - (if h.left { 1int } else { 0int }),
        (if h.up { 1int } else { 0int }) - (if h.down { 1int } else { 0int }),
    )
}

/// Pressing a key and releasing it leaves the handler as releasing it
/// alone would: the key is no longer held.
pub proof fn lemma_press_then_release(h: InputHandler, k: Key)
    ensures
        event_effect(
            event_effect(h, InputEvent::Keyboard { key: Some(k), pressed: true }).0,
            InputEvent::Keyboard { key: Some(k), pressed: false },
        ).0 == event_effect(h, InputEvent::Keyboard { key: Some(k), pressed: false }).0,
{
}

/// Holding both keys of an axis cancels the movement along it.
pub proof fn lemma_opposite_keys_cancel(h: InputHandler)
    ensures
        h.left && h.right ==> velocity_of(h).0 == 0,
        h.up && h.down ==> velocity_of(h).1 == 0,
{
}

impl InputHandler {
    /// Nothing held.
    pub fn new() -> (r: InputHandler)
        ensures
            r == (InputHandler {
                left: false,
                right: false,
                up: false,
                down: false,
                mouse_left_pressed: false,
                dragging: false,
            }),
    {
        InputHandler {
            left: false,
            right: false,
            up: false,
            down: false,
            mouse_left_pressed: false,
            dragging: false,
        }
    }

    /// Per-frame processing of the input state; the state carries over
    /// unchanged.
    pub fn update(&mut self)
        ensures
            *final(self) == *old(self),
    {
    }

    /// Updates the state for `event`; returns whether the event was one the
    /// handler uses: a key with a key code, the left mouse button, or a
    /// pointer move.
    pub fn handle_event(&mut self, event: InputEvent) -> (r: bool)
        ensures
            (*final(self), r) == event_effect(*old(self), event),
    {
        match event {
            InputEvent::Keyboard { key: Some(k), pressed } => {
                match k {
                    Key::A => self.left = pressed,
                    Key::D => self.right = pressed,
                    Key::W => self.up = pressed,
                    Key::S => self.down = pressed,
                    Key::Other => {},
                }
                true
            },
            InputEvent::Keyboard { key: None, .. } => false,
            InputEvent::MouseButton { left, pressed } => {
                if left {
                    self.mouse_left_pressed = pressed;
                    self.dragging = pressed;
                    true
                } else {
                    false
                }
            },
            InputEvent::CursorMoved => true,
            InputEvent::Other => false,
        }
    }

    /// The movement direction the held keys ask for: x is -1 for left, +1
    /// for right, 0 for both or neither; y is +1 for up, -1 for down.
    pub fn get_velocity(&self) -> (r: [i8; 2])
        ensures
            (r[0] as int, r[1] as int) == velocity_of(*self),
    {
        let mut vx: i8 = 0;
        let mut vy: i8 = 0;
        if self.left {
            vx -= 1;
        }
        if self.right {
            vx += 1;
        }
        if self.up {
            vy += 1;
        }
        if self.down {
            vy -= 1;
        }
        [vx, vy]
    }
}

} // verus!
