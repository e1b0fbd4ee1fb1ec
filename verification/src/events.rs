//! The input-event vocabulary shared by capture and the camera.

use vstd::prelude::*;

verus! {

/// Which mouse button an event refers to.
#[derive(Clone, Copy, Debug, PartialEq, Eq, Structural)]
pub enum MouseButton {
    Left,
    Right,
    Middle,
    Other,
}

/// The variant of a logged input event, without its payload.
#[derive(Clone, Copy, Debug, PartialEq, Eq, Structural)]
pub enum EventKind {
    MouseMove,
    MouseDown,
    MouseUp,
    Wheel,
    KeyPress,
    WindowFocus,
}

impl EventKind {
    /// Events of these kinds carry a pointer position.
    pub open spec fn spec_carries_pointer(self) -> bool {
        self is MouseMove || self is MouseDown || self is MouseUp || self is Wheel
    }

    /// Whether an event of this kind carries a pointer position (so a cursor
    /// path stays continuous through clicks and scrolls).
    pub fn carries_pointer(&self) -> (r: bool)
        ensures
            r == self.spec_carries_pointer(),
    {
        match self {
            EventKind::MouseMove | EventKind::MouseDown | EventKind::MouseUp | EventKind::Wheel => true,
            _ => false,
        }
    }
}

} // verus!
