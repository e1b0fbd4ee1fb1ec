//! Decoding of low-level mouse and keyboard hook notifications.
//!
//! The hook procedures hand over the notification code, the window-message
//! identifier and, for the mouse, the pointer position and the `mouseData`
//! word. Keyboard decoding never sees the key's identity: only that a key
//! went down.

use vstd::prelude::*;

use crate::events::MouseButton;
use crate::mapping::Kind;

verus! {

/// Hook code meaning "a real input event to process".
pub const HC_ACTION: i32 = 0;

pub const WM_KEYDOWN: u32 = 0x0100;
pub const WM_SYSKEYDOWN: u32 = 0x0104;
pub const WM_MOUSEMOVE: u32 = 0x0200;
pub const WM_LBUTTONDOWN: u32 = 0x0201;
pub const WM_LBUTTONUP: u32 = 0x0202;
pub const WM_RBUTTONDOWN: u32 = 0x0204;
pub const WM_RBUTTONUP: u32 = 0x0205;
pub const WM_MBUTTONDOWN: u32 = 0x0207;
pub const WM_MBUTTONUP: u32 = 0x0208;
pub const WM_MOUSEWHEEL: u32 = 0x020A;
pub const WM_XBUTTONDOWN: u32 = 0x020B;
pub const WM_XBUTTONUP: u32 = 0x020C;
pub const WM_MOUSEHWHEEL: u32 = 0x020E;

/// The high word of `mouseData` read as a signed 16-bit wheel delta.
pub open spec fn wheel_delta(mouse_data: u32) -> int {
    let hi = mouse_data / 0x10000;
    if hi >= 0x8000 { hi - 0x10000 } else { hi as int }
}

/// The event a mouse-hook notification stands for, if any.
pub open spec fn spec_mouse_event(code: i32, msg: u32, x: i32, y: i32, mouse_data: u32) -> Option<Kind> {
    if code != HC_ACTION {
        None
    } else if msg == WM_MOUSEMOVE {
        Some(Kind::Move { x, y })
    } else if msg == WM_LBUTTONDOWN {
        Some(Kind::Down { x, y, button: MouseButton::Left })
    } else if msg == WM_LBUTTONUP {
        Some(Kind::Up { x, y, button: MouseButton::Left })
    } else if msg == WM_RBUTTONDOWN {
        Some(Kind::Down { x, y, button: MouseButton::Right })
    } else if msg == WM_RBUTTONUP {
        Some(Kind::Up { x, y, button: MouseButton::Right })
    } else if msg == WM_MBUTTONDOWN {
        Some(Kind::Down { x, y, button: MouseButton::Middle })
    } else if msg == WM_MBUTTONUP {
        Some(Kind::Up { x, y, button: MouseButton::Middle })
    } else if msg == WM_XBUTTONDOWN {
        Some(Kind::Down { x, y, button: MouseButton::Other })
    } else if msg == WM_XBUTTONUP {
        Some(Kind::Up { x, y, button: MouseButton::Other })
    } else if msg == WM_MOUSEWHEEL {
        Some(Kind::Wheel { x, y, dx: 0, dy: wheel_delta(mouse_data) as i32 })
    } else if msg == WM_MOUSEHWHEEL {
        Some(Kind::Wheel { x, y, dx: wheel_delta(mouse_data) as i32, dy: 0 })
    } else {
        None
    }
}

fn decode_wheel_delta(mouse_data: u32) -> (d: i32)
    ensures
        d == wheel_delta(mouse_data),
        -0x8000 <= d < 0x8000,
{
    let hi: u32 = mouse_data >> 16u32;
    assert(hi == mouse_data / 0x10000) by (bit_vector)
        requires hi == mouse_data >> 16u32;
    if hi >= 0x8000 {
        hi as i32 - 0x10000
    } else {
        hi as i32
    }
}

/// Decode a low-level mouse-hook notification into an input event.
/// Notifications that are not actions, and messages other than moves,
/// button transitions and wheel turns, give `None`.
pub fn decode_mouse_hook(code: i32, msg: u32, x: i32, y: i32, mouse_data: u32) -> (r: Option<Kind>)
    ensures
        r == spec_mouse_event(code, msg, x, y, mouse_data),
        // Vertical turn: dy is the high word of mouseData as a signed 16-bit
        // value (positive = up).
        code == HC_ACTION && msg == WM_MOUSEWHEEL ==> (r matches Some(Kind::Wheel { x: rx, y: ry, dx, dy })
            && rx == x && ry == y && dx == 0
            && -0x8000 <= dy < 0x8000 && (dy - mouse_data / 0x10000) % 0x10000 == 0),
        // Horizontal turn: dx is that same signed high word (positive = right).
        code == HC_ACTION && msg == WM_MOUSEHWHEEL ==> (r matches Some(Kind::Wheel { x: rx, y: ry, dx, dy })
            && rx == x && ry == y && dy == 0
            && -0x8000 <= dx < 0x8000 && (dx - mouse_data / 0x10000) % 0x10000 == 0),
        code != HC_ACTION ==> r is None,
{
    if code != HC_ACTION {
        return None;
    }
    if msg == WM_MOUSEMOVE {
        Some(Kind::Move { x, y })
    } else if msg == WM_LBUTTONDOWN {
        Some(Kind::Down { x, y, button: MouseButton::Left })
    } else if msg == WM_LBUTTONUP {
        Some(Kind::Up { x, y, button: MouseButton::Left })
    } else if msg == WM_RBUTTONDOWN {
        Some(Kind::Down { x, y, button: MouseButton::Right })
    } else if msg == WM_RBUTTONUP {
        Some(Kind::Up { x, y, button: MouseButton::Right })
    } else if msg == WM_MBUTTONDOWN {
        Some(Kind::Down { x, y, button: MouseButton::Middle })
    } else if msg == WM_MBUTTONUP {
        Some(Kind::Up { x, y, button: MouseButton::Middle })
    } else if msg == WM_XBUTTONDOWN {
        Some(Kind::Down { x, y, button: MouseButton::Other })
    } else if msg == WM_XBUTTONUP {
        Some(Kind::Up { x, y, button: MouseButton::Other })
    } else if msg == WM_MOUSEWHEEL {
        Some(Kind::Wheel { x, y, dx: 0, dy: decode_wheel_delta(mouse_data) })
    } else if msg == WM_MOUSEHWHEEL {
        Some(Kind::Wheel { x, y, dx: decode_wheel_delta(mouse_data), dy: 0 })
    } else {
        None
    }
}

/// The wheel delta is the high word of `mouseData` read as a signed 16-bit
/// number: the one value in `[-0x8000, 0x8000)` congruent to it mod 2^16.
pub proof fn lemma_wheel_delta_is_signed_high_word(mouse_data: u32)
    ensures
        -0x8000 <= wheel_delta(mouse_data) < 0x8000,
        (wheel_delta(mouse_data) - mouse_data / 0x10000) % 0x10000 == 0,
        mouse_data / 0x10000 < 0x8000 ==> wheel_delta(mouse_data) == mouse_data / 0x10000,
{
}

/// A horizontal and a vertical wheel notification with the same `mouseData`
/// turn by the same signed amount, on their own axis, at the hook's position;
/// that amount is the signed high word (so one notch right is `+120`, one
/// notch left `-120`).
pub proof fn lemma_wheel_axes_agree(x: i32, y: i32, mouse_data: u32)
    ensures
        spec_mouse_event(HC_ACTION, WM_MOUSEHWHEEL, x, y, mouse_data) matches Some(Kind::Wheel { x: hx, y: hy, dx: h, dy: h0 })
            && spec_mouse_event(HC_ACTION, WM_MOUSEWHEEL, x, y, mouse_data) matches Some(Kind::Wheel { x: vx, y: vy, dx: v0, dy: v })
            && hx == x && hy == y && vx == x && vy == y && h0 == 0 && v0 == 0 && h == v
            && -0x8000 <= h < 0x8000 && (h - mouse_data / 0x10000) % 0x10000 == 0,
{
    lemma_wheel_delta_is_signed_high_word(mouse_data);
}

/// Decode a low-level keyboard-hook notification: a key press is an action
/// notification carrying a key-down or system-key-down message. The key's
/// identity is not an input here, so it cannot reach the event log.
pub fn decode_keyboard_hook(code: i32, msg: u32) -> (r: Option<Kind>)
    ensures
        r == (if code == HC_ACTION && (msg == WM_KEYDOWN || msg == WM_SYSKEYDOWN) {
            Some(Kind::KeyPress)
        } else {
            None
        }),
{
    if code == HC_ACTION && (msg == WM_KEYDOWN || msg == WM_SYSKEYDOWN) {
        Some(Kind::KeyPress)
    } else {
        None
    }
}

} // verus!
