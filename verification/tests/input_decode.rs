use dolly::events::MouseButton;
use dolly::input::{decode_keyboard_hook, decode_mouse_hook};
use dolly::mapping::Kind;

#[test]
fn mouse_messages_decode_to_events() {
    let cases = [
        (0x0200u32, Some(Kind::Move { x: 5, y: 6 })),
        (0x0201, Some(Kind::Down { x: 5, y: 6, button: MouseButton::Left })),
        (0x0202, Some(Kind::Up { x: 5, y: 6, button: MouseButton::Left })),
        (0x0204, Some(Kind::Down { x: 5, y: 6, button: MouseButton::Right })),
        (0x0205, Some(Kind::Up { x: 5, y: 6, button: MouseButton::Right })),
        (0x0207, Some(Kind::Down { x: 5, y: 6, button: MouseButton::Middle })),
        (0x0208, Some(Kind::Up { x: 5, y: 6, button: MouseButton::Middle })),
        (0x020B, Some(Kind::Down { x: 5, y: 6, button: MouseButton::Other })),
        (0x020C, Some(Kind::Up { x: 5, y: 6, button: MouseButton::Other })),
        // Double-clicks and unknown messages are not logged.
        (0x0203, None),
        (0x0209, None),
    ];
    for (msg, expected) in cases {
        assert_eq!(decode_mouse_hook(0, msg, 5, 6, 0), expected, "message {msg:#x}");
    }
}

#[test]
fn wheel_delta_is_the_signed_high_word() {
    // One notch up: +120 in the high word.
    assert_eq!(
        decode_mouse_hook(0, 0x020A, 1, 2, 120 << 16),
        Some(Kind::Wheel { x: 1, y: 2, dx: 0, dy: 120 })
    );
    // One notch down: -120 = 0xFF88 in the high word; the low word is ignored.
    assert_eq!(
        decode_mouse_hook(0, 0x020A, 1, 2, 0xFF88_1234),
        Some(Kind::Wheel { x: 1, y: 2, dx: 0, dy: -120 })
    );
    // Horizontal wheel fills dx instead.
    assert_eq!(
        decode_mouse_hook(0, 0x020E, 1, 2, 0x8000_0000),
        Some(Kind::Wheel { x: 1, y: 2, dx: -32768, dy: 0 })
    );
}

#[test]
fn non_action_notifications_are_ignored() {
    assert_eq!(decode_mouse_hook(3, 0x0201, 1, 2, 0), None);
    assert_eq!(decode_mouse_hook(-1, 0x0200, 1, 2, 0), None);
    assert_eq!(decode_keyboard_hook(3, 0x0100), None);
}

#[test]
fn key_downs_are_presses_and_nothing_else_is() {
    assert_eq!(decode_keyboard_hook(0, 0x0100), Some(Kind::KeyPress));
    assert_eq!(decode_keyboard_hook(0, 0x0104), Some(Kind::KeyPress));
    // Key-up and system key-up are not presses.
    assert_eq!(decode_keyboard_hook(0, 0x0101), None);
    assert_eq!(decode_keyboard_hook(0, 0x0105), None);
}
