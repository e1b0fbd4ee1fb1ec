use dolly::events::MouseButton;
use dolly::mapping::{rebase_and_map, Kind, Stamped, TimedEvent};

// 10 MHz counter: 10_000 ticks = 1 ms.
const FREQ: i64 = 10_000_000;
// First video frame at 500 ms since boot, in 100 ns units.
const EPOCH: i64 = 5_000_000;
// A 1920x1080 monitor whose top-left sits at virtual-screen (2560, 0).
const ORIGIN: (i32, i32) = (2560, 0);
const SIZE: (u32, u32) = (1920, 1080);

fn qpc_at_ms(ms: f64) -> i64 {
    ((ms * 10_000.0) as i64 * FREQ) / 10_000_000
}

fn ms(e: &TimedEvent) -> f64 {
    e.ticks as f64 / 10_000.0
}

#[test]
fn input_maps_to_surface_space_and_rebases_time() {
    let raw = vec![Stamped {
        qpc: qpc_at_ms(600.0),
        kind: Kind::Down { x: 2660, y: 100, button: MouseButton::Left },
    }];
    let out = rebase_and_map(&raw, FREQ, EPOCH, ORIGIN, SIZE);
    assert_eq!(out.len(), 1);
    assert_eq!(ms(&out[0]), 100.0);
    assert_eq!(out[0].kind, Kind::Down { x: 100, y: 100, button: MouseButton::Left });
}

#[test]
fn input_drops_events_before_first_frame() {
    let raw = vec![Stamped { qpc: qpc_at_ms(400.0), kind: Kind::KeyPress }];
    assert!(rebase_and_map(&raw, FREQ, EPOCH, ORIGIN, SIZE).is_empty());
}

#[test]
fn input_drops_mouse_events_outside_the_monitor() {
    let raw = vec![Stamped { qpc: qpc_at_ms(600.0), kind: Kind::Move { x: 100, y: 100 } }];
    assert!(rebase_and_map(&raw, FREQ, EPOCH, ORIGIN, SIZE).is_empty());
}

#[test]
fn input_keypress_survives_without_coordinates() {
    let raw = vec![Stamped { qpc: qpc_at_ms(600.0), kind: Kind::KeyPress }];
    let out = rebase_and_map(&raw, FREQ, EPOCH, ORIGIN, SIZE);
    assert_eq!(out.len(), 1);
    assert_eq!(ms(&out[0]), 100.0);
    assert_eq!(out[0].kind, Kind::KeyPress);
}

#[test]
fn input_output_is_time_sorted() {
    let raw = vec![
        Stamped { qpc: qpc_at_ms(700.0), kind: Kind::KeyPress },
        Stamped { qpc: qpc_at_ms(600.0), kind: Kind::KeyPress },
        Stamped { qpc: qpc_at_ms(650.0), kind: Kind::KeyPress },
    ];
    let ts: Vec<f64> = rebase_and_map(&raw, FREQ, EPOCH, ORIGIN, SIZE).iter().map(ms).collect();
    assert_eq!(ts, vec![100.0, 150.0, 200.0]);
}
