use dolly::events::MouseButton;
use dolly::mapping::{rebase_and_map, rebase_event, Kind, Stamped, TimedEvent};

// 10 MHz counter: 10_000 ticks = 1 ms.
const FREQ: i64 = 10_000_000;
// First video frame at 500 ms since boot, in 100 ns units.
const EPOCH: i64 = 5_000_000;
// A 1920x1080 monitor whose top-left sits at virtual-screen (2560, 0).
const ORIGIN: (i32, i32) = (2560, 0);
const SIZE: (u32, u32) = (1920, 1080);

fn qpc_at_ms(ms: f64) -> i64 {
    ((ms * 10_000.0) as i64 * FREQ) / 10_000_000
}

fn ms(e: &TimedEvent) -> f64 {
    e.ticks as f64 / 10_000.0
}

#[test]
fn mapping_maps_to_surface_space_and_rebases_time() {
    let raw = vec![Stamped {
        qpc: qpc_at_ms(600.0),
        kind: Kind::Down { x: 2660, y: 100, button: MouseButton::Left },
    }];
    let out = rebase_and_map(&raw, FREQ, EPOCH, ORIGIN, SIZE);
    assert_eq!(out.len(), 1);
    assert_eq!(ms(&out[0]), 100.0);
    assert_eq!(out[0].kind, Kind::Down { x: 100, y: 100, button: MouseButton::Left });
}

#[test]
fn mapping_drops_events_before_first_frame() {
    let raw = vec![Stamped { qpc: qpc_at_ms(400.0), kind: Kind::KeyPress }];
    assert!(rebase_and_map(&raw, FREQ, EPOCH, ORIGIN, SIZE).is_empty());
}

#[test]
fn mapping_drops_mouse_events_outside_the_monitor() {
    let raw = vec![Stamped { qpc: qpc_at_ms(600.0), kind: Kind::Move { x: 100, y: 100 } }];
    assert!(rebase_and_map(&raw, FREQ, EPOCH, ORIGIN, SIZE).is_empty());
}

#[test]
fn mapping_keypress_survives_without_coordinates() {
    let raw = vec![Stamped { qpc: qpc_at_ms(600.0), kind: Kind::KeyPress }];
    let out = rebase_and_map(&raw, FREQ, EPOCH, ORIGIN, SIZE);
    assert_eq!(out.len(), 1);
    assert_eq!(ms(&out[0]), 100.0);
    assert_eq!(out[0].kind, Kind::KeyPress);
}

#[test]
fn mapping_output_is_time_sorted() {
    let raw = vec![
        Stamped { qpc: qpc_at_ms(700.0), kind: Kind::KeyPress },
        Stamped { qpc: qpc_at_ms(600.0), kind: Kind::KeyPress },
        Stamped { qpc: qpc_at_ms(650.0), kind: Kind::KeyPress },
    ];
    let ts: Vec<f64> = rebase_and_map(&raw, FREQ, EPOCH, ORIGIN, SIZE).iter().map(ms).collect();
    assert_eq!(ts, vec![100.0, 150.0, 200.0]);
}

#[test]
fn equal_times_keep_capture_order() {
    let raw = vec![
        Stamped { qpc: qpc_at_ms(700.0), kind: Kind::Move { x: 2561, y: 1 } },
        Stamped { qpc: qpc_at_ms(600.0), kind: Kind::Move { x: 2562, y: 2 } },
        Stamped { qpc: qpc_at_ms(600.0), kind: Kind::KeyPress },
        Stamped { qpc: qpc_at_ms(600.0), kind: Kind::Move { x: 2563, y: 3 } },
    ];
    let out = rebase_and_map(&raw, FREQ, EPOCH, ORIGIN, SIZE);
    let kinds: Vec<Kind> = out.iter().map(|e| e.kind).collect();
    assert_eq!(
        kinds,
        vec![Kind::Move { x: 2, y: 2 }, Kind::KeyPress, Kind::Move { x: 3, y: 3 }, Kind::Move { x: 1, y: 1 }]
    );
    let ts: Vec<i64> = out.iter().map(|e| e.ticks).collect();
    assert_eq!(ts, vec![1_000_000, 1_000_000, 1_000_000, 2_000_000]);
}

#[test]
fn in_order_events_come_back_unchanged() {
    let raw = vec![
        Stamped { qpc: qpc_at_ms(510.0), kind: Kind::Move { x: 2560, y: 0 } },
        Stamped { qpc: qpc_at_ms(520.0), kind: Kind::Down { x: 2570, y: 10, button: MouseButton::Right } },
        Stamped { qpc: qpc_at_ms(530.0), kind: Kind::Up { x: 2570, y: 10, button: MouseButton::Right } },
        Stamped { qpc: qpc_at_ms(540.0), kind: Kind::Wheel { x: 4479, y: 1079, dx: 0, dy: -120 } },
    ];
    let out = rebase_and_map(&raw, FREQ, EPOCH, ORIGIN, SIZE);
    assert_eq!(
        out,
        vec![
            TimedEvent { ticks: 100_000, kind: Kind::Move { x: 0, y: 0 } },
            TimedEvent { ticks: 200_000, kind: Kind::Down { x: 10, y: 10, button: MouseButton::Right } },
            TimedEvent { ticks: 300_000, kind: Kind::Up { x: 10, y: 10, button: MouseButton::Right } },
            TimedEvent { ticks: 400_000, kind: Kind::Wheel { x: 1919, y: 1079, dx: 0, dy: -120 } },
        ]
    );
}

#[test]
fn monitor_edges_are_half_open() {
    let at = qpc_at_ms(600.0);
    let inside = [(2560, 0), (4479, 1079)];
    let outside = [(2559, 0), (4480, 0), (2560, -1), (2560, 1080)];
    for (x, y) in inside {
        let ev = Stamped { qpc: at, kind: Kind::Move { x, y } };
        assert!(rebase_event(&ev, FREQ, EPOCH, ORIGIN, SIZE).is_some());
    }
    for (x, y) in outside {
        let ev = Stamped { qpc: at, kind: Kind::Wheel { x, y, dx: 1, dy: 0 } };
        assert!(rebase_event(&ev, FREQ, EPOCH, ORIGIN, SIZE).is_none());
    }
}

#[test]
fn event_at_the_epoch_is_kept_at_time_zero() {
    let ev = Stamped { qpc: qpc_at_ms(500.0), kind: Kind::KeyPress };
    assert_eq!(rebase_event(&ev, FREQ, EPOCH, ORIGIN, SIZE), Some(TimedEvent { ticks: 0, kind: Kind::KeyPress }));
}

#[test]
fn oversized_surface_keeps_no_pointer_events() {
    // A width past i32::MAX reads as negative: nothing fits.
    let size = (u32::MAX, 1080);
    let raw = vec![
        Stamped { qpc: qpc_at_ms(600.0), kind: Kind::Move { x: 2600, y: 10 } },
        Stamped { qpc: qpc_at_ms(600.0), kind: Kind::KeyPress },
    ];
    let out = rebase_and_map(&raw, FREQ, EPOCH, ORIGIN, size);
    assert_eq!(out, vec![TimedEvent { ticks: 1_000_000, kind: Kind::KeyPress }]);
}
