use dolly::camera::{interest_point_sources, InterestSource};
use dolly::events::EventKind;

#[test]
fn clicks_are_interest_points_at_their_own_position() {
    let kinds = [EventKind::MouseMove, EventKind::MouseDown, EventKind::MouseUp, EventKind::MouseDown];
    let points = interest_point_sources(&kinds, true);
    assert_eq!(
        points,
        vec![
            InterestSource { event: 1, position: Some(1) },
            InterestSource { event: 3, position: Some(3) },
        ]
    );
}

#[test]
fn typing_zooms_on_the_last_cursor_position() {
    let kinds = [
        EventKind::KeyPress,
        EventKind::MouseMove,
        EventKind::Wheel,
        EventKind::MouseUp,
        EventKind::KeyPress,
        EventKind::MouseDown,
        EventKind::WindowFocus,
        EventKind::KeyPress,
    ];
    let points = interest_point_sources(&kinds, true);
    assert_eq!(
        points,
        vec![
            // Nothing has moved the cursor yet: the origin.
            InterestSource { event: 0, position: None },
            // Wheel and button-up events do not move the remembered cursor.
            InterestSource { event: 4, position: Some(1) },
            InterestSource { event: 5, position: Some(5) },
            InterestSource { event: 7, position: Some(5) },
        ]
    );
}

#[test]
fn typing_can_be_switched_off() {
    let kinds = [EventKind::MouseMove, EventKind::KeyPress, EventKind::MouseDown, EventKind::KeyPress];
    let points = interest_point_sources(&kinds, false);
    assert_eq!(points, vec![InterestSource { event: 2, position: Some(2) }]);
}

#[test]
fn no_events_no_interest() {
    assert!(interest_point_sources(&[], true).is_empty());
}

#[test]
fn pointer_carrying_kinds() {
    assert!(EventKind::MouseMove.carries_pointer());
    assert!(EventKind::MouseDown.carries_pointer());
    assert!(EventKind::MouseUp.carries_pointer());
    assert!(EventKind::Wheel.carries_pointer());
    assert!(!EventKind::KeyPress.carries_pointer());
    assert!(!EventKind::WindowFocus.carries_pointer());
}
