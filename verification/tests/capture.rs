use dolly::capture::{
    frame_span, start_step, BorderMode, FrameStamps, CaptureFailure, StartAction, StartEvent, StartState, WinCaptureError,
};

#[test]
fn no_first_frame_means_no_frames() {
    assert!(matches!(frame_span(None, None), Err(WinCaptureError::NoFrames)));
    assert!(matches!(frame_span(None, Some(7)), Err(WinCaptureError::NoFrames)));
}

#[test]
fn span_runs_from_first_to_last_frame() {
    assert!(matches!(frame_span(Some(5_000_000), Some(25_000_000)), Ok((5_000_000, 25_000_000))));
    // A single stamped frame: zero-length timeline.
    assert!(matches!(frame_span(Some(5_000_000), None), Ok((5_000_000, 5_000_000))));
}

#[test]
fn second_start_is_refused() {
    let (state, action) = start_step(StartState::Idle, StartEvent::Requested { already_recording: true });
    assert_eq!(state, StartState::Done);
    assert!(matches!(action, StartAction::Fail(WinCaptureError::AlreadyStarted)));
}

#[test]
fn happy_path_starts_capture_then_hooks() {
    let (s, a) = start_step(StartState::Idle, StartEvent::Requested { already_recording: false });
    assert!(matches!(a, StartAction::ResolveMonitor));
    let (s, a) = start_step(s, StartEvent::MonitorResolved);
    assert!(matches!(a, StartAction::StartCapture(BorderMode::WithoutBorder)));
    let (s, a) = start_step(s, StartEvent::CaptureStarted);
    assert!(matches!(a, StartAction::InstallHooks));
    let (s, a) = start_step(s, StartEvent::HooksInstalled);
    assert!(matches!(a, StartAction::Started));
    assert_eq!(s, StartState::Done);
}

#[test]
fn border_fallback_is_tried_once() {
    let s = StartState::AwaitCapture(BorderMode::WithoutBorder);
    let (s, a) = start_step(s, StartEvent::CaptureFailed(CaptureFailure::BorderConfigUnsupported("no border".into())));
    assert_eq!(s, StartState::AwaitCapture(BorderMode::Default));
    assert!(matches!(a, StartAction::StartCapture(BorderMode::Default)));
    let (s, a) = start_step(s, StartEvent::CaptureFailed(CaptureFailure::BorderConfigUnsupported("no border".into())));
    assert_eq!(s, StartState::Done);
    assert!(matches!(a, StartAction::Fail(WinCaptureError::Capture(ref m)) if m == "no border"));
}

#[test]
fn capture_failures_are_classified() {
    for f in [CaptureFailure::CursorConfigUnsupported, CaptureFailure::Unsupported] {
        let (_, a) = start_step(StartState::AwaitCapture(BorderMode::WithoutBorder), StartEvent::CaptureFailed(f));
        assert!(matches!(a, StartAction::Fail(WinCaptureError::OsTooOld)));
    }
    let (_, a) = start_step(
        StartState::AwaitCapture(BorderMode::Default),
        StartEvent::CaptureFailed(CaptureFailure::Other("device lost".into())),
    );
    assert!(matches!(a, StartAction::Fail(WinCaptureError::Capture(ref m)) if m == "device lost"));
}

#[test]
fn monitor_failure_is_reported() {
    let (s, a) = start_step(StartState::AwaitMonitor, StartEvent::MonitorFailed("no such monitor".into()));
    assert_eq!(s, StartState::Done);
    assert!(matches!(a, StartAction::Fail(WinCaptureError::Monitor(ref m)) if m == "no such monitor"));
}

#[test]
fn hook_failure_stops_the_running_capture() {
    let (s, a) = start_step(StartState::AwaitHooks, StartEvent::HooksFailed("access denied".into()));
    assert_eq!(s, StartState::Done);
    assert!(matches!(a, StartAction::StopCaptureAndFail(WinCaptureError::Input(ref m)) if m == "access denied"));
}

#[test]
fn first_frame_stamp_is_kept_as_the_epoch() {
    let mut stamps = FrameStamps::new();
    assert_eq!(stamps.frames, 0);
    assert!(matches!(frame_span(stamps.first_ts_100ns, stamps.last_ts_100ns), Err(WinCaptureError::NoFrames)));
    for ts in [5_000_000i64, 5_166_667, 5_333_333] {
        stamps.record(ts);
    }
    assert_eq!(stamps.first_ts_100ns, Some(5_000_000));
    assert_eq!(stamps.last_ts_100ns, Some(5_333_333));
    assert_eq!(stamps.frames, 3);
    assert!(matches!(frame_span(stamps.first_ts_100ns, stamps.last_ts_100ns), Ok((5_000_000, 5_333_333))));
}
