//! Capture-session bookkeeping that needs no operating-system call.

use vstd::prelude::*;

verus! {

/// Why a screen-capture session could not start or finish.
#[derive(Debug)]
pub enum WinCaptureError {
    AlreadyStarted,
    NotStarted,
    /// Cursor-less capture needs Windows 10 2004+ (build 19041).
    OsTooOld,
    Monitor(String),
    Capture(String),
    Encoder(String),
    /// Low-level input hooks could not be installed.
    Input(String),
    /// Capture stopped before a single frame arrived.
    NoFrames,
    /// The events sidecar could not be written.
    Sidecar(String),
}

/// Whether the capture is asked to suppress the system's yellow border.
#[derive(Clone, Copy, Debug, PartialEq, Eq, Structural)]
pub enum BorderMode {
    WithoutBorder,
    Default,
}

/// Why the capture API refused to start, as far as starting cares.
#[derive(Debug)]
pub enum CaptureFailure {
    /// Border suppression is not available (needs build 20348+).
    BorderConfigUnsupported(String),
    /// Cursor exclusion is not available.
    CursorConfigUnsupported,
    /// Graphics capture is not available at all.
    Unsupported,
    /// Anything else, with its message.
    Other(String),
}

/// Where a recorder is in starting a session.
#[derive(Clone, Copy, Debug, PartialEq, Eq, Structural)]
pub enum StartState {
    /// Nothing asked yet.
    Idle,
    /// Waiting for the monitor's geometry.
    AwaitMonitor,
    /// Waiting for the capture, started with this border mode.
    AwaitCapture(BorderMode),
    /// Capture is running; waiting for the input hooks.
    AwaitHooks,
    /// Finished, one way or the other.
    Done,
}

/// What happened since the last step.
#[derive(Debug)]
pub enum StartEvent {
    /// `start` was called; whether a session is already running.
    Requested { already_recording: bool },
    MonitorResolved,
    MonitorFailed(String),
    CaptureStarted,
    CaptureFailed(CaptureFailure),
    HooksInstalled,
    HooksFailed(String),
}

/// What the recorder must do next.
#[derive(Debug)]
pub enum StartAction {
    /// Look up the monitor and its size, scale and origin.
    ResolveMonitor,
    /// Start the cursor-less capture with this border mode.
    StartCapture(BorderMode),
    /// Install the low-level input hooks.
    InstallHooks,
    /// Stop the running capture, then report the error.
    StopCaptureAndFail(WinCaptureError),
    /// Report the error; nothing is running.
    Fail(WinCaptureError),
    /// The session is live.
    Started,
}

/// The events a state waits for.
pub open spec fn start_event_expected(state: StartState, event: StartEvent) -> bool {
    match state {
        StartState::Idle => event is Requested,
        StartState::AwaitMonitor => event is MonitorResolved || event is MonitorFailed,
        StartState::AwaitCapture(_) => event is CaptureStarted || event is CaptureFailed,
        StartState::AwaitHooks => event is HooksInstalled || event is HooksFailed,
        StartState::Done => false,
    }
}

/// The error a refused capture start is reported as.
pub open spec fn capture_error(f: CaptureFailure) -> WinCaptureError {
    match f {
        CaptureFailure::CursorConfigUnsupported => WinCaptureError::OsTooOld,
        CaptureFailure::Unsupported => WinCaptureError::OsTooOld,
        CaptureFailure::BorderConfigUnsupported(msg) => WinCaptureError::Capture(msg),
        CaptureFailure::Other(msg) => WinCaptureError::Capture(msg),
    }
}

/// One step of starting a session: from where the recorder is and what just
/// happened, where it is now and what it must do.
///
/// A start while a session runs is refused (`AlreadyStarted`); the capture is
/// first asked to hide its border and, only if that is unsupported, asked
/// again with the default border; a capture that cannot exclude the cursor
/// means the system is too old; and when the hooks cannot be installed the
/// running capture is stopped before the error is reported.
pub fn start_step(state: StartState, event: StartEvent) -> (r: (StartState, StartAction))
    requires
        start_event_expected(state, event),
    ensures
        match (state, event) {
            (StartState::Idle, StartEvent::Requested { already_recording }) => if already_recording {
                r.0 == StartState::Done && r.1 matches StartAction::Fail(WinCaptureError::AlreadyStarted)
            } else {
                r.0 == StartState::AwaitMonitor && r.1 is ResolveMonitor
            },
            (StartState::AwaitMonitor, StartEvent::MonitorResolved) =>
                r.0 == StartState::AwaitCapture(BorderMode::WithoutBorder)
                && r.1 == StartAction::StartCapture(BorderMode::WithoutBorder),
            (StartState::AwaitMonitor, StartEvent::MonitorFailed(msg)) =>
                r.0 == StartState::Done && r.1 == StartAction::Fail(WinCaptureError::Monitor(msg)),
            (StartState::AwaitCapture(_), StartEvent::CaptureStarted) =>
                r.0 == StartState::AwaitHooks && r.1 is InstallHooks,
            (StartState::AwaitCapture(BorderMode::WithoutBorder), StartEvent::CaptureFailed(CaptureFailure::BorderConfigUnsupported(_))) =>
                r.0 == StartState::AwaitCapture(BorderMode::Default)
                && r.1 == StartAction::StartCapture(BorderMode::Default),
            (StartState::AwaitCapture(_), StartEvent::CaptureFailed(f)) =>
                r.0 == StartState::Done && r.1 == StartAction::Fail(capture_error(f)),
            (StartState::AwaitHooks, StartEvent::HooksInstalled) =>
                r.0 == StartState::Done && r.1 is Started,
            (StartState::AwaitHooks, StartEvent::HooksFailed(msg)) =>
                r.0 == StartState::Done && r.1 == StartAction::StopCaptureAndFail(WinCaptureError::Input(msg)),
            _ => false,
        },
{
    match state {
        StartState::Idle => match event {
            StartEvent::Requested { already_recording } => if already_recording {
                (StartState::Done, StartAction::Fail(WinCaptureError::AlreadyStarted))
            } else {
                (StartState::AwaitMonitor, StartAction::ResolveMonitor)
            },
            _ => (StartState::Done, StartAction::Started),
        },
        StartState::AwaitMonitor => match event {
            StartEvent::MonitorResolved => (
                StartState::AwaitCapture(BorderMode::WithoutBorder),
                StartAction::StartCapture(BorderMode::WithoutBorder),
            ),
            StartEvent::MonitorFailed(msg) => (StartState::Done, StartAction::Fail(WinCaptureError::Monitor(msg))),
            _ => (StartState::Done, StartAction::Started),
        },
        StartState::AwaitCapture(border) => match event {
            StartEvent::CaptureStarted => (StartState::AwaitHooks, StartAction::InstallHooks),
            StartEvent::CaptureFailed(f) => match (border, f) {
                (BorderMode::WithoutBorder, CaptureFailure::BorderConfigUnsupported(_)) => (
                    StartState::AwaitCapture(BorderMode::Default),
                    StartAction::StartCapture(BorderMode::Default),
                ),
                (_, CaptureFailure::CursorConfigUnsupported) => (StartState::Done, StartAction::Fail(WinCaptureError::OsTooOld)),
                (_, CaptureFailure::Unsupported) => (StartState::Done, StartAction::Fail(WinCaptureError::OsTooOld)),
                (_, CaptureFailure::BorderConfigUnsupported(msg)) => (StartState::Done, StartAction::Fail(WinCaptureError::Capture(msg))),
                (_, CaptureFailure::Other(msg)) => (StartState::Done, StartAction::Fail(WinCaptureError::Capture(msg))),
            },
            _ => (StartState::Done, StartAction::Started),
        },
        StartState::AwaitHooks => match event {
            StartEvent::HooksInstalled => (StartState::Done, StartAction::Started),
            StartEvent::HooksFailed(msg) => (StartState::Done, StartAction::StopCaptureAndFail(WinCaptureError::Input(msg))),
            _ => (StartState::Done, StartAction::Started),
        },
        StartState::Done => (StartState::Done, StartAction::Started),
    }
}

/// Frame-stamp bookkeeping of a running capture: the first frame's stamp
/// (the epoch of the whole recording), the latest frame's stamp, and how
/// many frames have arrived. Stamps are in 100 ns units.
#[derive(Clone, Copy, Debug, PartialEq, Eq, Structural)]
pub struct FrameStamps {
    pub first_ts_100ns: Option<i64>,
    pub last_ts_100ns: Option<i64>,
    pub frames: u64,
}

impl FrameStamps {
    /// The bookkeeping after one more frame stamped `ts`.
    pub open spec fn spec_record(self, ts: i64) -> FrameStamps {
        FrameStamps {
            first_ts_100ns: match self.first_ts_100ns {
                Some(first) => Some(first),
                None => Some(ts),
            },
            last_ts_100ns: Some(ts),
            frames: (self.frames + 1) as u64,
        }
    }

    /// Before any frame: no stamps, no frames.
    pub fn new() -> (r: FrameStamps)
        ensures
            r.first_ts_100ns is None,
            r.last_ts_100ns is None,
            r.frames == 0,
    {
        FrameStamps { first_ts_100ns: None, last_ts_100ns: None, frames: 0 }
    }

    /// Note a frame stamped `ts`: the first stamp is kept once set, the
    /// latest stamp is `ts`, and the count goes up by one.
    pub fn record(&mut self, ts: i64)
        requires
            old(self).frames < u64::MAX,
        ensures
            final(self).first_ts_100ns == (match old(self).first_ts_100ns {
                Some(first) => Some(first),
                None => Some(ts),
            }),
            final(self).last_ts_100ns == Some(ts),
            final(self).frames == old(self).frames + 1,
            *final(self) == old(self).spec_record(ts),
    {
        if self.first_ts_100ns.is_none() {
            self.first_ts_100ns = Some(ts);
        }
        self.last_ts_100ns = Some(ts);
        self.frames = self.frames + 1;
    }
}

/// The bookkeeping after frames stamped `stamps`, in arrival order, starting
/// from none.
pub open spec fn stamps_after(stamps: Seq<i64>) -> FrameStamps
    decreases stamps.len(),
{
    if stamps.len() == 0 {
        FrameStamps { first_ts_100ns: None, last_ts_100ns: None, frames: 0 }
    } else {
        stamps_after(stamps.drop_last()).spec_record(stamps.last())
    }
}

/// Whatever frames arrive, the recording's epoch is the first frame's stamp
/// (it never moves once set), the last stamp is the latest frame's, and the
/// count is the number of frames.
pub proof fn lemma_epoch_is_first_frame(stamps: Seq<i64>)
    requires
        stamps.len() <= u64::MAX,
    ensures
        stamps_after(stamps).frames == stamps.len(),
        stamps.len() == 0 ==> stamps_after(stamps).first_ts_100ns is None && stamps_after(stamps).last_ts_100ns is None,
        stamps.len() > 0 ==> stamps_after(stamps).first_ts_100ns == Some(stamps[0])
            && stamps_after(stamps).last_ts_100ns == Some(stamps.last()),
    decreases stamps.len(),
{
    if stamps.len() > 0 {
        let rest = stamps.drop_last();
        lemma_epoch_is_first_frame(rest);
        if rest.len() > 0 {
            assert(rest[0] == stamps[0]);
        }
    }
}

/// The timeline of a finished capture from the first and last frame stamps
/// (100 ns units): the epoch every input event is rebased against, and the
/// last frame's stamp (the epoch again when only one frame was stamped).
/// With no first frame there is no timeline: `NoFrames`.
pub fn frame_span(first_ts_100ns: Option<i64>, last_ts_100ns: Option<i64>) -> (r: Result<(i64, i64), WinCaptureError>)
    ensures
        match first_ts_100ns {
            None => r matches Err(WinCaptureError::NoFrames),
            Some(epoch) => r == Ok::<(i64, i64), WinCaptureError>((epoch, match last_ts_100ns {
                Some(last) => last,
                None => epoch,
            })),
        },
{
    match first_ts_100ns {
        None => Err(WinCaptureError::NoFrames),
        Some(epoch) => {
            let last = match last_ts_100ns {
                Some(last) => last,
                None => epoch,
            };
            Ok((epoch, last))
        },
    }
}

} // verus!
