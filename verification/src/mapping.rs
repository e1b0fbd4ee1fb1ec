//! Rebase captured input events onto the recording timeline and map their
//! coordinates from virtual-screen pixels into the captured surface.
//!
//! Times stay integral here: a rebased event carries its offset from the
//! first video frame in 100 ns units, so that sorting and dropping are exact.

use vstd::prelude::*;

use crate::events::MouseButton;
use crate::timebase::{lemma_conversion_keeps_counter_order, qpc_to_100ns, spec_qpc_to_100ns, trunc_div};

verus! {

/// What an input event was, with its pointer position where it has one.
/// Before mapping, positions are virtual-screen pixels; after, surface pixels.
#[derive(Clone, Copy, Debug, PartialEq, Eq, Structural)]
pub enum Kind {
    Move { x: i32, y: i32 },
    Down { x: i32, y: i32, button: MouseButton },
    Up { x: i32, y: i32, button: MouseButton },
    /// Wheel deltas in native units (positive = up / right).
    Wheel { x: i32, y: i32, dx: i32, dy: i32 },
    /// Key identity deliberately absent.
    KeyPress,
}

/// One captured input event on the raw performance-counter clock.
#[derive(Clone, Copy, Debug, PartialEq, Eq, Structural)]
pub struct Stamped {
    pub qpc: i64,
    pub kind: Kind,
}

/// One event on the recording timeline: `ticks` is the time since the first
/// video frame in 100 ns units (10 000 per millisecond), never negative.
#[derive(Clone, Copy, Debug, PartialEq, Eq, Structural)]
pub struct TimedEvent {
    pub ticks: i64,
    pub kind: Kind,
}

/// The event's time relative to the epoch, in 100 ns units.
pub open spec fn rebased_ticks(qpc: i64, freq: i64, epoch: i64) -> int {
    spec_qpc_to_100ns(qpc as int, freq as int) - epoch
}

/// A 32-bit size read as a signed 32-bit value (sizes past `i32::MAX` wrap
/// negative, so nothing fits in them).
pub open spec fn signed_extent(n: u32) -> int {
    if n <= i32::MAX { n as int } else { n - 0x1_0000_0000 }
}

/// A global point in surface space, or `None` when it lies off the monitor
/// whose top-left is `origin` and whose size is `size`.
pub open spec fn surface_point(x: i32, y: i32, origin: (i32, i32), size: (u32, u32)) -> Option<(i32, i32)> {
    let sx = x - origin.0;
    let sy = y - origin.1;
    if 0 <= sx < signed_extent(size.0) && 0 <= sy < signed_extent(size.1) {
        Some((sx as i32, sy as i32))
    } else {
        None
    }
}

/// The kind with its position mapped into surface space; pointer events off
/// the monitor give `None`, key presses always survive.
pub open spec fn surface_kind(kind: Kind, origin: (i32, i32), size: (u32, u32)) -> Option<Kind> {
    match kind {
        Kind::Move { x, y } => match surface_point(x, y, origin, size) {
            Some(p) => Some(Kind::Move { x: p.0, y: p.1 }),
            None => None,
        },
        Kind::Down { x, y, button } => match surface_point(x, y, origin, size) {
            Some(p) => Some(Kind::Down { x: p.0, y: p.1, button }),
            None => None,
        },
        Kind::Up { x, y, button } => match surface_point(x, y, origin, size) {
            Some(p) => Some(Kind::Up { x: p.0, y: p.1, button }),
            None => None,
        },
        Kind::Wheel { x, y, dx, dy } => match surface_point(x, y, origin, size) {
            Some(p) => Some(Kind::Wheel { x: p.0, y: p.1, dx, dy }),
            None => None,
        },
        Kind::KeyPress => Some(Kind::KeyPress),
    }
}

/// The timeline event a captured event becomes, if it is kept: events before
/// the epoch are dropped, and so are pointer events off the monitor.
pub open spec fn rebase_one(ev: Stamped, freq: i64, epoch: i64, origin: (i32, i32), size: (u32, u32)) -> Option<TimedEvent> {
    let t = rebased_ticks(ev.qpc, freq, epoch);
    if t < 0 {
        None
    } else {
        match surface_kind(ev.kind, origin, size) {
            Some(k) => Some(TimedEvent { ticks: t as i64, kind: k }),
            None => None,
        }
    }
}

pub open spec fn rebase_fn(freq: i64, epoch: i64, origin: (i32, i32), size: (u32, u32)) -> spec_fn(Stamped) -> Option<TimedEvent> {
    |ev: Stamped| rebase_one(ev, freq, epoch, origin, size)
}

/// The kept events, in capture order.
pub open spec fn kept_events(raw: Seq<Stamped>, freq: i64, epoch: i64, origin: (i32, i32), size: (u32, u32)) -> Seq<TimedEvent> {
    raw.filter_map(rebase_fn(freq, epoch, origin, size))
}

pub open spec fn has_ticks(k: i64) -> spec_fn(TimedEvent) -> bool {
    |e: TimedEvent| e.ticks == k
}

/// The events of `s` stamped exactly `k`, in their order in `s`.
pub open spec fn at_ticks(s: Seq<TimedEvent>, k: i64) -> Seq<TimedEvent> {
    s.filter(has_ticks(k))
}

pub open spec fn sorted_by_ticks(s: Seq<TimedEvent>) -> bool {
    forall|i: int, j: int| 0 <= i <= j < s.len() ==> s[i].ticks <= s[j].ticks
}

/// `sorted` is `events` stably sorted by time: ordered by ticks, and events
/// with equal ticks keep their relative order. (This determines `sorted`.)
pub open spec fn is_stable_sort_by_ticks(sorted: Seq<TimedEvent>, events: Seq<TimedEvent>) -> bool {
    &&& sorted.len() == events.len()
    &&& sorted_by_ticks(sorted)
    &&& forall|k: i64| #[trigger] at_ticks(sorted, k) == at_ticks(events, k)
}

/// The kind's position, if it has one, lies on a surface of `size`.
pub open spec fn on_surface(kind: Kind, size: (u32, u32)) -> bool {
    match kind {
        Kind::Move { x, y } => 0 <= x < size.0 && 0 <= y < size.1,
        Kind::Down { x, y, .. } => 0 <= x < size.0 && 0 <= y < size.1,
        Kind::Up { x, y, .. } => 0 <= x < size.0 && 0 <= y < size.1,
        Kind::Wheel { x, y, .. } => 0 <= x < size.0 && 0 <= y < size.1,
        Kind::KeyPress => true,
    }
}

/// Every captured event can be rebased without leaving the 64-bit range.
pub open spec fn rebase_in_range(raw: Seq<Stamped>, freq: i64, epoch: i64) -> bool {
    forall|i: int| 0 <= i < raw.len() ==> i64::MIN <= #[trigger] rebased_ticks(raw[i].qpc, freq, epoch) <= i64::MAX
}

/// What is kept, stated directly: a captured event survives exactly when it
/// is stamped at or after the first frame and is either a key press (which
/// has no position to clip) or a pointer event inside the monitor rectangle;
/// a survivor keeps its kind, button and wheel deltas, is timed relative to
/// the epoch, and is positioned relative to the monitor's top-left corner.
pub proof fn lemma_kept_exactly_when(ev: Stamped, freq: i64, epoch: i64, origin: (i32, i32), size: (u32, u32))
    requires
        i64::MIN <= (trunc_div(ev.qpc * 10_000_000, freq as int) as i64) - epoch <= i64::MAX,
    ensures
        rebase_one(ev, freq, epoch, origin, size) is Some <==> {
            &&& (trunc_div(ev.qpc * 10_000_000, freq as int) as i64) - epoch >= 0
            &&& match ev.kind {
                Kind::KeyPress => true,
                Kind::Move { x, y } | Kind::Down { x, y, .. } | Kind::Up { x, y, .. } | Kind::Wheel { x, y, .. } =>
                    origin.0 <= x < origin.0 + signed_extent(size.0) && origin.1 <= y < origin.1 + signed_extent(size.1),
            }
        },
        rebase_one(ev, freq, epoch, origin, size) matches Some(e) ==> {
            &&& e.ticks == (trunc_div(ev.qpc * 10_000_000, freq as int) as i64) - epoch
            &&& match (ev.kind, e.kind) {
                (Kind::KeyPress, Kind::KeyPress) => true,
                (Kind::Move { x, y }, Kind::Move { x: sx, y: sy }) => sx == x - origin.0 && sy == y - origin.1,
                (Kind::Down { x, y, button }, Kind::Down { x: sx, y: sy, button: b }) =>
                    sx == x - origin.0 && sy == y - origin.1 && b == button,
                (Kind::Up { x, y, button }, Kind::Up { x: sx, y: sy, button: b }) =>
                    sx == x - origin.0 && sy == y - origin.1 && b == button,
                (Kind::Wheel { x, y, dx, dy }, Kind::Wheel { x: sx, y: sy, dx: ex, dy: ey }) =>
                    sx == x - origin.0 && sy == y - origin.1 && ex == dx && ey == dy,
                _ => false,
            }
        },
{
}

proof fn lemma_bucket_member(s: Seq<TimedEvent>, k: i64)
    requires
        at_ticks(s, k).len() > 0,
    ensures
        exists|j: int| 0 <= j < s.len() && s[j].ticks == k,
{
    let e = at_ticks(s, k)[0];
    s.lemma_filter_pred(has_ticks(k), 0);
    assert(at_ticks(s, k).contains(e));
    s.lemma_filter_contains_rev(has_ticks(k), e);
}

/// Two time-sorted sequences that agree, tick by tick, on which events carry
/// each timestamp and in what order, are the same sequence.
proof fn lemma_sorted_with_same_buckets_equal(a: Seq<TimedEvent>, b: Seq<TimedEvent>)
    requires
        a.len() == b.len(),
        sorted_by_ticks(a),
        sorted_by_ticks(b),
        forall|k: i64| #[trigger] at_ticks(a, k) == at_ticks(b, k),
    ensures
        a == b,
    decreases a.len(),
{
    if a.len() == 0 {
        assert(a =~= b);
    } else {
        let n = a.len() - 1;
        let ea = a[n];
        let eb = b[n];
        let a1 = a.drop_last();
        let b1 = b.drop_last();
        assert(a == a1.push(ea));
        assert(b == b1.push(eb));
        assert forall|k: i64| #[trigger] at_ticks(a, k) == if ea.ticks == k { at_ticks(a1, k).push(ea) } else { at_ticks(a1, k) } by {
            a1.lemma_filter_push(ea, has_ticks(k));
        }
        assert forall|k: i64| #[trigger] at_ticks(b, k) == if eb.ticks == k { at_ticks(b1, k).push(eb) } else { at_ticks(b1, k) } by {
            b1.lemma_filter_push(eb, has_ticks(k));
        }
        assert(at_ticks(a, ea.ticks).len() > 0);
        assert(at_ticks(b, eb.ticks).len() > 0);
        assert(at_ticks(b, ea.ticks).len() > 0);
        assert(at_ticks(a, eb.ticks).len() > 0);
        lemma_bucket_member(b, ea.ticks);
        lemma_bucket_member(a, eb.ticks);
        let m = ea.ticks;
        assert(eb.ticks == m);
        assert(at_ticks(a, m).last() == ea);
        assert(at_ticks(b, m).last() == eb);
        assert(ea == eb);
        assert forall|k: i64| #[trigger] at_ticks(a1, k) == at_ticks(b1, k) by {
            if k == m {
                assert(at_ticks(a1, k) == at_ticks(a, k).drop_last());
                assert(at_ticks(b1, k) == at_ticks(b, k).drop_last());
            } else {
                assert(at_ticks(a, k) == at_ticks(b, k));
            }
        }
        lemma_sorted_with_same_buckets_equal(a1, b1);
    }
}

/// The stable sort by time is unique: two results that both meet the
/// contract of `rebase_and_map` for the same events are equal.
pub proof fn lemma_stable_sort_is_unique(a: Seq<TimedEvent>, b: Seq<TimedEvent>, events: Seq<TimedEvent>)
    requires
        is_stable_sort_by_ticks(a, events),
        is_stable_sort_by_ticks(b, events),
    ensures
        a == b,
{
    assert forall|k: i64| #[trigger] at_ticks(a, k) == at_ticks(b, k) by {
        assert(at_ticks(a, k) == at_ticks(events, k));
        assert(at_ticks(b, k) == at_ticks(events, k));
    }
    lemma_sorted_with_same_buckets_equal(a, b);
}

/// Events that already arrive in time order come back exactly as they are:
/// the sort only guarantees an order the hooks normally deliver anyway.
pub proof fn lemma_in_order_events_unchanged(out: Seq<TimedEvent>, events: Seq<TimedEvent>)
    requires
        is_stable_sort_by_ticks(out, events),
        sorted_by_ticks(events),
    ensures
        out == events,
{
    lemma_stable_sort_is_unique(out, events, events);
}

/// Counter stamps never decrease along the sequence.
pub open spec fn in_counter_order(raw: Seq<Stamped>) -> bool {
    forall|i: int, j: int| 0 <= i <= j < raw.len() ==> raw[i].qpc <= raw[j].qpc
}

/// No stamp's conversion to 100 ns units leaves the 64-bit range.
pub open spec fn conversions_fit(raw: Seq<Stamped>, freq: i64) -> bool {
    forall|i: int| 0 <= i < raw.len() ==> i64::MIN <= #[trigger] trunc_div(raw[i].qpc * 10_000_000, freq as int) <= i64::MAX
}

proof fn lemma_kept_in_order(raw: Seq<Stamped>, freq: i64, epoch: i64, origin: (i32, i32), size: (u32, u32))
    requires
        freq > 0,
        rebase_in_range(raw, freq, epoch),
        conversions_fit(raw, freq),
        in_counter_order(raw),
    ensures
        sorted_by_ticks(kept_events(raw, freq, epoch, origin, size)),
        raw.len() > 0 ==> forall|i: int| 0 <= i < kept_events(raw, freq, epoch, origin, size).len()
            ==> #[trigger] kept_events(raw, freq, epoch, origin, size)[i].ticks <= rebased_ticks(raw.last().qpc, freq, epoch),
    decreases raw.len(),
{
    if raw.len() > 0 {
        let f = rebase_fn(freq, epoch, origin, size);
        let rest = raw.drop_last();
        let last = raw.last();
        assert(rebase_in_range(rest, freq, epoch)) by {
            assert forall|i: int| 0 <= i < rest.len() implies i64::MIN <= #[trigger] rebased_ticks(rest[i].qpc, freq, epoch) <= i64::MAX by {
                assert(rest[i] == raw[i]);
            }
        }
        assert(conversions_fit(rest, freq)) by {
            assert forall|i: int| 0 <= i < rest.len() implies i64::MIN <= #[trigger] trunc_div(rest[i].qpc * 10_000_000, freq as int) <= i64::MAX by {
                assert(rest[i] == raw[i]);
            }
        }
        lemma_kept_in_order(rest, freq, epoch, origin, size);
        let kr = kept_events(rest, freq, epoch, origin, size);
        let k = kept_events(raw, freq, epoch, origin, size);
        assert(i64::MIN <= rebased_ticks(raw[raw.len() - 1].qpc, freq, epoch) <= i64::MAX);
        if rest.len() > 0 {
            assert(i64::MIN <= trunc_div(raw[rest.len() - 1].qpc * 10_000_000, freq as int) <= i64::MAX);
            assert(i64::MIN <= trunc_div(raw[raw.len() - 1].qpc * 10_000_000, freq as int) <= i64::MAX);
            lemma_conversion_keeps_counter_order(rest.last().qpc as int, last.qpc as int, freq as int);
        }
        assert forall|i: int| 0 <= i < kr.len() implies #[trigger] kr[i].ticks <= rebased_ticks(last.qpc, freq, epoch) by {
        }
        match f(last) {
            Some(e) => {
                assert(k == kr + seq![e]);
                assert(e.ticks == rebased_ticks(last.qpc, freq, epoch));
            },
            None => {
                assert(k == kr);
            },
        }
    }
}

/// Events that arrive in counter order, as the low-level hooks deliver them,
/// come out of `rebase_and_map` in capture order: the time sort moves nothing.
pub proof fn lemma_counter_order_is_capture_order(
    raw: Seq<Stamped>,
    freq: i64,
    epoch: i64,
    origin: (i32, i32),
    size: (u32, u32),
    out: Seq<TimedEvent>,
)
    requires
        freq > 0,
        rebase_in_range(raw, freq, epoch),
        conversions_fit(raw, freq),
        in_counter_order(raw),
        is_stable_sort_by_ticks(out, kept_events(raw, freq, epoch, origin, size)),
    ensures
        out == kept_events(raw, freq, epoch, origin, size),
{
    lemma_kept_in_order(raw, freq, epoch, origin, size);
    lemma_in_order_events_unchanged(out, kept_events(raw, freq, epoch, origin, size));
}

proof fn lemma_kept_contains(raw: Seq<Stamped>, f: spec_fn(Stamped) -> Option<TimedEvent>, i: int)
    requires
        0 <= i < raw.len(),
        f(raw[i]) is Some,
    ensures
        raw.filter_map(f).contains(f(raw[i]).unwrap()),
    decreases raw.len(),
{
    let rest = raw.drop_last();
    let x = f(raw[i]).unwrap();
    if i == raw.len() - 1 {
        match f(raw.last()) {
            Some(y) => {
                assert(raw.filter_map(f) == rest.filter_map(f) + seq![y]);
                assert(raw.filter_map(f)[rest.filter_map(f).len() as int] == x);
            },
            None => {},
        }
    } else {
        assert(rest[i] == raw[i]);
        lemma_kept_contains(rest, f, i);
        let k = choose|k: int| 0 <= k < rest.filter_map(f).len() && rest.filter_map(f)[k] == x;
        match f(raw.last()) {
            Some(y) => {
                assert(raw.filter_map(f) == rest.filter_map(f) + seq![y]);
                assert(raw.filter_map(f)[k] == x);
            },
            None => {
                assert(raw.filter_map(f) == rest.filter_map(f));
            },
        }
    }
}

/// What comes out of `rebase_and_map`, stated in terms of the input alone:
/// every output event is timed as some captured event — its counter reading
/// in 100 ns units (truncating division) minus the epoch, which is already in
/// 100 ns units — and every key press at or after the epoch is in the output
/// at exactly that time.
pub proof fn lemma_output_comes_from_input(
    out: Seq<TimedEvent>,
    raw: Seq<Stamped>,
    freq: i64,
    epoch: i64,
    origin: (i32, i32),
    size: (u32, u32),
)
    requires
        rebase_in_range(raw, freq, epoch),
        is_stable_sort_by_ticks(out, kept_events(raw, freq, epoch, origin, size)),
    ensures
        forall|j: int| 0 <= j < out.len() ==> exists|ii: int| 0 <= ii < raw.len()
            && (#[trigger] out[j]).ticks == (trunc_div((#[trigger] raw[ii]).qpc * 10_000_000, freq as int) as i64) - epoch,
        forall|ii: int| 0 <= ii < raw.len() && (#[trigger] raw[ii]).kind is KeyPress
            && (trunc_div(raw[ii].qpc * 10_000_000, freq as int) as i64) - epoch >= 0
            ==> exists|j: int| 0 <= j < out.len() && (#[trigger] out[j]) == (TimedEvent {
                ticks: ((trunc_div(raw[ii].qpc * 10_000_000, freq as int) as i64) - epoch) as i64,
                kind: Kind::KeyPress,
            }),
{
    let f = rebase_fn(freq, epoch, origin, size);
    let kept = kept_events(raw, freq, epoch, origin, size);
    assert forall|j: int| 0 <= j < out.len() implies exists|ii: int| 0 <= ii < raw.len()
        && (#[trigger] out[j]).ticks == (trunc_div((#[trigger] raw[ii]).qpc * 10_000_000, freq as int) as i64) - epoch by {
        let x = out[j];
        let k = x.ticks;
        out.lemma_filter_contains(has_ticks(k), j);
        assert(at_ticks(out, k) == at_ticks(kept, k));
        kept.lemma_filter_contains_rev(has_ticks(k), x);
        raw.lemma_filter_map_contains(f, x);
        let t = choose|t: Stamped| #[trigger] raw.contains(t) && f(t) == Some(x);
        let ii = choose|ii: int| 0 <= ii < raw.len() && raw[ii] == t;
        assert(i64::MIN <= rebased_ticks(raw[ii].qpc, freq, epoch) <= i64::MAX);
        assert(x.ticks == (trunc_div(raw[ii].qpc * 10_000_000, freq as int) as i64) - epoch);
    }
    assert forall|ii: int| 0 <= ii < raw.len() && (#[trigger] raw[ii]).kind is KeyPress
        && (trunc_div(raw[ii].qpc * 10_000_000, freq as int) as i64) - epoch >= 0
        implies exists|j: int| 0 <= j < out.len() && (#[trigger] out[j]) == (TimedEvent {
            ticks: ((trunc_div(raw[ii].qpc * 10_000_000, freq as int) as i64) - epoch) as i64,
            kind: Kind::KeyPress,
        }) by {
        assert(i64::MIN <= rebased_ticks(raw[ii].qpc, freq, epoch) <= i64::MAX);
        let x = TimedEvent {
            ticks: ((trunc_div(raw[ii].qpc * 10_000_000, freq as int) as i64) - epoch) as i64,
            kind: Kind::KeyPress,
        };
        assert(f(raw[ii]) == Some(x));
        lemma_kept_contains(raw, f, ii);
        let m = choose|m: int| 0 <= m < kept.len() && kept[m] == x;
        kept.lemma_filter_contains(has_ticks(x.ticks), m);
        assert(at_ticks(out, x.ticks) == at_ticks(kept, x.ticks));
        out.lemma_filter_contains_rev(has_ticks(x.ticks), x);
        let j = choose|j: int| 0 <= j < out.len() && out[j] == x;
        assert(out[j] == x);
    }
}

fn to_surface(x: i32, y: i32, origin: (i32, i32), size: (u32, u32)) -> (r: Option<(i32, i32)>)
    ensures
        r == surface_point(x, y, origin, size),
{
    let w: i64 = if size.0 <= 0x7fff_ffff { size.0 as i64 } else { size.0 as i64 - 0x1_0000_0000 };
    let h: i64 = if size.1 <= 0x7fff_ffff { size.1 as i64 } else { size.1 as i64 - 0x1_0000_0000 };
    let sx: i64 = x as i64 - origin.0 as i64;
    let sy: i64 = y as i64 - origin.1 as i64;
    if 0 <= sx && sx < w && 0 <= sy && sy < h {
        Some((sx as i32, sy as i32))
    } else {
        None
    }
}

fn to_surface_kind(kind: Kind, origin: (i32, i32), size: (u32, u32)) -> (r: Option<Kind>)
    ensures
        r == surface_kind(kind, origin, size),
{
    match kind {
        Kind::Move { x, y } => match to_surface(x, y, origin, size) {
            Some(p) => Some(Kind::Move { x: p.0, y: p.1 }),
            None => None,
        },
        Kind::Down { x, y, button } => match to_surface(x, y, origin, size) {
            Some(p) => Some(Kind::Down { x: p.0, y: p.1, button }),
            None => None,
        },
        Kind::Up { x, y, button } => match to_surface(x, y, origin, size) {
            Some(p) => Some(Kind::Up { x: p.0, y: p.1, button }),
            None => None,
        },
        Kind::Wheel { x, y, dx, dy } => match to_surface(x, y, origin, size) {
            Some(p) => Some(Kind::Wheel { x: p.0, y: p.1, dx, dy }),
            None => None,
        },
        Kind::KeyPress => Some(Kind::KeyPress),
    }
}

/// Rebase one captured event, or drop it.
pub fn rebase_event(ev: &Stamped, qpc_freq: i64, epoch_100ns: i64, origin: (i32, i32), size: (u32, u32)) -> (r: Option<TimedEvent>)
    requires
        qpc_freq != 0,
        i64::MIN <= rebased_ticks(ev.qpc, qpc_freq, epoch_100ns) <= i64::MAX,
    ensures
        r == rebase_one(*ev, qpc_freq, epoch_100ns, origin, size),
        // The time is the counter reading in 100 ns units (truncating
        // division) minus the epoch, which is already in 100 ns units.
        r matches Some(e) ==> e.ticks == (trunc_div(ev.qpc * 10_000_000, qpc_freq as int) as i64) - epoch_100ns,
        (trunc_div(ev.qpc * 10_000_000, qpc_freq as int) as i64) - epoch_100ns < 0 ==> r is None,
        ev.kind is KeyPress && (trunc_div(ev.qpc * 10_000_000, qpc_freq as int) as i64) - epoch_100ns >= 0
            ==> (r matches Some(e) && e.kind is KeyPress),
{
    let t: i64 = qpc_to_100ns(ev.qpc, qpc_freq) - epoch_100ns;
    if t < 0 {
        return None;
    }
    match to_surface_kind(ev.kind, origin, size) {
        Some(k) => Some(TimedEvent { ticks: t, kind: k }),
        None => None,
    }
}

proof fn lemma_insert_at_ticks(s: Seq<TimedEvent>, p: int, e: TimedEvent, k: i64)
    requires
        0 <= p <= s.len(),
        forall|j: int| 0 <= j < p ==> s[j].ticks <= e.ticks,
        forall|j: int| p <= j < s.len() ==> s[j].ticks > e.ticks,
    ensures
        at_ticks(s.insert(p, e), k) == if e.ticks == k { at_ticks(s, k).push(e) } else { at_ticks(s, k) },
{
    let a = s.subrange(0, p);
    let b = s.subrange(p, s.len() as int);
    let pred = has_ticks(k);
    assert(s == a + b);
    assert(s.insert(p, e) == a.push(e) + b);
    Seq::filter_distributes_over_add(a, b, pred);
    Seq::filter_distributes_over_add(a.push(e), b, pred);
    a.lemma_filter_push(e, pred);
    if e.ticks == k {
        assert(b.all(|x: TimedEvent| !pred(x)));
        b.lemma_all_neg_filter_empty(pred);
        assert(b.filter(pred) == Seq::<TimedEvent>::empty());
        assert(a.filter(pred) + b.filter(pred) == a.filter(pred));
        assert(a.filter(pred).push(e) + b.filter(pred) == a.filter(pred).push(e));
    }
}

/// Rebase each event's counter stamp onto the first-frame epoch and map its
/// position from virtual-screen pixels into surface space.
///
/// * `qpc_freq` — counter ticks per second.
/// * `epoch_100ns` — the first video frame's timestamp (100 ns units).
/// * `origin` — the captured monitor's top-left in virtual-screen pixels.
/// * `size` — the captured surface size in physical pixels.
///
/// Drops events before the epoch and pointer events outside the monitor, and
/// returns the rest stably sorted by time.
pub fn rebase_and_map(raw: &[Stamped], qpc_freq: i64, epoch_100ns: i64, origin: (i32, i32), size: (u32, u32)) -> (out: Vec<TimedEvent>)
    requires
        qpc_freq != 0,
        rebase_in_range(raw@, qpc_freq, epoch_100ns),
    ensures
        is_stable_sort_by_ticks(out@, kept_events(raw@, qpc_freq, epoch_100ns, origin, size)),
        forall|j: int| 0 <= j < out.len() ==> out@[j].ticks >= 0 && on_surface(#[trigger] out@[j].kind, size),
        // Every output event is timed as some captured event: its counter
        // reading in 100 ns units minus the epoch (already in 100 ns units).
        forall|j: int| 0 <= j < out.len() ==> exists|ii: int| 0 <= ii < raw.len()
            && (#[trigger] out@[j]).ticks == (trunc_div((#[trigger] raw@[ii]).qpc * 10_000_000, qpc_freq as int) as i64) - epoch_100ns,
        // Every key press at or after the epoch is in the output, at its time.
        forall|ii: int| 0 <= ii < raw.len() && (#[trigger] raw@[ii]).kind is KeyPress
            && (trunc_div(raw@[ii].qpc * 10_000_000, qpc_freq as int) as i64) - epoch_100ns >= 0
            ==> exists|j: int| 0 <= j < out.len() && (#[trigger] out@[j]) == (TimedEvent {
                ticks: ((trunc_div(raw@[ii].qpc * 10_000_000, qpc_freq as int) as i64) - epoch_100ns) as i64,
                kind: Kind::KeyPress,
            }),
{
    let ghost f = rebase_fn(qpc_freq, epoch_100ns, origin, size);
    let mut out: Vec<TimedEvent> = Vec::new();
    let mut i: usize = 0;
    while i < raw.len()
        invariant
            i <= raw.len(),
            qpc_freq != 0,
            rebase_in_range(raw@, qpc_freq, epoch_100ns),
            f == rebase_fn(qpc_freq, epoch_100ns, origin, size),
            is_stable_sort_by_ticks(out@, raw@.take(i as int).filter_map(f)),
            forall|j: int| 0 <= j < out.len() ==> out@[j].ticks >= 0 && on_surface(#[trigger] out@[j].kind, size),
        decreases raw.len() - i,
    {
        let ghost prev = out@;
        let ghost kept_prev = raw@.take(i as int).filter_map(f);
        proof {
            raw@.lemma_filter_map_take_succ(f, i as int);
            assert(rebase_in_range(raw@, qpc_freq, epoch_100ns));
            assert(i64::MIN <= rebased_ticks(raw@[i as int].qpc, qpc_freq, epoch_100ns) <= i64::MAX);
        }
        let ev = rebase_event(&raw[i], qpc_freq, epoch_100ns, origin, size);
        match ev {
            Some(e) => {
                let mut p: usize = out.len();
                while p > 0 && out[p - 1].ticks > e.ticks
                    invariant
                        out@ == prev,
                        p <= out.len(),
                        sorted_by_ticks(out@),
                        forall|j: int| p <= j < out.len() ==> out@[j].ticks > e.ticks,
                        forall|j: int| 0 <= j < out.len() ==> out@[j].ticks >= 0 && on_surface(#[trigger] out@[j].kind, size),
                    decreases p,
                {
                    p = p - 1;
                }
                assert forall|j: int| 0 <= j < p implies out@[j].ticks <= e.ticks by {
                    assert(out@[j].ticks <= out@[p - 1].ticks);
                }
                proof {
                    assert forall|k: i64| #[trigger] at_ticks(prev.insert(p as int, e), k) == at_ticks(kept_prev.push(e), k) by {
                        lemma_insert_at_ticks(prev, p as int, e, k);
                        kept_prev.lemma_filter_push(e, has_ticks(k));
                    }
                    prev.insert_ensures(p as int, e);
                }
                out.insert(p, e);
                assert(raw@.take(i + 1).filter_map(f) == kept_prev.push(e));
            },
            None => {
                assert(raw@.take(i + 1).filter_map(f) == kept_prev);
            },
        }
        i = i + 1;
    }
    assert(raw@.take(raw@.len() as int) == raw@);
    proof {
        lemma_output_comes_from_input(out@, raw@, qpc_freq, epoch_100ns, origin, size);
    }
    out
}

} // verus!
