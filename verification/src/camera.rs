//! Where the virtual camera's attention comes from: the moments in the event
//! log that deserve a push-in (clicks, and key presses when typing zooms).

use vstd::prelude::*;

use crate::events::EventKind;

verus! {

/// A point of interest, by reference into the event log: it happens at the
/// time of event `event` and is centred on the position of event `position`,
/// or on the origin `(0, 0)` when no pointer position has been seen yet.
#[derive(Clone, Copy, Debug, PartialEq, Eq, Structural)]
pub struct InterestSource {
    pub event: usize,
    pub position: Option<usize>,
}

/// Events of these kinds move the remembered cursor position.
pub open spec fn moves_cursor(k: EventKind) -> bool {
    k is MouseMove || k is MouseDown
}

/// The latest event before index `i` that moved the cursor.
pub open spec fn last_cursor_before(kinds: Seq<EventKind>, i: int) -> Option<int>
    decreases i,
{
    if i <= 0 {
        None
    } else if moves_cursor(kinds[i - 1]) {
        Some(i - 1)
    } else {
        last_cursor_before(kinds, i - 1)
    }
}

/// The point of interest event `i` yields: a click is one, at its own
/// position; a key press is one, at the last cursor position, when typing
/// zooms; nothing else is.
pub open spec fn interest_at(kinds: Seq<EventKind>, i: int, zoom_on_typing: bool) -> Option<(int, Option<int>)> {
    if kinds[i] is MouseDown {
        Some((i, Some(i)))
    } else if kinds[i] is KeyPress && zoom_on_typing {
        Some((i, last_cursor_before(kinds, i)))
    } else {
        None
    }
}

/// The points of interest of the first `n` events, in log order.
pub open spec fn interest_points_upto(kinds: Seq<EventKind>, n: int, zoom_on_typing: bool) -> Seq<(int, Option<int>)>
    decreases n,
{
    if n <= 0 {
        Seq::empty()
    } else {
        let prev = interest_points_upto(kinds, n - 1, zoom_on_typing);
        match interest_at(kinds, n - 1, zoom_on_typing) {
            Some(p) => prev.push(p),
            None => prev,
        }
    }
}

pub open spec fn source_view(s: InterestSource) -> (int, Option<int>) {
    (s.event as int, match s.position {
        Some(j) => Some(j as int),
        None => None,
    })
}

/// The latest cursor-moving event before `i` is found: `None` exactly when no
/// move or click precedes `i`, otherwise the last move or click before `i`.
pub proof fn lemma_last_cursor_is_latest_move_or_click(kinds: Seq<EventKind>, i: int)
    requires
        0 <= i <= kinds.len(),
    ensures
        match last_cursor_before(kinds, i) {
            None => forall|k: int| 0 <= k < i ==> !(#[trigger] kinds[k] is MouseMove || kinds[k] is MouseDown),
            Some(p) => 0 <= p < i && (kinds[p] is MouseMove || kinds[p] is MouseDown)
                && forall|k: int| p < k < i ==> !(#[trigger] kinds[k] is MouseMove || kinds[k] is MouseDown),
        },
    decreases i,
{
    if i > 0 {
        lemma_last_cursor_is_latest_move_or_click(kinds, i - 1);
    }
}

/// What the points of interest of the first `n` events are, stated directly:
/// they come in log order, one per event at most; every click is one, centred
/// on itself; when typing zooms, every key press is one, whatever precedes
/// it, centred on the latest move or click before it (the origin if none);
/// and nothing else is one.
pub proof fn lemma_interest_points_are_clicks_and_key_presses(kinds: Seq<EventKind>, n: int, zoom_on_typing: bool)
    requires
        0 <= n <= kinds.len(),
    ensures
        ({
            let pts = interest_points_upto(kinds, n, zoom_on_typing);
            &&& forall|j: int| 0 <= j < pts.len() ==> 0 <= (#[trigger] pts[j]).0 < n
                && (kinds[pts[j].0] is MouseDown || (zoom_on_typing && kinds[pts[j].0] is KeyPress))
            &&& forall|j1: int, j2: int| 0 <= j1 < j2 < pts.len() ==> (#[trigger] pts[j1]).0 < (#[trigger] pts[j2]).0
            &&& forall|i: int| 0 <= i < n && (#[trigger] kinds[i] is MouseDown || (zoom_on_typing && kinds[i] is KeyPress))
                ==> exists|j: int| 0 <= j < pts.len() && (#[trigger] pts[j]).0 == i
            &&& forall|j: int| 0 <= j < pts.len() && kinds[(#[trigger] pts[j]).0] is MouseDown ==> pts[j].1 == Some(pts[j].0)
            &&& forall|j: int| 0 <= j < pts.len() && kinds[(#[trigger] pts[j]).0] is KeyPress ==> match pts[j].1 {
                None => forall|k: int| 0 <= k < pts[j].0 ==> !(#[trigger] kinds[k] is MouseMove || kinds[k] is MouseDown),
                Some(p) => 0 <= p < pts[j].0 && (kinds[p] is MouseMove || kinds[p] is MouseDown)
                    && forall|k: int| p < k < pts[j].0 ==> !(#[trigger] kinds[k] is MouseMove || kinds[k] is MouseDown),
            }
        }),
    decreases n,
{
    if n > 0 {
        lemma_interest_points_are_clicks_and_key_presses(kinds, n - 1, zoom_on_typing);
        lemma_last_cursor_is_latest_move_or_click(kinds, n - 1);
        let prev = interest_points_upto(kinds, n - 1, zoom_on_typing);
        let pts = interest_points_upto(kinds, n, zoom_on_typing);
        match interest_at(kinds, n - 1, zoom_on_typing) {
            Some(pt) => {
                assert(pts == prev.push(pt));
                assert(pts[prev.len() as int] == pt);
                assert forall|j: int| 0 <= j < prev.len() implies pts[j] == prev[j] by {}
                assert forall|i: int| 0 <= i < n && (#[trigger] kinds[i] is MouseDown || (zoom_on_typing && kinds[i] is KeyPress))
                    implies exists|j: int| 0 <= j < pts.len() && (#[trigger] pts[j]).0 == i by {
                    if i == n - 1 {
                        assert(pts[prev.len() as int].0 == i);
                    } else {
                        let j = choose|j: int| 0 <= j < prev.len() && (#[trigger] prev[j]).0 == i;
                        assert(pts[j] == prev[j]);
                    }
                }
            },
            None => {
                assert(pts == prev);
            },
        }
    }
}

/// Scan the event log for the moments that deserve a push-in.
pub fn interest_point_sources(kinds: &[EventKind], zoom_on_typing: bool) -> (out: Vec<InterestSource>)
    ensures
        out@.map_values(|s: InterestSource| source_view(s)) == interest_points_upto(kinds@, kinds@.len() as int, zoom_on_typing),
        // In log order, at most one point per event, and only clicks and
        // (when typing zooms) key presses are points.
        forall|j: int| 0 <= j < out.len() ==> (#[trigger] out@[j]).event < kinds.len()
            && (kinds@[out@[j].event as int] is MouseDown || (zoom_on_typing && kinds@[out@[j].event as int] is KeyPress)),
        forall|j1: int, j2: int| 0 <= j1 < j2 < out.len() ==> (#[trigger] out@[j1]).event < (#[trigger] out@[j2]).event,
        // Every click is a point, and so is every key press when typing zooms.
        forall|i: int| 0 <= i < kinds.len() && (#[trigger] kinds@[i] is MouseDown || (zoom_on_typing && kinds@[i] is KeyPress))
            ==> exists|j: int| 0 <= j < out.len() && (#[trigger] out@[j]).event == i,
        // A click is centred on itself.
        forall|j: int| 0 <= j < out.len() && kinds@[(#[trigger] out@[j]).event as int] is MouseDown
            ==> out@[j].position == Some(out@[j].event),
        // A key press is centred on the latest move or click before it, or on
        // the origin when there is none.
        forall|j: int| 0 <= j < out.len() && kinds@[(#[trigger] out@[j]).event as int] is KeyPress ==> match out@[j].position {
            None => forall|k: int| 0 <= k < out@[j].event ==> !(#[trigger] kinds@[k] is MouseMove || kinds@[k] is MouseDown),
            Some(p) => p < out@[j].event && (kinds@[p as int] is MouseMove || kinds@[p as int] is MouseDown)
                && forall|k: int| p < k < out@[j].event ==> !(#[trigger] kinds@[k] is MouseMove || kinds@[k] is MouseDown),
        },
{
    let mut out: Vec<InterestSource> = Vec::new();
    let mut last_cursor: Option<usize> = None;
    let mut i: usize = 0;
    while i < kinds.len()
        invariant
            i <= kinds.len(),
            out@.map_values(|s: InterestSource| source_view(s)) == interest_points_upto(kinds@, i as int, zoom_on_typing),
            (match last_cursor {
                Some(j) => Some(j as int),
                None => None,
            }) == last_cursor_before(kinds@, i as int),
            forall|j: int| 0 <= j < out.len() ==> (#[trigger] out@[j]).event < i
                && (kinds@[out@[j].event as int] is MouseDown || (zoom_on_typing && kinds@[out@[j].event as int] is KeyPress)),
            forall|j1: int, j2: int| 0 <= j1 < j2 < out.len() ==> (#[trigger] out@[j1]).event < (#[trigger] out@[j2]).event,
            forall|ii: int| 0 <= ii < i && (#[trigger] kinds@[ii] is MouseDown || (zoom_on_typing && kinds@[ii] is KeyPress))
                ==> exists|j: int| 0 <= j < out.len() && (#[trigger] out@[j]).event == ii,
            forall|j: int| 0 <= j < out.len() && kinds@[(#[trigger] out@[j]).event as int] is MouseDown
                ==> out@[j].position == Some(out@[j].event),
            forall|j: int| 0 <= j < out.len() && kinds@[(#[trigger] out@[j]).event as int] is KeyPress ==> match out@[j].position {
                None => forall|k: int| 0 <= k < out@[j].event ==> !(#[trigger] kinds@[k] is MouseMove || kinds@[k] is MouseDown),
                Some(p) => p < out@[j].event && (kinds@[p as int] is MouseMove || kinds@[p as int] is MouseDown)
                    && forall|k: int| p < k < out@[j].event ==> !(#[trigger] kinds@[k] is MouseMove || kinds@[k] is MouseDown),
            },
            match last_cursor {
                None => forall|k: int| 0 <= k < i ==> !(#[trigger] kinds@[k] is MouseMove || kinds@[k] is MouseDown),
                Some(p) => p < i && (kinds@[p as int] is MouseMove || kinds@[p as int] is MouseDown)
                    && forall|k: int| p < k < i ==> !(#[trigger] kinds@[k] is MouseMove || kinds@[k] is MouseDown),
            },
        decreases kinds.len() - i,
    {
        let ghost prev = out@;
        match kinds[i] {
            EventKind::MouseMove => {
                last_cursor = Some(i);
            },
            EventKind::MouseDown => {
                last_cursor = Some(i);
                out.push(InterestSource { event: i, position: Some(i) });
            },
            EventKind::KeyPress => {
                if zoom_on_typing {
                    out.push(InterestSource { event: i, position: last_cursor });
                }
            },
            _ => {},
        }
        assert forall|ii: int| 0 <= ii < i + 1 && (#[trigger] kinds@[ii] is MouseDown || (zoom_on_typing && kinds@[ii] is KeyPress))
            implies exists|j: int| 0 <= j < out.len() && (#[trigger] out@[j]).event == ii by {
            if ii == i {
                assert(out@[out.len() - 1].event == ii);
            } else {
                let j = choose|j: int| 0 <= j < prev.len() && (#[trigger] prev[j]).event == ii;
                assert(out@[j] == prev[j]);
            }
        }
        assert(out@.map_values(|s: InterestSource| source_view(s)) =~= interest_points_upto(kinds@, i + 1, zoom_on_typing));
        i = i + 1;
    }
    out
}

} // verus!
