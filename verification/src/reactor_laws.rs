//! What holds of the reactor as a whole.
use vstd::prelude::*;

use crate::animation::AnimatedWindow;
use crate::effects::{EffectView, EventResponse, RaiseEventView, ResponseContext};
use crate::events::{Event, MouseState, Requested, WindowsOnScreen};
use crate::geometry::Rect;
use crate::ids::{Pid, WindowId};
use crate::number::Number;
use crate::ordered::{in_order, lemma_can_be_ordered};
use crate::reactions::{attempt_after, lemma_writes_add, lemma_writing_one, writes_to};
use crate::reactor_model::{
    with_found, Focus, PendingSpaceMove, ReactorView, RoundedTarget, FRAME_ATTEMPT_RESET, MAX_FRAME_ATTEMPTS,
};
use crate::request::TransactionId;
use crate::scratchpad::FractionalRect;
use crate::sequences::lemma_filter_from;
use crate::space::SpaceId;

verus! {

// ---- Applications ----

/// An application is hidden exactly if the last event said so; applications
/// that are not known stay unknown, and the others are not concerned.
pub proof fn hidden_state_follows_events(v: ReactorView, pid: Pid, hidden: bool, focus: Focus, other: Pid)
    ensures
        ({
            let after = v.handling(Event::ApplicationHiddenChanged(pid, hidden), focus).state;
            &&& after.app_hidden(pid) == (hidden && v.apps.dom().contains(pid))
            &&& after.apps.dom() == v.apps.dom()
            &&& other != pid ==> after.app_hidden(other) == v.app_hidden(other)
        }),
{
    let after = v.handling(Event::ApplicationHiddenChanged(pid, hidden), focus).state;
    assert(after.apps.dom() =~= v.apps.dom());
}

/// No other event hides or shows an application, but for its launch and its
/// end.
pub proof fn other_events_keep_hidden_state(v: ReactorView, event: Event, focus: Focus, pid: Pid)
    requires
        event matches Event::ApplicationHiddenChanged(p, _) ==> p != pid,
        event matches Event::ApplicationLaunched { pid: p, .. } ==> p != pid,
        event matches Event::ApplicationThreadTerminated(p) ==> p != pid,
    ensures
        v.handling(event, focus).state.app_hidden(pid) == v.app_hidden(pid),
{
}

/// Nothing stays known of an application whose thread has ended, and its
/// windows are not placed any more.
pub proof fn ended_application_is_forgotten(v: ReactorView, pid: Pid, focus: Focus, wid: WindowId)
    requires
        wid.pid == pid,
    ensures
        ({
            let after = v.handling(Event::ApplicationThreadTerminated(pid), focus).state;
            &&& !after.apps.dom().contains(pid)
            &&& !after.app_hidden(pid)
            &&& !after.pending_space_moves.dom().contains(wid)
        }),
{
}

/// Hiding a shown application cancels the moves of its windows and keeps those
/// of others.
pub proof fn hiding_cancels_moves(v: ReactorView, pid: Pid, focus: Focus, wid: WindowId)
    requires
        v.apps.dom().contains(pid),
        !v.app_hidden(pid),
    ensures
        ({
            let after = v.handling(Event::ApplicationHiddenChanged(pid, true), focus).state;
            after.pending_space_moves.dom().contains(wid) == (wid.pid != pid
                && v.pending_space_moves.dom().contains(wid))
        }),
{
}

/// Showing an application, or hiding a hidden one again, cancels no move.
pub proof fn showing_cancels_no_move(v: ReactorView, pid: Pid, hidden: bool, focus: Focus)
    requires
        !hidden || v.app_hidden(pid),
    ensures
        v.handling(Event::ApplicationHiddenChanged(pid, hidden), focus).state.pending_space_moves
            == v.pending_space_moves,
{
}

// ---- Windows ----

/// Nothing stays known of a destroyed window, and what was known of others
/// stays.
pub proof fn destroyed_window_is_forgotten(v: ReactorView, wid: WindowId, focus: Focus, other: WindowId)
    ensures
        ({
            let after = v.handling(Event::WindowDestroyed(wid), focus).state;
            &&& !after.windows.dom().contains(wid)
            &&& !after.pending_space_moves.dom().contains(wid)
            &&& !after.frame_attempts.dom().contains(wid)
            &&& other != wid ==> after.windows.dom().contains(other) == v.windows.dom().contains(other)
            &&& other != wid && v.windows.dom().contains(other) ==> after.windows[other] == v.windows[other]
        }),
{
}

proof fn lemma_found_keeps(
    windows: Map<WindowId, crate::reactor_model::WindowState>,
    found: Seq<(WindowId, crate::apps::WindowInfo)>,
    wid: WindowId,
)
    ensures
        windows.dom().contains(wid) ==> with_found(windows, found).dom().contains(wid),
    decreases found.len(),
{
    if found.len() > 0 {
        lemma_found_keeps(windows, found.drop_last(), wid);
    }
}

/// Only the end of a window makes it unknown: no other event removes a window.
pub proof fn windows_stay_known(v: ReactorView, event: Event, focus: Focus, wid: WindowId)
    requires
        v.windows.dom().contains(wid),
        event != Event::WindowDestroyed(wid),
    ensures
        v.handling(event, focus).state.windows.dom().contains(wid),
{
    match event {
        Event::ApplicationLaunched { visible_windows, .. } => lemma_found_keeps(v.windows, visible_windows@, wid),
        Event::WindowsDiscovered { new, .. } => lemma_found_keeps(v.windows, new@, wid),
        Event::WindowsOnScreenUpdated { on_screen, .. } => lemma_reported_keeps(v, on_screen, wid),
        Event::ScreenParametersChanged { on_screen, .. } => lemma_reported_keeps(v, on_screen, wid),
        Event::SpaceChanged(_, on_screen) => lemma_reported_keeps(v, on_screen, wid),
        _ => {},
    }
}

proof fn lemma_reported_keeps(v: ReactorView, on_screen: WindowsOnScreen, wid: WindowId)
    ensures
        v.windows.dom().contains(wid) ==> crate::reactor_model::with_reported_frames(
            v.windows,
            v.window_ids,
            on_screen.info@,
        ).dom().contains(wid),
{
    lemma_reported_keeps_in(v, on_screen.info@, wid);
}

proof fn lemma_reported_keeps_in(v: ReactorView, infos: Seq<crate::events::WindowServerInfo>, wid: WindowId)
    ensures
        v.windows.dom().contains(wid) ==> crate::reactor_model::with_reported_frames(
            v.windows,
            v.window_ids,
            infos,
        ).dom().contains(wid),
    decreases infos.len(),
{
    if infos.len() > 0 {
        lemma_reported_keeps_in(v, infos.drop_last(), wid);
    }
}

/// The windows on screen are those of the last report, in each event that
/// brings one.
pub proof fn visible_windows_are_those_reported(v: ReactorView, pid: Option<Pid>, on_screen: WindowsOnScreen, focus: Focus)
    ensures
        v.handling(Event::WindowsOnScreenUpdated { pid, on_screen }, focus).state.visible_windows
            == on_screen.visible@.to_set(),
{
}

/// A report for one app changes no frame.
pub proof fn report_for_an_app_changes_no_frame(v: ReactorView, pid: Pid, on_screen: WindowsOnScreen, focus: Focus)
    ensures
        v.handling(Event::WindowsOnScreenUpdated { pid: Some(pid), on_screen }, focus).state.windows == v.windows,
{
}

// ---- Screens ----

/// A window overlaps at most one screen the most.
pub proof fn best_screen_is_unique(v: ReactorView, frame: Rect, i: int, j: int)
    requires
        v.overlaps_most(frame, i),
        v.overlaps_most(frame, j),
    ensures
        i == j,
        v.best_screen(frame) == Some(i),
{
    assert(v.overlap(i, frame).positive() && v.overlap(j, frame).positive());
    let k = choose|k: int| v.overlaps_most(frame, k);
    assert(v.overlaps_most(frame, k));
    assert(v.overlap(k, frame).positive());
}

/// A window with no area is placed by its middle, on the first screen that
/// holds it.
pub proof fn window_without_area_is_placed_by_its_middle(v: ReactorView, frame: Rect, i: int)
    requires
        v.holds_middle(frame, i),
        forall|k: int| 0 <= k < v.screens.len() ==> !(#[trigger] v.overlap(k, frame)).positive(),
    ensures
        v.best_screen(frame) == Some(i),
{
    assert(!exists|k: int| v.overlaps_most(frame, k)) by {
        if exists|k: int| v.overlaps_most(frame, k) {
            let k = choose|k: int| v.overlaps_most(frame, k);
            assert(!v.overlap(k, frame).positive());
        }
    }
    let k = choose|k: int| v.holds_middle(frame, k);
    assert(v.holds_middle(frame, k));
    assert(v.overlap(i, frame).holds_middle);
    assert(v.overlap(k, frame).holds_middle);
}

/// A window that is on no screen belongs to no space.
pub proof fn window_off_screen_is_on_no_space(v: ReactorView, frame: Rect)
    requires
        forall|k: int|
            0 <= k < v.screens.len() ==> !(#[trigger] v.overlap(k, frame)).positive() && !v.overlap(
                k,
                frame,
            ).holds_middle,
    ensures
        v.best_screen(frame) is None,
        v.best_space(frame) is None,
{
    assert(!exists|k: int| v.overlaps_most(frame, k)) by {
        if exists|k: int| v.overlaps_most(frame, k) {
            let k = choose|k: int| v.overlaps_most(frame, k);
            assert(!v.overlap(k, frame).positive());
        }
    }
    assert(!exists|k: int| v.holds_middle(frame, k)) by {
        if exists|k: int| v.holds_middle(frame, k) {
            let k = choose|k: int| v.holds_middle(frame, k);
            assert(!v.overlap(k, frame).holds_middle);
        }
    }
}

/// A change of the active screen is told once.
pub proof fn active_screen_is_told_once(v: ReactorView)
    ensures
        v.activating_screen().state.activating_screen().effects == Seq::<EffectView>::empty(),
        v.activating_screen().state.activating_screen().state == v.activating_screen().state,
{
    let after = v.activating_screen().state;
    assert(after.screens == v.screens && after.measured == v.measured);
    match v.main_window {
        Some(wid) => if v.windows.dom().contains(wid) {
            let frame = v.windows[wid].frame_monotonic;
            lemma_same_best_screen(v, after, frame);
        },
        None => {},
    }
}

/// The best screen depends on the screens and on what was measured alone.
pub proof fn lemma_same_best_screen(v: ReactorView, w: ReactorView, frame: Rect)
    requires
        v.screens == w.screens,
        v.measured == w.measured,
    ensures
        v.best_screen(frame) == w.best_screen(frame),
{
    assert forall|i: int| v.overlaps_most(frame, i) == w.overlaps_most(frame, i) by {
        assert forall|k: int| v.overlap(k, frame) == w.overlap(k, frame) by {}
        if v.overlaps_most(frame, i) {
            assert(w.overlaps_most(frame, i));
        }
        if w.overlaps_most(frame, i) {
            assert(v.overlaps_most(frame, i));
        }
    }
    assert forall|i: int| v.holds_middle(frame, i) == w.holds_middle(frame, i) by {
        assert forall|k: int| v.overlap(k, frame) == w.overlap(k, frame) by {}
        if v.holds_middle(frame, i) {
            assert(w.holds_middle(frame, i));
        }
        if w.holds_middle(frame, i) {
            assert(v.holds_middle(frame, i));
        }
    }
    if exists|i: int| v.overlaps_most(frame, i) {
        let a = choose|i: int| v.overlaps_most(frame, i);
        let b = choose|i: int| w.overlaps_most(frame, i);
        assert(w.overlaps_most(frame, a));
        assert(w.overlaps_most(frame, b));
        best_screen_is_unique(w, frame, a, b);
    } else {
        assert(!exists|i: int| w.overlaps_most(frame, i));
        if exists|i: int| v.holds_middle(frame, i) {
            let a = choose|i: int| v.holds_middle(frame, i);
            let b = choose|i: int| w.holds_middle(frame, i);
            assert(w.holds_middle(frame, a));
            assert(w.holds_middle(frame, b));
            assert(w.overlap(a, frame).holds_middle && w.overlap(b, frame).holds_middle);
        } else {
            assert(!exists|i: int| w.holds_middle(frame, i));
        }
    }
}

/// A change of space that does not fit the screens does nothing but update the
/// windows on screen.
pub proof fn ill_fitting_space_change_does_nothing(
    v: ReactorView,
    spaces: Vec<Option<SpaceId>>,
    on_screen: WindowsOnScreen,
    focus: Focus,
)
    requires
        spaces@.len() != v.screens.len(),
    ensures
        ({
            let after = v.handling(Event::SpaceChanged(spaces, on_screen), focus);
            &&& after.effects == Seq::<EffectView>::empty()
            &&& after.state.screens == v.screens
            &&& after.state.in_drag == v.in_drag
        }),
{
}

// ---- Mouse ----

/// No frame is written while something is dragged.
pub proof fn dragging_writes_no_frame(
    v: ReactorView,
    raised_window: Option<WindowId>,
    new_wids: Seq<WindowId>,
    is_resize: bool,
    i: int,
)
    requires
        v.in_drag,
        0 <= i < v.finishing(raised_window, new_wids, is_resize).len(),
    ensures
        !(v.finishing(raised_window, new_wids, is_resize)[i] is UpdateLayout),
{
}

/// Every drag and every resize ends with the mouse button.
pub proof fn mouse_up_ends_the_drag(v: ReactorView, focus: Focus)
    ensures
        !v.handling(Event::MouseUp, focus).state.in_drag,
        v.handling(Event::MouseUp, focus).state.resizing_window is None,
{
}

/// The scroll wheel alone does nothing: the modifier key must be held and
/// scrolling be enabled.
pub proof fn scrolling_needs_the_modifier(v: ReactorView, delta_x: Number, delta_y: Number, alt_held: bool, focus: Focus)
    requires
        !alt_held || !v.settings.scroll_enabled,
    ensures
        v.handling(Event::ScrollWheel { delta_x, delta_y, alt_held }, focus).effects == Seq::<EffectView>::empty(),
{
}

// ---- Frames ----

/// A frame that was read before the last write, or that was asked for, is
/// ignored.
pub proof fn stale_frame_is_ignored(
    v: ReactorView,
    wid: WindowId,
    frame: Rect,
    last_seen: TransactionId,
    requested: Requested,
    mouse: Option<MouseState>,
    focus: Focus,
)
    requires
        v.windows.dom().contains(wid),
        last_seen != v.windows[wid].last_sent_txid || requested.0,
    ensures
        ({
            let after = v.handling(Event::WindowFrameChanged(wid, frame, last_seen, requested, mouse), focus);
            &&& after.effects == Seq::<EffectView>::empty()
            &&& after.state.windows == v.windows
        }),
{
}

/// A frame that was read after the last write is the frame of the window.
pub proof fn fresh_frame_is_kept(
    v: ReactorView,
    wid: WindowId,
    frame: Rect,
    mouse: Option<MouseState>,
    focus: Focus,
)
    requires
        v.windows.dom().contains(wid),
    ensures
        v.handling(
            Event::WindowFrameChanged(wid, frame, v.windows[wid].last_sent_txid, Requested(false), mouse),
            focus,
        ).state.windows[wid].frame_monotonic == frame,
{
}

/// A frame that is written is the frame of the window from then on, under a new
/// transaction; a report from before the write is ignored.
pub proof fn written_frame_is_monotonic(
    v: ReactorView,
    t: RoundedTarget,
    new_wids: Seq<WindowId>,
    now: u64,
    reported: Rect,
    mouse: Option<MouseState>,
    focus: Focus,
)
    requires
        v.writing_one(t, new_wids, now).1.len() > 0,
        v.windows[t.wid].last_sent_txid.0 < u32::MAX,
    ensures
        ({
            let (after, written) = v.writing_one(t, new_wids, now);
            let window = after.windows[t.wid];
            let report = Event::WindowFrameChanged(
                t.wid,
                reported,
                v.windows[t.wid].last_sent_txid,
                Requested(false),
                mouse,
            );
            &&& written.len() == 1
            &&& written[0].wid == t.wid && written[0].finish == t.frame
            &&& window.frame_monotonic == t.frame
            &&& window.last_sent_txid.0 == v.windows[t.wid].last_sent_txid.0 + 1
            &&& written[0].txid == window.last_sent_txid
            &&& after.handling(report, focus).state.windows[t.wid].frame_monotonic == t.frame
            &&& after.handling(report, focus).effects == Seq::<EffectView>::empty()
        }),
{
}

/// The window that the user resizes is not written to.
pub proof fn resized_window_is_left_alone(v: ReactorView, t: RoundedTarget, new_wids: Seq<WindowId>, now: u64)
    requires
        v.resizing_window == Some(t.wid),
    ensures
        v.writing_one(t, new_wids, now) == (v, Seq::<AnimatedWindow>::empty()),
{
}

/// The two states agree on what writing a frame to the window depends on.
pub open spec fn alike(a: ReactorView, b: ReactorView, wid: WindowId) -> bool {
    &&& a.windows.dom().contains(wid) == b.windows.dom().contains(wid)
    &&& a.windows[wid] == b.windows[wid]
    &&& a.last_attempt(wid) == b.last_attempt(wid)
    &&& a.apps == b.apps
    &&& a.resizing_window == b.resizing_window
}

/// The targets of the window.
pub open spec fn aims_at(targets: Seq<RoundedTarget>, wid: WindowId) -> Seq<RoundedTarget> {
    targets.filter(|t: RoundedTarget| t.wid == wid)
}

/// What is written to a window does not depend on the targets of the others.
pub proof fn windows_are_written_separately(
    v: ReactorView,
    targets: Seq<RoundedTarget>,
    new_wids: Seq<WindowId>,
    now: u64,
    wid: WindowId,
)
    ensures
        alike(
            v.writing(targets, new_wids, now).0,
            v.writing(aims_at(targets, wid), new_wids, now).0,
            wid,
        ),
        writes_to(v.writing(targets, new_wids, now).1, wid) == v.writing(aims_at(targets, wid), new_wids, now).1,
    decreases targets.len(),
{
    reveal(Seq::filter);
    if targets.len() > 0 {
        let rest = targets.drop_last();
        let t = targets.last();
        windows_are_written_separately(v, rest, new_wids, now, wid);
        let before = v.writing(rest, new_wids, now);
        let one = before.0.writing_one(t, new_wids, now);
        lemma_writing_one(before.0, t, new_wids, now, wid);
        lemma_writes_add(before.1, one.1, wid);
        if t.wid == wid {
            let mine = aims_at(rest, wid);
            assert(aims_at(targets, wid) == mine.push(t));
            assert(mine.push(t).drop_last() =~= mine);
            let apart = v.writing(mine, new_wids, now);
            lemma_writing_one(apart.0, t, new_wids, now, wid);
            assert(apart.0.writing_one(t, new_wids, now).1 == one.1);
        } else {
            assert(before.1 + one.1 == v.writing(targets, new_wids, now).1);
            assert(writes_to(before.1, wid) + Seq::empty() =~= writes_to(before.1, wid));
        }
    } else {
        assert(aims_at(targets, wid) =~= Seq::empty());
    }
}

/// A layout that is written, and the state it is written in.
pub struct Call {
    pub before: ReactorView,
    pub targets: Seq<RoundedTarget>,
    pub new_wids: Seq<WindowId>,
    pub now: u64,
}

impl Call {
    pub open spec fn after(self) -> ReactorView {
        self.before.writing(self.targets, self.new_wids, self.now).0
    }

    /// What is written to the window.
    pub open spec fn writes(self, wid: WindowId) -> Seq<AnimatedWindow> {
        writes_to(self.before.writing(self.targets, self.new_wids, self.now).1, wid)
    }

    /// The frame that the window should have.
    pub open spec fn aim(self, wid: WindowId) -> RoundedTarget {
        aims_at(self.targets, wid)[0]
    }

    /// The call tries to write a frame to the window.
    pub open spec fn tries(self, wid: WindowId) -> bool {
        aims_at(self.targets, wid).len() > 0 && self.before.moves(self.aim(wid))
    }

    /// The earlier attempts that the call counts its own with: those of the same
    /// frame, without a long pause.
    pub open spec fn continued(self, wid: WindowId) -> int {
        match self.before.last_attempt(wid) {
            Some(last) => if self.aim(wid).same_as_attempt && self.now - last.last <= FRAME_ATTEMPT_RESET {
                last.count as int
            } else {
                0
            },
            None => 0,
        }
    }

    /// The call wants the same frame as the last attempt, soon after it.
    pub open spec fn insists(self, wid: WindowId) -> bool {
        self.before.last_attempt(wid) matches Some(last) && self.aim(wid).same_as_attempt && self.now - last.last
            <= FRAME_ATTEMPT_RESET
    }
}

/// Layouts that are written one after the other, and that give the window at
/// most one frame each. Whatever happens between two of them, it keeps the last
/// attempt. Those that try to write to the window want the same frame, with no
/// long pause between them.
pub open spec fn insistent(calls: Seq<Call>, wid: WindowId) -> bool {
    &&& forall|i: int| 0 <= i < calls.len() ==> aims_at((#[trigger] calls[i]).targets, wid).len() <= 1
    &&& forall|i: int, j: int|
        0 <= i < j < calls.len() && j == i + 1 ==> (#[trigger] calls[j]).before.last_attempt(wid) == (
        #[trigger] calls[i]).after().last_attempt(wid)
    &&& forall|i: int, j: int|
        0 <= i < j < calls.len() && (#[trigger] calls[i]).tries(wid) && (#[trigger] calls[j]).tries(wid)
            ==> calls[j].insists(wid)
}

/// How many of the calls try to write to the window.
pub open spec fn tries_in(calls: Seq<Call>, wid: WindowId) -> nat
    decreases calls.len(),
{
    if calls.len() == 0 {
        0
    } else if calls.last().tries(wid) {
        tries_in(calls.drop_last(), wid) + 1
    } else {
        tries_in(calls.drop_last(), wid)
    }
}

/// How many frames the calls write to the window.
pub open spec fn writes_in(calls: Seq<Call>, wid: WindowId) -> nat
    decreases calls.len(),
{
    if calls.len() == 0 {
        0
    } else {
        writes_in(calls.drop_last(), wid) + calls.last().writes(wid).len()
    }
}

/// The attempts before the calls that count with those of the calls: those that
/// the first call that tries continues.
pub open spec fn earlier_attempts(calls: Seq<Call>, wid: WindowId) -> int
    decreases calls.len(),
{
    if calls.len() == 0 {
        0
    } else if calls.last().tries(wid) && tries_in(calls.drop_last(), wid) == 0 {
        calls.last().continued(wid)
    } else {
        earlier_attempts(calls.drop_last(), wid)
    }
}

/// The attempts that a call counts its own with: those before the calls, and
/// those of the calls before it.
pub open spec fn attempts_before(calls: Seq<Call>, wid: WindowId, i: int) -> int {
    if tries_in(calls.take(i), wid) > 0 {
        earlier_attempts(calls.take(i), wid) + tries_in(calls.take(i), wid)
    } else {
        calls[i].continued(wid)
    }
}

/// The smaller number.
pub open spec fn smaller(a: int, b: int) -> int {
    if a <= b {
        a
    } else {
        b
    }
}

/// How many attempts are written, if there were others before.
pub open spec fn writes_of(earlier: int, attempts: int) -> int {
    smaller(attempts, MAX_FRAME_ATTEMPTS - smaller(earlier, MAX_FRAME_ATTEMPTS as int))
}

/// A frame that an app does not keep, but moves its window back again and
/// again, is written five times at most, the attempts before included, and
/// exactly so often if the app is known. A call that tries after five attempts,
/// or that does not try, writes nothing to the window and leaves its frame and
/// its transaction as they are.
pub proof fn frame_that_is_not_kept_is_given_up(calls: Seq<Call>, wid: WindowId, i: int)
    requires
        insistent(calls, wid),
        0 <= i < calls.len(),
    ensures
        writes_in(calls, wid) <= writes_of(earlier_attempts(calls, wid), tries_in(calls, wid) as int),
        writes_in(calls, wid) <= MAX_FRAME_ATTEMPTS,
        (forall|k: int| 0 <= k < calls.len() ==> (#[trigger] calls[k]).before.apps.dom().contains(wid.pid))
            ==> writes_in(calls, wid) == writes_of(earlier_attempts(calls, wid), tries_in(calls, wid) as int),
        !calls[i].tries(wid) || attempts_before(calls, wid, i) >= MAX_FRAME_ATTEMPTS ==> {
            &&& calls[i].writes(wid) == Seq::<AnimatedWindow>::empty()
            &&& calls[i].after().windows[wid] == calls[i].before.windows[wid]
        },
{
    lemma_calls(calls, wid);
    lemma_call(calls[i], wid);
    let first = calls.take(i);
    lemma_calls_before(calls, wid, i);
    lemma_calls(first, wid);
    if i > 0 {
        assert(first.last() == calls[i - 1]);
        assert(calls[i].before.last_attempt(wid) == calls[i - 1].after().last_attempt(wid));
        if tries_in(first, wid) > 0 && calls[i].tries(wid) {
            let k = lemma_some_try(first, wid);
            assert(first[k] == calls[k]);
        }
    }
}

/// One call: an attempt is counted, and written unless there were too many.
proof fn lemma_call(c: Call, wid: WindowId)
    requires
        aims_at(c.targets, wid).len() <= 1,
    ensures
        c.tries(wid) ==> {
            let attempt = attempt_after(c.before.last_attempt(wid), c.aim(wid), c.now);
            &&& c.after().last_attempt(wid) == Some(attempt)
            &&& c.writes(wid).len() <= 1
            &&& attempt.count <= MAX_FRAME_ATTEMPTS && c.before.apps.dom().contains(wid.pid) ==> c.writes(wid).len()
                == 1
            &&& attempt.count > MAX_FRAME_ATTEMPTS ==> c.writes(wid) == Seq::<AnimatedWindow>::empty()
            &&& attempt.count > MAX_FRAME_ATTEMPTS ==> c.after().windows[wid] == c.before.windows[wid]
        },
        !c.tries(wid) ==> {
            &&& c.after().last_attempt(wid) == c.before.last_attempt(wid)
            &&& c.writes(wid) == Seq::<AnimatedWindow>::empty()
            &&& c.after().windows[wid] == c.before.windows[wid]
        },
{
    let v = c.before;
    let aims = aims_at(c.targets, wid);
    windows_are_written_separately(v, c.targets, c.new_wids, c.now, wid);
    assert(v.writing(Seq::empty(), c.new_wids, c.now) == (v, Seq::<AnimatedWindow>::empty()));
    if aims.len() == 0 {
        assert(aims =~= Seq::empty());
    } else {
        let t = aims[0];
        assert(aims.contains(t));
        lemma_filter_from(c.targets, |t: RoundedTarget| t.wid == wid, t);
        assert(aims.drop_last() =~= Seq::empty());
        let one = v.writing_one(t, c.new_wids, c.now);
        assert(v.writing(aims, c.new_wids, c.now).1 =~= one.1);
        assert(v.writing(aims, c.new_wids, c.now).0 == one.0);
    }
}

/// What is asked of calls holds of the first of them.
proof fn lemma_calls_before(calls: Seq<Call>, wid: WindowId, n: int)
    requires
        insistent(calls, wid),
        0 <= n <= calls.len(),
    ensures
        insistent(calls.take(n), wid),
{
    let first = calls.take(n);
    assert forall|i: int| 0 <= i < first.len() implies aims_at((#[trigger] first[i]).targets, wid).len() <= 1 by {
        assert(first[i] == calls[i]);
    }
    assert forall|i: int, j: int| 0 <= i < j < first.len() && j == i + 1 implies (#[trigger] first[j]).before.last_attempt(
        wid,
    ) == (#[trigger] first[i]).after().last_attempt(wid) by {
        assert(first[i] == calls[i] && first[j] == calls[j]);
    }
    assert forall|i: int, j: int|
        0 <= i < j < first.len() && (#[trigger] first[i]).tries(wid) && (#[trigger] first[j]).tries(
            wid,
        ) implies first[j].insists(wid) by {
        assert(first[i] == calls[i] && first[j] == calls[j]);
    }
}

/// If some call tries, here is one.
proof fn lemma_some_try(calls: Seq<Call>, wid: WindowId) -> (k: int)
    requires
        tries_in(calls, wid) > 0,
    ensures
        0 <= k < calls.len(),
        calls[k].tries(wid),
    decreases calls.len(),
{
    if calls.last().tries(wid) {
        calls.len() - 1
    } else {
        let k = lemma_some_try(calls.drop_last(), wid);
        k
    }
}

proof fn lemma_calls(calls: Seq<Call>, wid: WindowId)
    requires
        insistent(calls, wid),
    ensures
        ({
            let earlier = earlier_attempts(calls, wid);
            let tried = tries_in(calls, wid) as int;
            &&& earlier >= 0
            &&& tried > 0 ==> {
                &&& calls.last().after().last_attempt(wid) matches Some(last)
                &&& last.count == smaller(earlier + tried, u32::MAX as int)
            }
            &&& writes_in(calls, wid) <= writes_of(earlier, tried)
            &&& (forall|k: int| 0 <= k < calls.len() ==> (#[trigger] calls[k]).before.apps.dom().contains(wid.pid))
                ==> writes_in(calls, wid) == writes_of(earlier, tried)
        }),
    decreases calls.len(),
{
    if calls.len() > 0 {
        let n = calls.len() - 1;
        let rest = calls.drop_last();
        let c = calls.last();
        assert(rest =~= calls.take(n));
        assert(c == calls[n]);
        lemma_calls_before(calls, wid, n);
        lemma_calls(rest, wid);
        lemma_call(c, wid);
        if tries_in(rest, wid) > 0 {
            assert(rest.last() == calls[n - 1]);
            assert(c.before.last_attempt(wid) == calls[n - 1].after().last_attempt(wid));
            if c.tries(wid) {
                let k = lemma_some_try(rest, wid);
                assert(rest[k] == calls[k]);
                assert(c.insists(wid));
            }
        }
        if forall|k: int| 0 <= k < calls.len() ==> (#[trigger] calls[k]).before.apps.dom().contains(wid.pid) {
            assert forall|k: int| 0 <= k < rest.len() implies (#[trigger] rest[k]).before.apps.dom().contains(
                wid.pid,
            ) by {
                assert(rest[k] == calls[k]);
            }
            assert(calls[n].before.apps.dom().contains(wid.pid));
        }
    }
}

/// Events keep the attempts to write a frame to a window, unless it is
/// destroyed.
pub proof fn events_keep_the_attempts(v: ReactorView, event: Event, focus: Focus, wid: WindowId)
    requires
        event != Event::WindowDestroyed(wid),
    ensures
        v.handling(event, focus).state.last_attempt(wid) == v.last_attempt(wid),
{
}

/// Another frame, or a pause, makes an attempt the first again.
pub proof fn attempts_start_again(v: ReactorView, t: RoundedTarget, now: u64)
    requires
        !t.same_as_attempt || now - v.frame_attempts[t.wid].last > FRAME_ATTEMPT_RESET,
    ensures
        v.attempt(t, now).count == 1,
        v.attempt(t, now).target == t.frame,
{
}

// ---- Raising windows ----

/// The mouse is never moved when the focus follows it, nor when the setting is
/// off.
pub proof fn mouse_is_not_moved(v: ReactorView, raise: Seq<WindowId>, focus: Option<WindowId>, from_mouse: bool)
    requires
        from_mouse || !v.settings.mouse_follows_focus,
    ensures
        v.raising(raise, focus, from_mouse) matches EffectView::Raise(
            RaiseEventView::RaiseRequest { focus_window: Some(f), .. },
        ) ==> f.1 is None,
{
}

/// A response that would change nothing raises nothing; its frames are kept.
pub proof fn response_without_change_raises_nothing(
    v: ReactorView,
    response: EventResponse,
    context: ResponseContext,
)
    requires
        context.visible_window_order matches Some(order) && v.is_noop(
            response.raise_windows@,
            response.focus_window,
            order@,
            context.focus_wsid,
        ),
    ensures
        v.responding(response, context).effects == Seq::<EffectView>::empty(),
        v.responding(response, context).state.pending_frame_overrides == crate::reactor_model::with_overrides(
            v.pending_frame_overrides,
            response.frame_overrides@,
        ),
{
}

proof fn lemma_groups_hold(v: ReactorView, wids: Seq<WindowId>, wid: WindowId)
    ensures
        wids.contains(wid) ==> v.groups_in(wids).contains(v.group_of(wid)),
    decreases wids.len(),
{
    if wids.len() > 0 && wids.contains(wid) {
        let rest = wids.drop_last();
        lemma_groups_hold(v, rest, wid);
        let before = v.groups_in(rest);
        let i = choose|i: int| 0 <= i < wids.len() && wids[i] == wid;
        if i < rest.len() {
            assert(rest[i] == wid);
            let k = choose|k: int| 0 <= k < before.len() && before[k] == v.group_of(wid);
            assert(v.groups_in(wids)[k] == v.group_of(wid));
        } else if !before.contains(v.group_of(wid)) {
            assert(v.groups_in(wids)[before.len() as int] == v.group_of(wid));
        }
    }
}

proof fn lemma_groups_distinct(v: ReactorView, wids: Seq<WindowId>)
    ensures
        v.groups_in(wids).no_duplicates(),
    decreases wids.len(),
{
    if wids.len() > 0 {
        lemma_groups_distinct(v, wids.drop_last());
    }
}

/// Every known window that is to be raised is in one group, and only in one.
pub proof fn raised_window_is_in_one_group(v: ReactorView, raise: Seq<WindowId>, wid: WindowId)
    requires
        raise.contains(wid),
        v.windows.dom().contains(wid),
    ensures
        exists|g: int| 0 <= g < v.grouped(raise).len() && (#[trigger] v.grouped(raise)[g]).contains(wid),
        forall|g: int, h: int|
            0 <= g < v.grouped(raise).len() && 0 <= h < v.grouped(raise).len() && (#[trigger] v.grouped(
                raise,
            )[g]).contains(wid) && (#[trigger] v.grouped(raise)[h]).contains(wid) ==> g == h,
{
    let p = |w: WindowId| v.windows.dom().contains(w);
    let known = raise.filter(p);
    let groups = v.groups_in(known);
    let i = choose|i: int| 0 <= i < raise.len() && raise[i] == wid;
    raise.lemma_filter_contains(p, i);
    lemma_groups_hold(v, known, wid);
    lemma_groups_distinct(v, known);
    let g = choose|g: int| 0 <= g < groups.len() && groups[g] == v.group_of(wid);
    let q = |w: WindowId| v.group_of(w) == groups[g];
    let k = choose|k: int| 0 <= k < known.len() && known[k] == wid;
    known.lemma_filter_contains(q, k);
    assert(v.grouped(raise)[g] == known.filter(q));
    assert(v.grouped(raise)[g].contains(wid));
    assert forall|g: int, h: int|
        0 <= g < v.grouped(raise).len() && 0 <= h < v.grouped(raise).len() && (#[trigger] v.grouped(
            raise,
        )[g]).contains(wid) && (#[trigger] v.grouped(raise)[h]).contains(wid) implies g == h by {
        let a = |w: WindowId| v.group_of(w) == groups[g];
        let b = |w: WindowId| v.group_of(w) == groups[h];
        assert(v.grouped(raise)[g] == known.filter(a));
        assert(v.grouped(raise)[h] == known.filter(b));
        lemma_filter_from(known, a, wid);
        lemma_filter_from(known, b, wid);
        assert(groups[g] == groups[h]);
    }
}

/// The windows of a group share their app and space.
pub proof fn group_is_of_one_app_and_space(v: ReactorView, raise: Seq<WindowId>, g: int, a: WindowId, b: WindowId)
    requires
        0 <= g < v.grouped(raise).len(),
        v.grouped(raise)[g].contains(a),
        v.grouped(raise)[g].contains(b),
    ensures
        v.group_of(a) == v.group_of(b),
{
    let known = raise.filter(|w: WindowId| v.windows.dom().contains(w));
    let group = v.groups_in(known)[g];
    let q = |w: WindowId| v.group_of(w) == group;
    assert(v.grouped(raise)[g] == known.filter(q));
    lemma_filter_from(known, q, a);
    lemma_filter_from(known, q, b);
}

// ---- Scratchpads ----

/// The windows that may become scratchpads are exactly those of the app.
pub proof fn candidates_are_the_windows_of_the_app(v: ReactorView, pid: Pid, main: Option<WindowId>, wid: WindowId)
    requires
        v.windows.dom().finite(),
    ensures
        v.candidates(pid, main).contains(wid) == (wid.pid == pid && v.windows.dom().contains(wid)),
{
    lemma_can_be_ordered(v.windows.dom());
    let all = in_order(v.windows.dom());
    assert(all.contains(wid) == all.to_set().contains(wid));
    let list = v.candidates(pid, main);
    let parts = seq![v.preferred(pid, main, 0), v.preferred(pid, main, 1), v.preferred(pid, main, 2)];
    assert(list == parts[0] + parts[1] + parts[2]);
    assert(list.contains(wid) == (parts[0].contains(wid) || parts[1].contains(wid) || parts[2].contains(wid))) by {
        lemma_in_sum(parts[0], parts[1], wid);
        lemma_in_sum(parts[0] + parts[1], parts[2], wid);
    }
    lemma_preferred(v, pid, main, 0, wid);
    lemma_preferred(v, pid, main, 1, wid);
    lemma_preferred(v, pid, main, 2, wid);
}

proof fn lemma_in_sum(a: Seq<WindowId>, b: Seq<WindowId>, wid: WindowId)
    ensures
        (a + b).contains(wid) == (a.contains(wid) || b.contains(wid)),
{
    if (a + b).contains(wid) {
        let i = choose|i: int| 0 <= i < (a + b).len() && (a + b)[i] == wid;
        if i < a.len() {
            assert(a[i] == wid);
        } else {
            assert(b[i - a.len()] == wid);
        }
    }
    if a.contains(wid) {
        let i = choose|i: int| 0 <= i < a.len() && a[i] == wid;
        assert((a + b)[i] == wid);
    }
    if b.contains(wid) {
        let i = choose|i: int| 0 <= i < b.len() && b[i] == wid;
        assert((a + b)[a.len() + i] == wid);
    }
}

proof fn lemma_preferred(v: ReactorView, pid: Pid, main: Option<WindowId>, preference: int, wid: WindowId)
    ensures
        v.preferred(pid, main, preference).contains(wid) == (in_order(v.windows.dom()).contains(wid) && wid.pid == pid
            && v.preference(wid, main) == preference),
{
    let p = |w: WindowId| w.pid == pid && v.preference(w, main) == preference;
    let all = in_order(v.windows.dom());
    assert(v.preferred(pid, main, preference) == all.filter(p));
    if all.filter(p).contains(wid) {
        lemma_filter_from(all, p, wid);
    }
    if all.contains(wid) && p(wid) {
        let i = choose|i: int| 0 <= i < all.len() && all[i] == wid;
        all.lemma_filter_contains(p, i);
    }
}

/// The main window of the app is the first candidate.
pub proof fn main_window_is_the_first_candidate(v: ReactorView, main: WindowId)
    requires
        v.windows.dom().finite(),
        v.windows.dom().contains(main),
    ensures
        v.candidates(main.pid, Some(main)).len() > 0,
        v.candidates(main.pid, Some(main))[0] == main,
{
    lemma_can_be_ordered(v.windows.dom());
    let all = in_order(v.windows.dom());
    assert(all.to_set().contains(main));
    lemma_preferred(v, main.pid, Some(main), 0, main);
    let first = v.preferred(main.pid, Some(main), 0);
    assert(first.contains(main));
    assert(first.contains(first[0]));
    lemma_preferred(v, main.pid, Some(main), 0, first[0]);
    assert(v.candidates(main.pid, Some(main))[0] == first[0]);
}

/// The moves under way have distinct numbers, all of them given out.
pub open spec fn moves_are_numbered(v: ReactorView) -> bool {
    &&& forall|w: WindowId| #[trigger]
        v.pending_space_moves.dom().contains(w) ==> v.pending_space_moves[w].id.0 < v.next_space_move_id
    &&& forall|a: WindowId, b: WindowId| #[trigger]
        v.pending_space_moves.dom().contains(a) && #[trigger] v.pending_space_moves.dom().contains(b)
            && v.pending_space_moves[a].id == v.pending_space_moves[b].id ==> a == b
}

/// A move gets a number that no other one has, and keeps the numbers distinct
/// once it has been started.
pub proof fn moves_have_distinct_numbers(v: ReactorView, wid: WindowId, frame: FractionalRect, i: int)
    requires
        moves_are_numbered(v),
        v.next_space_move_id < u64::MAX,
        0 <= i < v.showing(wid, frame).effects.len(),
    ensures
        moves_are_numbered(v.showing(wid, frame).state),
        v.showing(wid, frame).effects[i] matches EffectView::MoveWindow { wid: w, id, .. } ==> {
            let after = v.showing(wid, frame).state;
            let started = ReactorView {
                pending_space_moves: after.pending_space_moves.insert(w, PendingSpaceMove { id, frame }),
                ..after
            };
            &&& forall|other: WindowId| #[trigger]
                v.pending_space_moves.dom().contains(other) ==> v.pending_space_moves[other].id != id
            &&& moves_are_numbered(started)
        },
{
}

/// Events start no move; they only end some, and give out no number.
pub proof fn events_start_no_move(v: ReactorView, event: Event, focus: Focus)
    ensures
        v.handling(event, focus).state.pending_space_moves.submap_of(v.pending_space_moves),
        v.handling(event, focus).state.next_space_move_id == v.next_space_move_id,
{
}

/// A moved window is placed once: as soon as it is on screen, and not again.
/// The other moves are not concerned.
pub proof fn moved_window_is_placed_once(v: ReactorView, wid: WindowId, other: WindowId)
    requires
        v.pending_space_moves.dom().finite(),
        v.pending_space_moves.dom().contains(wid),
        v.window_visible(wid),
        other != wid,
    ensures
        v.placing_moved().contains(EffectView::PlaceMovedScratchpad(wid)),
        v.placing_moved().no_duplicates(),
        !v.placing_one(wid).state.placing_moved().contains(EffectView::PlaceMovedScratchpad(wid)),
        v.placing_one(wid).state.pending_space_moves.dom().contains(other) == v.pending_space_moves.dom().contains(
            other,
        ),
        v.placing_one(wid).state.pending_space_moves[other] == v.pending_space_moves[other],
{
    lemma_arrived(v, wid);
    let arrived = v.arrived();
    let i = choose|i: int| 0 <= i < arrived.len() && arrived[i] == wid;
    assert(v.placing_moved()[i] == EffectView::PlaceMovedScratchpad(wid));
    assert forall|a: int, b: int| 0 <= a < b < v.placing_moved().len() implies v.placing_moved()[a]
        != v.placing_moved()[b] by {
        assert(arrived[a] != arrived[b]);
    }
    let after = v.placing_one(wid).state;
    assert(after.pending_space_moves.dom() =~= v.pending_space_moves.dom().remove(wid));
    lemma_arrived(after, wid);
    if after.placing_moved().contains(EffectView::PlaceMovedScratchpad(wid)) {
        let k = choose|k: int|
            0 <= k < after.placing_moved().len() && after.placing_moved()[k] == EffectView::PlaceMovedScratchpad(wid);
        assert(after.arrived()[k] == wid);
    }
}

/// The windows that have arrived are those that are moved and on screen, each
/// of them once.
proof fn lemma_arrived(v: ReactorView, wid: WindowId)
    requires
        v.pending_space_moves.dom().finite(),
    ensures
        v.arrived().contains(wid) == (v.pending_space_moves.dom().contains(wid) && v.window_visible(wid)),
        v.arrived().no_duplicates(),
{
    let p = |w: WindowId| v.window_visible(w);
    let all = in_order(v.pending_space_moves.dom());
    lemma_can_be_ordered(v.pending_space_moves.dom());
    assert(all.contains(wid) == all.to_set().contains(wid));
    if v.arrived().contains(wid) {
        lemma_filter_from(all, p, wid);
    } else if all.contains(wid) && p(wid) {
        let i = choose|i: int| 0 <= i < all.len() && all[i] == wid;
        all.lemma_filter_contains(p, i);
    }
    assert(all.no_duplicates());
    lemma_filter_keeps_distinct(all, p);
}

/// What passes a filter of distinct elements is distinct.
proof fn lemma_filter_keeps_distinct(s: Seq<WindowId>, p: spec_fn(WindowId) -> bool)
    requires
        s.no_duplicates(),
    ensures
        s.filter(p).no_duplicates(),
    decreases s.len(),
{
    reveal(Seq::filter);
    if s.len() > 0 {
        let rest = s.drop_last();
        lemma_filter_keeps_distinct(rest, p);
        if rest.filter(p).contains(s.last()) {
            lemma_filter_from(rest, p, s.last());
            let k = choose|k: int| 0 <= k < rest.len() && rest[k] == s.last();
            assert(s[k] == s[s.len() - 1]);
        }
    }
}

/// A moved window that is not on screen yet is not placed.
pub proof fn window_on_its_way_is_not_placed(v: ReactorView, wid: WindowId)
    requires
        v.pending_space_moves.dom().finite(),
        !v.window_visible(wid),
    ensures
        !v.placing_moved().contains(EffectView::PlaceMovedScratchpad(wid)),
{
    lemma_arrived(v, wid);
    if v.placing_moved().contains(EffectView::PlaceMovedScratchpad(wid)) {
        let k = choose|k: int|
            0 <= k < v.placing_moved().len() && v.placing_moved()[k] == EffectView::PlaceMovedScratchpad(wid);
        assert(v.arrived()[k] == wid);
    }
}

/// No window is moved to a fullscreen space.
pub proof fn no_window_is_moved_to_a_fullscreen_space(v: ReactorView, wid: WindowId)
    requires
        v.active_idx() < v.screen_spaces.len(),
        v.screen_spaces[v.active_idx()] matches Some(space) && space.fullscreen,
    ensures
        v.move_target(wid) is None,
{
}

/// A visible window of a shown app is placed right away.
pub proof fn visible_window_is_not_moved(v: ReactorView, wid: WindowId, frame: FractionalRect)
    requires
        v.windows.dom().contains(wid),
        v.window_visible(wid),
        !v.app_hidden(wid.pid),
    ensures
        v.showing(wid, frame).effects == seq![v.place(wid, frame)],
{
    assert(v.showing(wid, frame).effects =~= seq![v.place(wid, frame)]);
}

} // verus!
