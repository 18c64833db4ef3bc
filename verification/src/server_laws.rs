//! Laws about what the window server actor sends on.
use vstd::prelude::*;

use crate::apps::{AppInfo, WindowInfo};
use crate::events::{ids_of, Event as ReactorEvent, MouseState, Quiet, WindowServerInfo};
use crate::ids::{Pid, WindowId, WindowServerId};
use crate::request::AppThreadHandle;
use crate::space::{ScreenSpace, SpaceId};
use crate::window_server::{
    relevant, relevant_windows, Event, Outgoing, OutgoingView, Reading, ScreenInfo, ScreenSetup, SkylightRequest,
    WindowServerView,
};

verus! {

/// The list holds the ordinary, floating and status windows of the reading, in
/// the order of the reading, and their ids.
pub open spec fn lists_what_counts(
    windows: Seq<WindowServerInfo>,
    visible: Seq<WindowServerId>,
    info: Seq<WindowServerInfo>,
) -> bool {
    &&& info == windows.filter(|w: WindowServerInfo| w.layer == 0 || w.layer == 3 || w.layer == 8)
    &&& visible.len() == info.len()
    &&& forall|i: int| 0 <= i < info.len() ==> #[trigger] visible[i] == info[i].id
}

proof fn lemma_lists(windows: Seq<WindowServerInfo>)
    ensures
        lists_what_counts(windows, ids_of(relevant_windows(windows)), relevant_windows(windows)),
{
    let p = |w: WindowServerInfo| relevant(w);
    let q = |w: WindowServerInfo| w.layer == 0 || w.layer == 3 || w.layer == 8;
    assert(p =~= q);
}

/// The spaces are those that the screens show, one for each screen: by its
/// number, or none if the screen shows none.
pub open spec fn numbers_of(spaces: Seq<Option<ScreenSpace>>, ids: Seq<Option<SpaceId>>) -> bool {
    &&& ids.len() == spaces.len()
    &&& forall|i: int|
        0 <= i < spaces.len() ==> {
            &&& #[trigger] spaces[i] is None ==> ids[i] is None
            &&& spaces[i] matches Some(space) ==> ids[i] == Some(space.id)
        }
}

/// A change of space, and a request for a fresh list, send on what each screen
/// shows, and then the numbers of those spaces, one for each screen, with the
/// windows that count. The windows are those that are known then.
pub proof fn space_change_names_the_space_of_each_screen(
    v: WindowServerView,
    event: Event,
    reading: Reading,
    now: u64,
)
    requires
        event is SpaceChanged || event is RequestSpaceRefresh,
    ensures
        ({
            let h = v.handling(event, reading, now);
            &&& h.out.len() == 2
            &&& h.out[0] == OutgoingView::ScreenSpaces(reading.spaces@)
            &&& h.out[1] matches OutgoingView::SpaceChanged { spaces, visible, info } && {
                &&& numbers_of(reading.spaces@, spaces)
                &&& lists_what_counts(reading.windows@, visible, info)
                &&& h.state == (WindowServerView { visible, ..v })
            }
        }),
{
    lemma_lists(reading.windows@);
}

/// Whether the configuration is the one that was last sent on: the screens are
/// the same, one by one, they show the same spaces, and the windows stand in
/// the same order.
pub open spec fn was_sent(
    v: WindowServerView,
    screens: Seq<ScreenInfo>,
    spaces: Seq<Option<ScreenSpace>>,
    visible: Seq<WindowServerId>,
) -> bool {
    &&& v.last_config matches Some(last)
    &&& last.screens.len() == screens.len()
    &&& forall|i: int|
        0 <= i < screens.len() ==> {
            let was = #[trigger] last.screens[i];
            let is = screens[i];
            &&& was.id == is.id
            &&& was.visible_frame.origin.x.same(is.visible_frame.origin.x)
            &&& was.visible_frame.origin.y.same(is.visible_frame.origin.y)
            &&& was.visible_frame.size.width.same(is.visible_frame.size.width)
            &&& was.visible_frame.size.height.same(is.visible_frame.size.height)
            &&& was.scale_factor.same(is.scale_factor)
        }
    &&& last.spaces == spaces
    &&& last.visible == visible
}

/// A screen configuration that is not the one last sent on is sent on: the
/// spaces that the screens show, and then the id, the frame, the scale and the
/// number of the space of each screen, in their order, with the converter and
/// the windows that count. It is remembered, and no retry is left.
pub proof fn configuration_names_each_screen(
    v: WindowServerView,
    setup: ScreenSetup,
    reading: Reading,
    now: u64,
    visible: Seq<WindowServerId>,
)
    requires
        visible == ids_of(relevant_windows(reading.windows@)),
    ensures
        ({
            let h = v.handling(Event::ScreenParametersChanged(Some(setup)), reading, now);
            let screens = setup.screens@;
            let sent = was_sent(v, screens, reading.spaces@, visible);
            &&& h.state.visible == visible
            &&& h.state.retry_attempt == 0
            &&& !h.state.retry_pending
            &&& h.state.recheck_at == v.recheck_at
            &&& h.state.recheck_pids == v.recheck_pids
            &&& sent ==> h.out.len() == 0 && h.state.last_config == v.last_config
            &&& !sent ==> {
                &&& h.out.len() == 2
                &&& h.out[0] == OutgoingView::ScreenSpaces(reading.spaces@)
                &&& h.out[1] matches OutgoingView::ScreenParametersChanged {
                    screens: ids,
                    frames,
                    spaces,
                    scale_factors,
                    converter,
                    visible: seen,
                    info,
                } && {
                    &&& ids.len() == screens.len() && frames.len() == screens.len() && scale_factors.len()
                        == screens.len()
                    &&& forall|i: int|
                        0 <= i < screens.len() ==> {
                            let screen = #[trigger] screens[i];
                            &&& ids[i] == screen.id
                            &&& frames[i] == screen.visible_frame
                            &&& scale_factors[i] == screen.scale_factor
                        }
                    &&& numbers_of(reading.spaces@, spaces)
                    &&& converter == setup.converter
                    &&& seen == visible
                    &&& lists_what_counts(reading.windows@, seen, info)
                }
                &&& h.state.last_config matches Some(config) && config.screens == screens && config.spaces
                    == reading.spaces@ && config.visible == visible
            }
        }),
{
    lemma_lists(reading.windows@);
    let screens = setup.screens@;
    let sent = was_sent(v, screens, reading.spaces@, visible);
    match v.last_config {
        Some(last) => {
            let config = crate::window_server::ConfigView { screens, spaces: reading.spaces@, visible };
            if last.same(config) {
                assert forall|i: int| 0 <= i < screens.len() implies {
                    let was = #[trigger] last.screens[i];
                    let is = screens[i];
                    &&& was.id == is.id
                    &&& was.visible_frame.origin.x.same(is.visible_frame.origin.x)
                    &&& was.visible_frame.origin.y.same(is.visible_frame.origin.y)
                    &&& was.visible_frame.size.width.same(is.visible_frame.size.width)
                    &&& was.visible_frame.size.height.same(is.visible_frame.size.height)
                    &&& was.scale_factor.same(is.scale_factor)
                } by {
                    assert(last.screens[i].same(screens[i]));
                }
                assert(sent);
            }
            if sent {
                assert forall|i: int| 0 <= i < last.screens.len() implies (#[trigger] last.screens[i]).same(
                    config.screens[i],
                ) by {}
                assert(last.same(config));
            }
        },
        None => {},
    }
}

/// An awaited retry is taken in as a change of the configuration is, after one
/// more attempt. Any other retry does nothing.
pub proof fn awaited_retry_is_taken_in(
    v: WindowServerView,
    attempt: u8,
    setup: Option<ScreenSetup>,
    reading: Reading,
    now: u64,
)
    ensures
        ({
            let h = v.handling(Event::RetryScreenParameters { attempt, setup }, reading, now);
            let awaited = v.retry_pending && attempt == v.retry_attempt;
            &&& !awaited ==> h.state == v && h.out.len() == 0
            &&& awaited && attempt < u8::MAX ==> h == (WindowServerView {
                retry_pending: false,
                retry_attempt: (attempt + 1) as u8,
                ..v
            }).handling(Event::ScreenParametersChanged(setup), reading, now)
        }),
{
}

/// An inconsistent configuration is read again, up to three times and after
/// longer and longer delays, unless that is pending. The reading is of no
/// interest then.
pub proof fn inconsistent_configuration_is_read_again(v: WindowServerView, reading: Reading, now: u64)
    ensures
        ({
            let h = v.handling(Event::ScreenParametersChanged(None), reading, now);
            &&& v.retry_pending ==> h.state == v && h.out.len() == 0
            &&& !v.retry_pending && v.retry_attempt < 3 ==> {
                &&& h.state == (WindowServerView { retry_pending: true, ..v })
                &&& h.out == seq![
                    OutgoingView::Retry {
                        attempt: v.retry_attempt,
                        delay: if v.retry_attempt == 0 {
                            100_000_000
                        } else if v.retry_attempt == 1 {
                            250_000_000
                        } else {
                            500_000_000
                        },
                    },
                ]
            }
            &&& !v.retry_pending && v.retry_attempt >= 3 ==> {
                &&& h.state == (WindowServerView { retry_attempt: 0, ..v })
                &&& h.out.len() == 0
            }
        }),
{
}

/// The windows on screen are sent on for the app if they differ from those last
/// known, and they are the known ones then.
pub open spec fn reports_changes(
    before: WindowServerView,
    visible: Seq<WindowServerId>,
    pid: Option<Pid>,
    windows: Seq<WindowServerInfo>,
    out: Seq<OutgoingView>,
) -> bool {
    &&& before.visible == visible ==> out.len() == 0
    &&& before.visible != visible ==> {
        &&& out.len() == 1
        &&& out[0] matches OutgoingView::OnScreen { pid: p, visible: seen, info }
        &&& p == pid
        &&& seen == visible
        &&& lists_what_counts(windows, visible, info)
    }
}

/// A window that was minimized or shown again has the windows on screen sent
/// on, for its app and if they changed.
pub proof fn visibility_is_reported_if_it_changed(v: WindowServerView, wid: WindowId, reading: Reading, now: u64)
    ensures
        ({
            let h = v.handling(Event::WindowVisibilityChanged(wid), reading, now);
            &&& h.state == (WindowServerView { visible: h.state.visible, ..v })
            &&& h.state.visible == ids_of(relevant_windows(reading.windows@))
            &&& reports_changes(v, h.state.visible, Some(wid.pid), reading.windows@, h.out)
        }),
{
    lemma_lists(reading.windows@);
}

/// A list for no app, or for one, is sent on if it changed.
pub proof fn list_is_reported_if_it_changed(
    v: WindowServerView,
    pid: Option<Pid>,
    windows: Seq<WindowServerInfo>,
)
    ensures
        ({
            let h = v.reporting(pid, windows);
            &&& h.state == (WindowServerView { visible: h.state.visible, ..v })
            &&& h.state.visible == ids_of(relevant_windows(windows))
            &&& reports_changes(v, h.state.visible, pid, windows, h.out)
        }),
{
    lemma_lists(windows);
}

/// A created window reaches the reactor first, then the windows on screen, if
/// they changed, and then that it became visible.
pub proof fn created_window_is_sent_before_it_is_visible(
    v: WindowServerView,
    wid: WindowId,
    info: WindowInfo,
    mouse: MouseState,
    reading: Reading,
    now: u64,
)
    ensures
        ({
            let h = v.handling(Event::WindowCreated(wid, info, mouse), reading, now);
            let n = h.out.len() as int;
            &&& n >= 2
            &&& h.out[0] == OutgoingView::Reactor(ReactorEvent::WindowCreated(wid, info, mouse))
            &&& h.out[n - 1] == OutgoingView::Reactor(ReactorEvent::WindowBecameVisible(wid))
            &&& h.state == (WindowServerView { visible: h.state.visible, ..v })
            &&& reports_changes(v, h.state.visible, Some(wid.pid), reading.windows@, h.out.subrange(1, n - 1))
        }),
{
    let h = v.handling(Event::WindowCreated(wid, info, mouse), reading, now);
    let n = h.out.len() as int;
    lemma_lists(reading.windows@);
    assert(h.out.subrange(1, n - 1) =~= v.reporting(Some(wid.pid), reading.windows@).out);
}

/// The windows on screen reach the reactor before an app that was launched, for
/// that app and in any case. The launch is sent on as it is.
pub proof fn launch_is_sent_after_the_windows(
    v: WindowServerView,
    pid: Pid,
    handle: AppThreadHandle,
    info: AppInfo,
    is_frontmost: bool,
    main_window: Option<WindowId>,
    visible_windows: Vec<(WindowId, WindowInfo)>,
    reading: Reading,
    now: u64,
)
    ensures
        ({
            let h = v.handling(
                Event::ApplicationLaunched { pid, handle, info, is_frontmost, main_window, visible_windows },
                reading,
                now,
            );
            &&& h.out.len() == 2
            &&& h.out[0] matches OutgoingView::OnScreen { pid: p, visible, info: list } && {
                &&& p == Some(pid)
                &&& lists_what_counts(reading.windows@, visible, list)
                &&& h.state == (WindowServerView { visible, ..v })
            }
            &&& h.out[1] == OutgoingView::Reactor(
                ReactorEvent::ApplicationLaunched {
                    pid,
                    info,
                    handle,
                    is_frontmost,
                    main_window,
                    visible_windows,
                },
            )
        }),
{
    lemma_lists(reading.windows@);
}

/// The windows of an app that may have changed are reported if they did, and
/// again 250 ms after the first such check that waits for no other.
pub proof fn windows_are_checked_now_and_again(v: WindowServerView, pid: Pid, reading: Reading, now: u64)
    requires
        now + 250_000_000 <= u64::MAX,
    ensures
        ({
            let h = v.handling(Event::RecheckVisibleWindows(pid), reading, now);
            &&& reports_changes(v, h.state.visible, Some(pid), reading.windows@, h.out)
            &&& h.state.visible == ids_of(relevant_windows(reading.windows@))
            &&& h.state.recheck_pids == v.recheck_pids.insert(pid)
            &&& v.recheck_at is None ==> h.state.recheck_at == Some((now + 250_000_000) as u64)
            &&& v.recheck_at is Some ==> h.state.recheck_at == v.recheck_at
            &&& h.state.retry_attempt == v.retry_attempt
            &&& h.state.retry_pending == v.retry_pending
            &&& h.state.last_config == v.last_config
        }),
{
    lemma_lists(reading.windows@);
}

/// An app that was hidden or shown is checked in the same way, after the
/// reactor was told.
pub proof fn hidden_app_is_checked(v: WindowServerView, pid: Pid, hidden: bool, reading: Reading, now: u64)
    ensures
        ({
            let event = ReactorEvent::ApplicationHiddenChanged(pid, hidden);
            let h = v.handling(Event::ReactorEvent(event), reading, now);
            let check = v.handling(Event::RecheckVisibleWindows(pid), reading, now);
            &&& h.state == check.state
            &&& h.out == seq![OutgoingView::Reactor(event)] + check.out
        }),
{
}

/// Other events for the reactor are sent on as they are, and change nothing.
pub proof fn other_events_are_sent_on(v: WindowServerView, event: ReactorEvent, reading: Reading, now: u64)
    requires
        !(event is ApplicationHiddenChanged),
    ensures
        v.handling(Event::ReactorEvent(event), reading, now).state == v,
        v.handling(Event::ReactorEvent(event), reading, now).out == seq![Outgoing::Reactor(event)@],
{
}

/// A new main window is sent on as it is. A window to watch is handed to the
/// watcher with its app. Neither changes anything.
pub proof fn main_window_and_registration_are_sent_on(
    v: WindowServerView,
    pid: Pid,
    main: Option<WindowId>,
    quiet: Quiet,
    wsid: WindowServerId,
    wid: WindowId,
    handle: AppThreadHandle,
    reading: Reading,
    now: u64,
)
    ensures
        ({
            let a = v.handling(Event::ApplicationMainWindowChanged(pid, main, quiet), reading, now);
            let b = v.handling(Event::RegisterWindow(wsid, wid, handle), reading, now);
            &&& a.state == v && b.state == v
            &&& a.out == seq![OutgoingView::Reactor(ReactorEvent::ApplicationMainWindowChanged(pid, main, quiet))]
            &&& b.out == seq![OutgoingView::Skylight(SkylightRequest::TrackWindow(wsid, wid, handle))]
        }),
{
}

/// A recheck is due once its time has come, not before, and never if none is
/// scheduled. Until then it stays scheduled with its apps.
pub proof fn recheck_is_due_at_its_time(v: WindowServerView, now: u64)
    ensures
        v.recheck_at matches Some(at) ==> (v.recheck_due(now) <==> at <= now),
        v.recheck_at is None ==> !v.recheck_due(now),
        !v.recheck_due(now) ==> v.after_recheck(now) == v,
        v.recheck_due(now) ==> v.after_recheck(now).visible == v.visible && v.after_recheck(now).last_config
            == v.last_config && v.after_recheck(now).retry_attempt == v.retry_attempt && v.after_recheck(
            now,
        ).retry_pending == v.retry_pending,
{
}

/// What the window server reports is read for the events that send it on, and
/// for no others: a consistent configuration, if a retry of it is awaited, the
/// spaces and windows of a change, and the windows that an app may have changed.
pub proof fn reading_is_made_for_what_is_sent_on(v: WindowServerView, event: Event)
    ensures
        event is SpaceChanged || event is RequestSpaceRefresh || event is WindowCreated
            || event is WindowVisibilityChanged || event is ApplicationLaunched || event is RecheckVisibleWindows
            ==> v.reads(event),
        event is RegisterWindow || event is ApplicationMainWindowChanged ==> !v.reads(event),
        event matches Event::ScreenParametersChanged(setup) ==> (v.reads(event) <==> setup is Some),
        event matches Event::RetryScreenParameters { attempt, setup } ==> (v.reads(event) <==> v.retry_pending
            && attempt == v.retry_attempt && setup is Some),
        event matches Event::ReactorEvent(passed) ==> (v.reads(event) <==> passed is ApplicationHiddenChanged),
{
}

} // verus!
