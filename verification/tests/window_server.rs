use glide_core::apps::{AppInfo, WindowInfo};
use glide_core::events::{Event as ReactorEvent, MouseState, Quiet, WindowServerInfo, WindowsOnScreen};
use glide_core::geometry::{CoordinateConverter, Point, Rect, Size};
use glide_core::ids::{Pid, WindowId, WindowServerId};
use glide_core::number::Number;
use glide_core::request::{AppThreadHandle, Request};
use glide_core::space::{ScreenSpace, SpaceId};
use glide_core::window_server::{
    Event, Outgoing, Reading, ScreenInfo, ScreenSetup, SkylightRequest, SkylightWatcher, WindowServer, LAYER_FLOATING,
    LAYER_NORMAL, LAYER_STATUS, VISIBLE_WINDOWS_RECHECK_DELAY,
};

const MS: u64 = 1_000_000;

/// The kind of the notification that a window was destroyed.
const TERMINATED: u32 = 804;

fn wsid(id: u32) -> WindowServerId {
    WindowServerId::new(id)
}

fn number(value: f64) -> Number {
    Number::from_bits(value.to_bits())
}

fn rect(x: f64, y: f64, width: f64, height: f64) -> Rect {
    Rect {
        origin: Point { x: number(x), y: number(y) },
        size: Size { width: number(width), height: number(height) },
    }
}

fn make_window(id: u32, layer: i32) -> WindowServerInfo {
    WindowServerInfo { id: wsid(id), pid: 1, layer, frame: rect(0.0, 0.0, 100.0, 100.0) }
}

fn screen(id: u32) -> ScreenInfo {
    ScreenInfo { id, visible_frame: rect(0.0, 0.0, 1000.0, 800.0), scale_factor: number(2.0) }
}

fn setup(screens: Vec<ScreenInfo>) -> Option<ScreenSetup> {
    Some(ScreenSetup { screens, converter: CoordinateConverter(3) })
}

struct TestHarness {
    ws: WindowServer,
    windows: Vec<WindowServerInfo>,
    spaces: Vec<Option<ScreenSpace>>,
    sent: Vec<Outgoing>,
    now: u64,
}

impl TestHarness {
    fn new(windows: Vec<WindowServerInfo>) -> TestHarness {
        TestHarness { ws: WindowServer::new(), windows, spaces: vec![], sent: vec![], now: 5_000 * MS }
    }

    fn set_mock_windows(&mut self, windows: Vec<WindowServerInfo>) {
        self.windows = windows;
    }

    fn on_event(&mut self, event: Event) {
        let reading = Reading { windows: self.windows.clone(), spaces: self.spaces.clone() };
        self.sent.extend(self.ws.on_event(event, reading, self.now));
    }

    /// Lets `delay` pass and runs the recheck if it is due.
    fn advance(&mut self, delay: u64) {
        self.now += delay;
        for pid in self.ws.take_due_recheck(self.now) {
            self.sent.extend(self.ws.send_windows_on_screen_if_changed(Some(pid), &self.windows));
        }
    }

    fn drain_sm(&mut self) -> Vec<Outgoing> {
        std::mem::take(&mut self.sent)
    }
}

fn find_reactor_events(sent: &[Outgoing]) -> Vec<&ReactorEvent> {
    sent.iter()
        .filter_map(|e| match e {
            Outgoing::Reactor(re) => Some(re),
            _ => None,
        })
        .collect()
}

fn find_windows_on_screen_updated<'a>(reactor_events: &'a [&'a ReactorEvent]) -> Vec<&'a WindowsOnScreen> {
    reactor_events
        .iter()
        .filter_map(|e| match e {
            ReactorEvent::WindowsOnScreenUpdated { on_screen, .. } => Some(on_screen),
            _ => None,
        })
        .collect()
}

fn updated_pids(sent: &[Outgoing]) -> Vec<Option<Pid>> {
    find_reactor_events(sent)
        .into_iter()
        .filter_map(|e| match e {
            ReactorEvent::WindowsOnScreenUpdated { pid, .. } => Some(*pid),
            _ => None,
        })
        .collect()
}

fn window_ids(on_screen: &WindowsOnScreen) -> Vec<u32> {
    on_screen.visible.iter().map(|id| id.as_u32()).collect()
}

fn hidden(pid: Pid, hidden: bool) -> Event {
    Event::ReactorEvent(ReactorEvent::ApplicationHiddenChanged(pid, hidden))
}

fn shown(pid: Pid) -> Event {
    hidden(pid, false)
}

/// The retry that was asked for, as its number and its delay.
fn retries(sent: &[Outgoing]) -> Vec<(u8, u64)> {
    sent.iter()
        .filter_map(|e| match e {
            Outgoing::Retry { attempt, delay } => Some((*attempt, *delay)),
            _ => None,
        })
        .collect()
}

#[test]
fn giving_up_on_screen_config_resets_the_retry_counter() {
    let mut h = TestHarness::new(vec![]);
    // The retries for one inconsistent update are exhausted.
    h.on_event(Event::ScreenParametersChanged(None));
    for (attempt, delay) in [(0, 100), (1, 250), (2, 500)] {
        assert_eq!(retries(&h.drain_sm()), [(attempt, delay * MS)]);
        assert_eq!(h.ws.retry_state(), (attempt, true));
        h.on_event(Event::RetryScreenParameters { attempt, setup: None });
    }
    assert!(h.drain_sm().is_empty());
    // The next inconsistent update should get its own retries rather than
    // giving up immediately.
    assert_eq!(h.ws.retry_state(), (0, false));
    h.on_event(Event::ScreenParametersChanged(None));
    assert_eq!(retries(&h.drain_sm()), [(0, 100 * MS)]);
}

#[test]
fn filters_irrelevant_layers() {
    let mut h = TestHarness::new(vec![
        make_window(1, LAYER_NORMAL),   // 0 - keep
        make_window(2, LAYER_FLOATING), // 3 - keep
        make_window(3, LAYER_STATUS),   // 8 - keep
        make_window(4, 25),             // screensaver - filter
        make_window(5, -1),             // desktop - filter
    ]);
    h.on_event(Event::WindowVisibilityChanged(WindowId::new(1, 1)));
    let sm_events = h.drain_sm();
    let reactor_events = find_reactor_events(&sm_events);
    let updates = find_windows_on_screen_updated(&reactor_events);

    assert_eq!(updates.len(), 1);
    let visible_ids: Vec<u32> = updates[0].visible.iter().map(|id| id.as_u32()).collect();
    assert_eq!(visible_ids, vec![1, 2, 3]);
}

#[test]
fn no_event_when_visible_windows_unchanged() {
    let mut h = TestHarness::new(vec![make_window(1, LAYER_NORMAL)]);
    // First call: visible_window_ids goes from [] to [1] - changed.
    h.on_event(Event::WindowVisibilityChanged(WindowId::new(1, 1)));
    let sm_events = h.drain_sm();
    let reactor_events = find_reactor_events(&sm_events);
    assert_eq!(find_windows_on_screen_updated(&reactor_events).len(), 1);

    // Second call: visible_window_ids is still [1] - no change.
    h.on_event(Event::WindowVisibilityChanged(WindowId::new(1, 1)));
    let sm_events = h.drain_sm();
    let reactor_events = find_reactor_events(&sm_events);
    assert_eq!(find_windows_on_screen_updated(&reactor_events).len(), 0);
}

#[test]
fn event_sent_when_visible_windows_change() {
    let mut h = TestHarness::new(vec![make_window(1, LAYER_NORMAL)]);
    h.on_event(Event::WindowVisibilityChanged(WindowId::new(1, 1)));
    h.drain_sm();

    h.set_mock_windows(vec![make_window(1, LAYER_NORMAL), make_window(2, LAYER_NORMAL)]);
    h.on_event(Event::WindowVisibilityChanged(WindowId::new(1, 1)));
    let sm_events = h.drain_sm();
    let reactor_events = find_reactor_events(&sm_events);
    let updates = find_windows_on_screen_updated(&reactor_events);
    assert_eq!(updates.len(), 1);
    assert_eq!(updates[0].visible.len(), 2);
}

#[test]
fn window_created_sends_windows_on_screen_if_changed() {
    let mut h = TestHarness::new(vec![make_window(1, LAYER_NORMAL)]);
    let wid = WindowId::new(1, 1);
    let info = WindowInfo {
        is_standard: true,
        title: redact::Secret::new(String::new()),
        frame: rect(0.0, 0.0, 0.0, 0.0),
        sys_id: None,
        is_resizable: true,
        ax_role: "AXWindow".to_string(),
        ax_subrole: None,
    };
    h.on_event(Event::WindowCreated(wid, info, MouseState::Up));
    let sm_events = h.drain_sm();
    let reactor_events = find_reactor_events(&sm_events);

    // Should have WindowCreated, WindowsOnScreenUpdated, WindowBecameVisible.
    assert!(reactor_events.iter().any(|e| matches!(e, ReactorEvent::WindowCreated(..))));
    assert_eq!(find_windows_on_screen_updated(&reactor_events).len(), 1);
    assert!(reactor_events.iter().any(|e| matches!(e, ReactorEvent::WindowBecameVisible(_))));
}

#[test]
fn hiding_an_app_updates_the_visible_windows() {
    let mut h = TestHarness::new(vec![make_window(1, LAYER_NORMAL), make_window(2, LAYER_NORMAL)]);
    h.on_event(Event::WindowVisibilityChanged(WindowId::new(1, 1)));
    h.drain_sm();

    h.set_mock_windows(vec![make_window(2, LAYER_NORMAL)]);
    h.on_event(hidden(1, true));
    let sm_events = h.drain_sm();
    let reactor_events = find_reactor_events(&sm_events);
    assert!(
        matches!(
            reactor_events[..],
            [
                ReactorEvent::ApplicationHiddenChanged(1, true),
                ReactorEvent::WindowsOnScreenUpdated { pid: Some(1), .. },
            ]
        ),
        "{reactor_events:?}"
    );
    let updates = find_windows_on_screen_updated(&reactor_events);
    assert_eq!(window_ids(updates[0]), [2]);
}

#[test]
fn hidden_change_schedules_a_recheck() {
    let mut h = TestHarness::new(vec![make_window(1, LAYER_NORMAL)]);
    h.on_event(shown(1));
    assert_eq!(h.ws.recheck_at(), Some(h.now + VISIBLE_WINDOWS_RECHECK_DELAY));
    h.drain_sm();

    h.set_mock_windows(vec![make_window(1, LAYER_NORMAL), make_window(2, LAYER_NORMAL)]);
    h.advance(VISIBLE_WINDOWS_RECHECK_DELAY - MS);
    assert!(find_reactor_events(&h.drain_sm()).is_empty(), "not due yet");
    h.advance(MS);
    assert_eq!(updated_pids(&h.drain_sm()), [Some(1)]);
    assert_eq!(h.ws.recheck_at(), None);
}

#[test]
fn a_burst_of_hidden_changes_is_rechecked_once() {
    let mut h = TestHarness::new(vec![make_window(1, LAYER_NORMAL)]);
    for i in 0..100 {
        h.on_event(hidden(7, i % 2 == 0));
        h.now += MS;
    }
    h.drain_sm();
    assert_eq!(h.ws.recheck_pids(), [7]);

    h.set_mock_windows(vec![]);
    // The recheck is due a delay after the first change.
    h.advance(VISIBLE_WINDOWS_RECHECK_DELAY - 101 * MS);
    assert!(find_reactor_events(&h.drain_sm()).is_empty());
    h.advance(MS);
    assert_eq!(updated_pids(&h.drain_sm()), [Some(7)]);
    h.advance(VISIBLE_WINDOWS_RECHECK_DELAY);
    assert!(find_reactor_events(&h.drain_sm()).is_empty());
    assert!(h.ws.recheck_pids().is_empty());
}

#[test]
fn a_long_series_of_hidden_changes_does_not_postpone_the_recheck() {
    let mut h = TestHarness::new(vec![make_window(1, LAYER_NORMAL)]);
    let start = h.now;
    let step = 100 * MS;
    let mut rechecks = vec![];
    for i in 0..20 {
        let scheduled = h.ws.recheck_at();
        h.on_event(hidden(7, i % 2 == 0));
        if let Some(at) = scheduled {
            assert_eq!(h.ws.recheck_at(), Some(at), "event {i} postponed the recheck");
        }
        h.drain_sm();
        // Another window appears, so each recheck reports a change.
        h.set_mock_windows(vec![make_window(1, LAYER_NORMAL), make_window(i + 2, LAYER_NORMAL)]);
        h.advance(step);
        if !updated_pids(&h.drain_sm()).is_empty() {
            rechecks.push(h.now - start);
        }
    }
    // A series of 2 s is rechecked while it lasts.
    assert!(rechecks.len() >= 5, "{rechecks:?}");
    assert!(rechecks[0] <= 2 * VISIBLE_WINDOWS_RECHECK_DELAY, "{rechecks:?}");
    assert!(
        rechecks.windows(2).all(|w| w[1] - w[0] <= VISIBLE_WINDOWS_RECHECK_DELAY + step),
        "{rechecks:?}"
    );
}

#[test]
fn recheck_request_checks_now_and_later() {
    let mut h = TestHarness::new(vec![make_window(1, LAYER_NORMAL)]);
    h.on_event(Event::RecheckVisibleWindows(3));
    assert_eq!(updated_pids(&h.drain_sm()), [Some(3)]);

    // The moved window reached the window server late.
    h.set_mock_windows(vec![make_window(1, LAYER_NORMAL), make_window(2, LAYER_NORMAL)]);
    h.advance(VISIBLE_WINDOWS_RECHECK_DELAY);
    assert_eq!(updated_pids(&h.drain_sm()), [Some(3)]);
}

#[test]
fn recheck_sends_the_visible_windows_only_if_they_changed() {
    let mut h = TestHarness::new(vec![make_window(1, LAYER_NORMAL)]);
    h.on_event(shown(1));
    h.drain_sm();
    h.advance(VISIBLE_WINDOWS_RECHECK_DELAY);
    assert!(find_reactor_events(&h.drain_sm()).is_empty());

    // The shown app's window reached the window server late.
    h.on_event(shown(1));
    h.drain_sm();
    h.set_mock_windows(vec![make_window(1, LAYER_NORMAL), make_window(2, LAYER_NORMAL)]);
    h.advance(VISIBLE_WINDOWS_RECHECK_DELAY);
    let sm_events = h.drain_sm();
    let reactor_events = find_reactor_events(&sm_events);
    let updates = find_windows_on_screen_updated(&reactor_events);
    assert_eq!(updates.len(), 1);
    assert_eq!(window_ids(updates[0]), [1, 2]);
}

#[test]
fn other_reactor_events_do_not_update_the_visible_windows() {
    let mut h = TestHarness::new(vec![make_window(1, LAYER_NORMAL)]);
    h.on_event(Event::ReactorEvent(ReactorEvent::ApplicationActivated(1, Quiet::No)));
    let sm_events = h.drain_sm();
    let reactor_events = find_reactor_events(&sm_events);
    assert_eq!(reactor_events.len(), 1);
    assert!(find_windows_on_screen_updated(&reactor_events).is_empty());
    assert_eq!(h.ws.recheck_at(), None);
}

#[test]
fn hidden_change_and_recheck_report_a_partial_update_for_the_app() {
    let mut h = TestHarness::new(vec![make_window(1, LAYER_NORMAL)]);
    h.on_event(hidden(7, false));
    assert_eq!(updated_pids(&h.drain_sm()), [Some(7)]);

    h.set_mock_windows(vec![]);
    h.advance(VISIBLE_WINDOWS_RECHECK_DELAY);
    assert_eq!(updated_pids(&h.drain_sm()), [Some(7)]);
}

#[test]
fn space_change_reports_the_current_spaces_before_the_space_change() {
    let mut h = TestHarness::new(vec![make_window(1, LAYER_NORMAL)]);
    for event in [Event::SpaceChanged, Event::RequestSpaceRefresh] {
        h.on_event(event);
        let sm_events = h.drain_sm();
        assert!(matches!(
            sm_events[..],
            [Outgoing::Reactor(ReactorEvent::ScreenSpacesChanged(_)), Outgoing::SpaceChanged(..)]
        ));
    }
}

#[test]
fn recheck_runs_once_on_the_timer_of_the_running_actor() {
    let mut h = TestHarness::new(vec![make_window(1, LAYER_NORMAL)]);
    let mut updates = vec![];
    for _ in 0..5 {
        h.on_event(Event::RecheckVisibleWindows(4));
    }
    h.advance(20 * MS);
    // Only the first immediate check found new windows.
    updates.push(updated_pids(&h.drain_sm()));

    // The window server catches up before the delayed check.
    h.set_mock_windows(vec![make_window(1, LAYER_NORMAL), make_window(2, LAYER_NORMAL)]);
    h.advance(VISIBLE_WINDOWS_RECHECK_DELAY + 250 * MS);
    updates.push(updated_pids(&h.drain_sm()));
    assert_eq!(updates, [vec![Some(4)], vec![Some(4)]]);
}

#[test]
fn hidden_change_without_a_window_change_sends_only_the_event() {
    let mut h = TestHarness::new(vec![make_window(1, LAYER_NORMAL)]);
    h.on_event(Event::WindowVisibilityChanged(WindowId::new(1, 1)));
    h.drain_sm();
    h.on_event(hidden(1, true));
    let sm_events = h.drain_sm();
    let reactor_events = find_reactor_events(&sm_events);
    assert!(
        matches!(reactor_events[..], [ReactorEvent::ApplicationHiddenChanged(1, true)]),
        "{reactor_events:?}"
    );
}

#[test]
fn same_screen_configuration_is_sent_once() {
    let mut h = TestHarness::new(vec![make_window(1, LAYER_NORMAL)]);
    h.spaces = vec![Some(ScreenSpace { id: SpaceId::new(4), fullscreen: false })];
    h.on_event(Event::ScreenParametersChanged(setup(vec![screen(9)])));
    let sent = h.drain_sm();
    let configurations: Vec<_> = sent
        .iter()
        .filter_map(|e| match e {
            Outgoing::ScreenParametersChanged { screens, spaces, .. } => Some((screens.clone(), spaces.clone())),
            _ => None,
        })
        .collect();
    assert_eq!(configurations, [(vec![9], vec![Some(SpaceId::new(4))])]);
    h.on_event(Event::ScreenParametersChanged(setup(vec![screen(9)])));
    let again = h.drain_sm();
    assert!(!again.iter().any(|e| matches!(e, Outgoing::ScreenParametersChanged { .. })));
}

#[test]
fn configuration_is_not_sent_again_when_windows_only_move() {
    let mut h = TestHarness::new(vec![make_window(1, LAYER_NORMAL), make_window(2, LAYER_NORMAL)]);
    h.on_event(Event::ScreenParametersChanged(setup(vec![screen(9)])));
    let sent = h.drain_sm();
    let converters: Vec<_> = sent
        .iter()
        .filter_map(|e| match e {
            Outgoing::ScreenParametersChanged { converter, .. } => Some(*converter),
            _ => None,
        })
        .collect();
    assert_eq!(converters, [CoordinateConverter(3)]);
    h.windows[0].frame = rect(5.0, 6.0, 7.0, 8.0);
    h.on_event(Event::ScreenParametersChanged(setup(vec![screen(9)])));
    assert!(h.drain_sm().is_empty());
    // Another order of the windows is a change.
    h.windows.swap(0, 1);
    h.on_event(Event::ScreenParametersChanged(setup(vec![screen(9)])));
    assert!(h.drain_sm().iter().any(|e| matches!(e, Outgoing::ScreenParametersChanged { .. })));
}

#[test]
fn window_server_is_read_only_where_it_matters() {
    let ws = WindowServer::new();
    assert!(ws.needs_reading(&Event::SpaceChanged));
    assert!(ws.needs_reading(&Event::RecheckVisibleWindows(1)));
    assert!(ws.needs_reading(&Event::ScreenParametersChanged(setup(vec![]))));
    assert!(!ws.needs_reading(&Event::ScreenParametersChanged(None)));
    assert!(!ws.needs_reading(&Event::RetryScreenParameters { attempt: 0, setup: setup(vec![]) }));
    assert!(ws.needs_reading(&Event::ReactorEvent(ReactorEvent::ApplicationHiddenChanged(1, true))));
    assert!(!ws.needs_reading(&Event::ReactorEvent(ReactorEvent::MouseUp)));
}

#[test]
fn other_windows_stay_watched() {
    let handle = AppThreadHandle { id: 4 };
    let mut watcher = SkylightWatcher::new();
    for id in [5, 6] {
        watcher.on_command(SkylightRequest::TrackWindow(wsid(id), WindowId::new(1, id), handle));
    }
    let told = watcher.on_notification(TERMINATED, TERMINATED, wsid(5)).unwrap();
    assert_eq!(told.request, Request::WindowDestroyed(WindowId::new(1, 5)));
    assert!(watcher.on_notification(TERMINATED, TERMINATED, wsid(5)).is_none());
    let told = watcher.on_notification(TERMINATED, TERMINATED, wsid(6)).unwrap();
    assert_eq!(told.request, Request::WindowDestroyed(WindowId::new(1, 6)));
}

#[test]
fn inconsistent_screen_configuration_is_read_again() {
    let mut h = TestHarness::new(vec![]);
    h.on_event(Event::ScreenParametersChanged(None));
    assert_eq!(retries(&h.drain_sm()), [(0, 100 * MS)]);
    // While a retry is pending no other is asked for.
    h.on_event(Event::ScreenParametersChanged(None));
    assert!(h.drain_sm().is_empty());
    // A retry that is not the pending one is ignored.
    h.spaces = vec![None];
    h.on_event(Event::RetryScreenParameters { attempt: 1, setup: setup(vec![screen(9)]) });
    assert!(h.drain_sm().is_empty());
    assert!(h.ws.awaits_retry(0));
    h.on_event(Event::RetryScreenParameters { attempt: 0, setup: setup(vec![screen(9)]) });
    assert!(h.drain_sm().iter().any(|e| matches!(e, Outgoing::ScreenParametersChanged { .. })));
    assert_eq!(h.ws.retry_state(), (0, false));
}

#[test]
fn launch_is_passed_on_with_its_windows() {
    let mut h = TestHarness::new(vec![make_window(1, LAYER_NORMAL)]);
    h.on_event(Event::ApplicationLaunched {
        pid: 3,
        handle: AppThreadHandle { id: 8 },
        info: AppInfo { bundle_id: None, localized_name: None, is_hidden: false },
        is_frontmost: true,
        main_window: None,
        visible_windows: vec![],
    });
    let sent = h.drain_sm();
    let events = find_reactor_events(&sent);
    assert!(events
        .iter()
        .any(|e| matches!(e, ReactorEvent::ApplicationLaunched { pid: 3, handle: AppThreadHandle { id: 8 }, .. })));
}

#[test]
fn destroyed_window_is_reported_to_its_app_once() {
    let mut h = TestHarness::new(vec![]);
    let handle = AppThreadHandle { id: 2 };
    h.on_event(Event::RegisterWindow(wsid(5), WindowId::new(1, 7), handle));
    let mut watcher = SkylightWatcher::new();
    for out in h.drain_sm() {
        if let Outgoing::Skylight(command) = out {
            assert_eq!(command, SkylightRequest::TrackWindow(wsid(5), WindowId::new(1, 7), handle));
            watcher.on_command(command);
        }
    }
    assert!(watcher.on_notification(TERMINATED, TERMINATED, wsid(6)).is_none());
    assert!(watcher.on_notification(1, TERMINATED, wsid(5)).is_none());
    let sent = watcher.on_notification(TERMINATED, TERMINATED, wsid(5)).unwrap();
    assert_eq!(sent.handle, handle);
    assert_eq!(sent.request, Request::WindowDestroyed(WindowId::new(1, 7)));
    assert!(watcher.on_notification(TERMINATED, TERMINATED, wsid(5)).is_none());
}
