//! Takes events from apps and adds information from the window server before
//! they go on to the reactor.
//!
//! What the window server reports is read by the caller and handed in.
use vstd::prelude::*;

use crate::apps::{AppInfo, WindowInfo};
use crate::events::{ids_of, Event as ReactorEvent, MouseState, Quiet, WindowServerInfo, WindowsOnScreen};
use crate::geometry::{CoordinateConverter, Rect};
use crate::ids::{copy_wsids, Pid, WindowId, WindowServerId};
use crate::number::Number;
use crate::ordered::{in_order, OrdMap};
use crate::request::{AppThreadHandle, Request, Sent};
use crate::sequences::{lemma_filter_step, lemma_take_all};
use crate::space::{ScreenSpace, SpaceId};

verus! {

/// The levels of windows that count. Everything else (e.g. status bar items,
/// screensavers, system overlays) is filtered out early.
pub const LAYER_NORMAL: i32 = 0;

pub const LAYER_FLOATING: i32 = 3;

/// The level of status windows, which some panels use.
pub const LAYER_STATUS: i32 = 8;

/// How long after the windows of an app may have changed (it was hidden or
/// shown, or a window was moved to another space) to check the visible windows
/// again, in case the window server had not caught up at the first check. In
/// nanoseconds.
pub const VISIBLE_WINDOWS_RECHECK_DELAY: u64 = 250_000_000;

/// The number of times an inconsistent screen configuration is read again.
pub const RETRIES: u8 = 3;

/// How long to wait before each time, in nanoseconds.
pub const FIRST_RETRY_DELAY: u64 = 100_000_000;

pub const SECOND_RETRY_DELAY: u64 = 250_000_000;

pub const THIRD_RETRY_DELAY: u64 = 500_000_000;

/// A screen of the screen configuration.
#[derive(Clone, Copy, Debug, PartialEq, Eq, Structural)]
pub struct ScreenInfo {
    pub id: u32,
    pub visible_frame: Rect,
    pub scale_factor: Number,
}

/// A screen configuration that was read.
#[derive(Debug)]
pub struct ScreenSetup {
    pub screens: Vec<ScreenInfo>,
    pub converter: CoordinateConverter,
}

/// A screen configuration that was read, as a value.
#[verifier::ext_equal]
pub struct SetupView {
    pub screens: Seq<ScreenInfo>,
    pub converter: CoordinateConverter,
}

impl View for ScreenSetup {
    type V = SetupView;

    open spec fn view(&self) -> SetupView {
        SetupView { screens: self.screens@, converter: self.converter }
    }
}

/// An event for the window server actor.
#[allow(inconsistent_fields)]
#[derive(Debug)]
pub enum Event {
    /// Screen configuration changed. Without one, what was read of it is
    /// inconsistent.
    ScreenParametersChanged(Option<ScreenSetup>),
    /// A display snapshot requested after a transiently inconsistent update. It
    /// is taken in only if the retry is the one that is pending, see
    /// [`WindowServer::awaits_retry`].
    RetryScreenParameters { attempt: u8, setup: Option<ScreenSetup> },
    /// The active space changed.
    SpaceChanged,
    /// The destruction of the window should be watched, since apps do not
    /// always report it.
    RegisterWindow(WindowServerId, WindowId, AppThreadHandle),
    /// A new window was created.
    WindowCreated(WindowId, WindowInfo, MouseState),
    /// The main window of an application changed.
    ApplicationMainWindowChanged(Pid, Option<WindowId>, Quiet),
    /// A window was minimized or unminimized.
    WindowVisibilityChanged(WindowId),
    ApplicationLaunched {
        pid: Pid,
        handle: AppThreadHandle,
        info: AppInfo,
        is_frontmost: bool,
        main_window: Option<WindowId>,
        visible_windows: Vec<(WindowId, WindowInfo)>,
    },
    /// Reactor event passthrough.
    ///
    /// All reactor events go through here so they reach the reactor in the
    /// correct order with respect to the other events above.
    ReactorEvent(ReactorEvent),
    /// Sent when a fresh window list is needed (e.g. after toggling a space or
    /// exiting expose).
    RequestSpaceRefresh,
    /// The windows of the app may have changed without a notification, e.g.
    /// after one was moved to another space. Checks the visible windows now and
    /// again shortly after.
    RecheckVisibleWindows(Pid),
}

/// What the window server reports at the time of an event.
pub struct Reading {
    /// All visible windows, front to back.
    pub windows: Vec<WindowServerInfo>,
    /// The space that each screen shows.
    pub spaces: Vec<Option<ScreenSpace>>,
}

/// A request to the watcher of windows.
#[derive(Clone, Copy, Debug, PartialEq, Eq, Structural)]
pub enum SkylightRequest {
    TrackWindow(WindowServerId, WindowId, AppThreadHandle),
}

/// Something to send on.
#[allow(inconsistent_fields)]
pub enum Outgoing {
    /// An event for the reactor.
    Reactor(ReactorEvent),
    /// A change of the current space, for the space manager.
    SpaceChanged(Vec<Option<SpaceId>>, WindowsOnScreen),
    /// A change of the screen configuration, for the space manager.
    ScreenParametersChanged {
        screens: Vec<u32>,
        frames: Vec<Rect>,
        spaces: Vec<Option<SpaceId>>,
        scale_factors: Vec<Number>,
        converter: CoordinateConverter,
        on_screen: WindowsOnScreen,
    },
    Skylight(SkylightRequest),
    /// Read the screen configuration again after the delay, in nanoseconds.
    Retry { attempt: u8, delay: u64 },
}

/// Something to send on, as a value.
#[allow(inconsistent_fields)]
#[verifier::ext_equal]
pub enum OutgoingView {
    Reactor(ReactorEvent),
    /// The windows on screen changed, for the reactor.
    OnScreen { pid: Option<Pid>, visible: Seq<WindowServerId>, info: Seq<WindowServerInfo> },
    /// The spaces that the screens show, for the reactor.
    ScreenSpaces(Seq<Option<ScreenSpace>>),
    SpaceChanged { spaces: Seq<Option<SpaceId>>, visible: Seq<WindowServerId>, info: Seq<WindowServerInfo> },
    ScreenParametersChanged {
        screens: Seq<u32>,
        frames: Seq<Rect>,
        spaces: Seq<Option<SpaceId>>,
        scale_factors: Seq<Number>,
        converter: CoordinateConverter,
        visible: Seq<WindowServerId>,
        info: Seq<WindowServerInfo>,
    },
    Skylight(SkylightRequest),
    Retry { attempt: u8, delay: u64 },
}

impl View for Outgoing {
    type V = OutgoingView;

    open spec fn view(&self) -> OutgoingView {
        match *self {
            Outgoing::Reactor(ReactorEvent::WindowsOnScreenUpdated { pid, on_screen }) => OutgoingView::OnScreen {
                pid,
                visible: on_screen.visible@,
                info: on_screen.info@,
            },
            Outgoing::Reactor(ReactorEvent::ScreenSpacesChanged(spaces)) => OutgoingView::ScreenSpaces(spaces@),
            Outgoing::Reactor(event) => OutgoingView::Reactor(event),
            Outgoing::SpaceChanged(spaces, on_screen) => OutgoingView::SpaceChanged {
                spaces: spaces@,
                visible: on_screen.visible@,
                info: on_screen.info@,
            },
            Outgoing::ScreenParametersChanged { screens, frames, spaces, scale_factors, converter, on_screen } =>
                OutgoingView::ScreenParametersChanged {
                screens: screens@,
                frames: frames@,
                spaces: spaces@,
                scale_factors: scale_factors@,
                converter,
                visible: on_screen.visible@,
                info: on_screen.info@,
            },
            Outgoing::Skylight(request) => OutgoingView::Skylight(request),
            Outgoing::Retry { attempt, delay } => OutgoingView::Retry { attempt, delay },
        }
    }
}

/// What is sent on, as values.
pub open spec fn sent(out: Seq<Outgoing>) -> Seq<OutgoingView> {
    out.map_values(|o: Outgoing| o@)
}

/// A screen configuration, along with the window order it was sent with.
struct ScreenConfig {
    screens: Vec<ScreenInfo>,
    spaces: Vec<Option<ScreenSpace>>,
    visible: Vec<WindowServerId>,
}

/// Actor that takes events from app actors and adds information from the window
/// server before sending them on to the reactor via the space manager.
pub struct WindowServer {
    /// Window server IDs currently visible on screen.
    visible_window_ids: Vec<WindowServerId>,
    /// Apps whose visible windows are checked again at `recheck_at`.
    recheck_pids: OrdMap<Pid, ()>,
    /// When to check the visible windows again, in nanoseconds. Later changes
    /// do not postpone it, so a burst of changes is checked once.
    recheck_at: Option<u64>,
    screen_config_retry_attempt: u8,
    screen_config_retry_pending: bool,
    /// The screen configuration last sent downstream.
    last_screen_config: Option<ScreenConfig>,
}

/// A screen configuration as a value.
#[verifier::ext_equal]
pub struct ConfigView {
    pub screens: Seq<ScreenInfo>,
    pub spaces: Seq<Option<ScreenSpace>>,
    pub visible: Seq<WindowServerId>,
}

/// What the actor knows.
#[verifier::ext_equal]
pub struct WindowServerView {
    pub visible: Seq<WindowServerId>,
    pub recheck_pids: Set<Pid>,
    pub recheck_at: Option<u64>,
    pub retry_attempt: u8,
    pub retry_pending: bool,
    pub last_config: Option<ConfigView>,
}

/// What the actor knows after an event, and what it sends on.
#[verifier::ext_equal]
pub struct Handled {
    pub state: WindowServerView,
    pub out: Seq<OutgoingView>,
}

/// The window counts.
pub open spec fn relevant(w: WindowServerInfo) -> bool {
    w.layer == LAYER_NORMAL || w.layer == LAYER_FLOATING || w.layer == LAYER_STATUS
}

/// The windows that count, front to back.
pub open spec fn relevant_windows(windows: Seq<WindowServerInfo>) -> Seq<WindowServerInfo> {
    windows.filter(|w: WindowServerInfo| relevant(w))
}

/// The numbers of the spaces that the screens show.
pub open spec fn space_ids(spaces: Seq<Option<ScreenSpace>>) -> Seq<Option<SpaceId>> {
    spaces.map_values(
        |s: Option<ScreenSpace>|
            match s {
                Some(s) => Some(s.id),
                None => None,
            },
    )
}

impl ScreenInfo {
    /// The screens have equal properties.
    pub open spec fn same(self, other: ScreenInfo) -> bool {
        self.id == other.id && self.visible_frame.same(other.visible_frame) && self.scale_factor.same(
            other.scale_factor,
        )
    }

    fn same_screen(self, other: ScreenInfo) -> (b: bool)
        ensures
            b == self.same(other),
    {
        self.id == other.id && self.visible_frame.same_rect(other.visible_frame) && self.scale_factor.same_value(
            other.scale_factor,
        )
    }
}

impl ConfigView {
    /// The configurations are equal, and so is the order of the windows.
    /// Windows that are merely moving do not count as a change.
    pub open spec fn same(self, other: ConfigView) -> bool {
        &&& self.screens.len() == other.screens.len()
        &&& forall|i: int| 0 <= i < self.screens.len() ==> (#[trigger] self.screens[i]).same(other.screens[i])
        &&& self.spaces == other.spaces
        &&& self.visible == other.visible
    }
}

/// The delay before the attempt to read the screen configuration again.
pub open spec fn retry_delay(attempt: u8) -> u64 {
    if attempt == 0 {
        FIRST_RETRY_DELAY
    } else if attempt == 1 {
        SECOND_RETRY_DELAY
    } else {
        THIRD_RETRY_DELAY
    }
}

impl WindowServerView {
    pub open spec fn only(self) -> Handled {
        Handled { state: self, out: Seq::empty() }
    }

    /// The state once the visible windows were read.
    pub open spec fn seeing(self, windows: Seq<WindowServerInfo>) -> WindowServerView {
        WindowServerView { visible: ids_of(relevant_windows(windows)), ..self }
    }

    /// The windows on screen are reported, if they are others than before.
    pub open spec fn reporting(self, pid: Option<Pid>, windows: Seq<WindowServerInfo>) -> Handled {
        let after = self.seeing(windows);
        Handled {
            state: after,
            out: if after.visible == self.visible {
                Seq::empty()
            } else {
                seq![OutgoingView::OnScreen { pid, visible: after.visible, info: relevant_windows(windows) }]
            },
        }
    }

    /// The visible windows are checked now, and once more a delay after the
    /// first such check since the last recheck. Later checks do not postpone a
    /// scheduled recheck.
    pub open spec fn rechecking(self, pid: Pid, windows: Seq<WindowServerInfo>, now: u64) -> Handled {
        let h = self.reporting(Some(pid), windows);
        Handled {
            state: WindowServerView {
                recheck_pids: h.state.recheck_pids.insert(pid),
                recheck_at: match h.state.recheck_at {
                    Some(at) => Some(at),
                    None => Some((now + VISIBLE_WINDOWS_RECHECK_DELAY) as u64),
                },
                ..h.state
            },
            ..h
        }
    }

    /// Whether the recheck is due.
    pub open spec fn recheck_due(self, now: u64) -> bool {
        self.recheck_at matches Some(at) && at <= now
    }

    /// The state once the due recheck has begun.
    pub open spec fn after_recheck(self, now: u64) -> WindowServerView {
        if self.recheck_due(now) {
            WindowServerView { recheck_at: None, recheck_pids: Set::empty(), ..self }
        } else {
            self
        }
    }

    /// An inconsistent screen configuration is read again after a while, unless
    /// that is pending or was tried too often. The next one then gets its own
    /// retries.
    pub open spec fn retrying(self) -> Handled {
        if self.retry_pending {
            self.only()
        } else if self.retry_attempt < RETRIES {
            Handled {
                state: WindowServerView { retry_pending: true, ..self },
                out: seq![
                    OutgoingView::Retry { attempt: self.retry_attempt, delay: retry_delay(self.retry_attempt) },
                ],
            }
        } else {
            WindowServerView { retry_attempt: 0, ..self }.only()
        }
    }

    /// A screen configuration was read. It is sent on if it or the order of the
    /// windows changed: the same configuration is also reported after the
    /// system restacks windows, and that is the cue to put them back.
    pub open spec fn configured(self, setup: Option<SetupView>, reading: Reading) -> Handled {
        match setup {
            None => self.retrying(),
            Some(SetupView { screens, converter }) => {
                let seen = WindowServerView { retry_attempt: 0, retry_pending: false, ..self }.seeing(
                    reading.windows@,
                );
                let config = ConfigView { screens, spaces: reading.spaces@, visible: seen.visible };
                if seen.last_config matches Some(last) && last.same(config) {
                    seen.only()
                } else {
                    Handled {
                        state: WindowServerView { last_config: Some(config), ..seen },
                        out: seq![
                            OutgoingView::ScreenSpaces(reading.spaces@),
                            OutgoingView::ScreenParametersChanged {
                                screens: screens.map_values(|s: ScreenInfo| s.id),
                                frames: screens.map_values(|s: ScreenInfo| s.visible_frame),
                                spaces: space_ids(reading.spaces@),
                                scale_factors: screens.map_values(|s: ScreenInfo| s.scale_factor),
                                converter,
                                visible: seen.visible,
                                info: relevant_windows(reading.windows@),
                            },
                        ],
                    }
                }
            },
        }
    }

    /// Whether the retry is the one that is pending.
    pub open spec fn awaits(self, attempt: u8) -> bool {
        self.retry_pending && attempt == self.retry_attempt
    }

    /// Whether what the window server reports matters for the event.
    pub open spec fn reads(self, event: Event) -> bool {
        match event {
            Event::ScreenParametersChanged(setup) => setup is Some,
            Event::RetryScreenParameters { attempt, setup } => self.awaits(attempt) && setup is Some,
            Event::RegisterWindow(_, _, _) | Event::ApplicationMainWindowChanged(_, _, _) => false,
            Event::ReactorEvent(event) => event is ApplicationHiddenChanged,
            _ => true,
        }
    }

    /// What follows from an event.
    pub open spec fn handling(self, event: Event, reading: Reading, now: u64) -> Handled {
        match event {
            Event::RegisterWindow(wsid, wid, handle) => Handled {
                state: self,
                out: seq![OutgoingView::Skylight(SkylightRequest::TrackWindow(wsid, wid, handle))],
            },
            Event::ScreenParametersChanged(setup) => self.configured(setup_in(setup), reading),
            Event::RetryScreenParameters { attempt, setup } => if self.awaits(attempt) {
                WindowServerView {
                    retry_pending: false,
                    retry_attempt: (self.retry_attempt + 1) as u8,
                    ..self
                }.configured(setup_in(setup), reading)
            } else {
                self.only()
            },
            Event::SpaceChanged | Event::RequestSpaceRefresh => {
                let seen = self.seeing(reading.windows@);
                Handled {
                    state: seen,
                    out: seq![
                        OutgoingView::ScreenSpaces(reading.spaces@),
                        OutgoingView::SpaceChanged {
                            spaces: space_ids(reading.spaces@),
                            visible: seen.visible,
                            info: relevant_windows(reading.windows@),
                        },
                    ],
                }
            },
            Event::WindowCreated(wid, info, mouse) => {
                let h = self.reporting(Some(wid.pid), reading.windows@);
                Handled {
                    state: h.state,
                    out: seq![OutgoingView::Reactor(ReactorEvent::WindowCreated(wid, info, mouse))] + h.out + seq![
                        OutgoingView::Reactor(ReactorEvent::WindowBecameVisible(wid)),
                    ],
                }
            },
            Event::ApplicationMainWindowChanged(pid, wid, quiet) => Handled {
                state: self,
                out: seq![OutgoingView::Reactor(ReactorEvent::ApplicationMainWindowChanged(pid, wid, quiet))],
            },
            Event::WindowVisibilityChanged(wid) => self.reporting(Some(wid.pid), reading.windows@),
            Event::ApplicationLaunched { pid, handle, info, is_frontmost, main_window, visible_windows } => {
                let seen = self.seeing(reading.windows@);
                Handled {
                    state: seen,
                    out: seq![
                        OutgoingView::OnScreen {
                            pid: Some(pid),
                            visible: seen.visible,
                            info: relevant_windows(reading.windows@),
                        },
                        OutgoingView::Reactor(
                            ReactorEvent::ApplicationLaunched {
                                pid,
                                info,
                                handle,
                                is_frontmost,
                                main_window,
                                visible_windows,
                            },
                        ),
                    ],
                }
            },
            Event::ReactorEvent(event) => {
                let passed = seq![Outgoing::Reactor(event)@];
                match event {
                    ReactorEvent::ApplicationHiddenChanged(pid, _) => {
                        let h = self.rechecking(pid, reading.windows@, now);
                        Handled { state: h.state, out: passed + h.out }
                    },
                    _ => Handled { state: self, out: passed },
                }
            },
            Event::RecheckVisibleWindows(pid) => self.rechecking(pid, reading.windows@, now),
        }
    }
}

/// The configuration that was read, if it is consistent.
pub open spec fn setup_in(setup: Option<ScreenSetup>) -> Option<SetupView> {
    match setup {
        Some(setup) => Some(setup@),
        None => None,
    }
}

impl View for WindowServer {
    type V = WindowServerView;

    closed spec fn view(&self) -> WindowServerView {
        WindowServerView {
            visible: self.visible_window_ids@,
            recheck_pids: self.recheck_pids@.dom(),
            recheck_at: self.recheck_at,
            retry_attempt: self.screen_config_retry_attempt,
            retry_pending: self.screen_config_retry_pending,
            last_config: match self.last_screen_config {
                Some(c) => Some(c.model()),
                None => None,
            },
        }
    }
}

impl ScreenConfig {
    spec fn model(self) -> ConfigView {
        ConfigView { screens: self.screens@, spaces: self.spaces@, visible: self.visible@ }
    }

    fn same_config(&self, other: &ScreenConfig) -> (b: bool)
        ensures
            b == self.model().same(other.model()),
    {
        if self.screens.len() != other.screens.len() || self.spaces.len() != other.spaces.len()
            || self.visible.len() != other.visible.len() {
            return false;
        }
        let mut i: usize = 0;
        while i < self.screens.len()
            invariant
                i <= self.screens.len(),
                self.screens.len() == other.screens.len(),
                forall|j: int| 0 <= j < i ==> (#[trigger] self.screens@[j]).same(other.screens@[j]),
            decreases self.screens.len() - i,
        {
            if !self.screens[i].same_screen(other.screens[i]) {
                proof {
                    assert(!self.model().screens[i as int].same(other.model().screens[i as int]));
                }
                return false;
            }
            i += 1;
        }
        let mut i: usize = 0;
        while i < self.spaces.len()
            invariant
                i <= self.spaces.len(),
                self.spaces.len() == other.spaces.len(),
                forall|j: int| 0 <= j < i ==> self.spaces@[j] == other.spaces@[j],
            decreases self.spaces.len() - i,
        {
            if self.spaces[i] != other.spaces[i] {
                return false;
            }
            i += 1;
        }
        proof {
            assert(self.spaces@ =~= other.spaces@);
        }
        same_ids(&self.visible, &other.visible)
    }
}

fn same_ids(a: &Vec<WindowServerId>, b: &Vec<WindowServerId>) -> (r: bool)
    ensures
        r == (a@ == b@),
{
    if a.len() != b.len() {
        return false;
    }
    let mut i: usize = 0;
    while i < a.len()
        invariant
            i <= a.len(),
            a.len() == b.len(),
            forall|j: int| 0 <= j < i ==> a@[j] == b@[j],
        decreases a.len() - i,
    {
        if a[i] != b[i] {
            return false;
        }
        i += 1;
    }
    proof {
        assert(a@ =~= b@);
    }
    true
}

impl WindowServer {
    /// The retries are counted up to their number, and one that is pending is
    /// among them.
    pub closed spec fn wf(&self) -> bool {
        &&& self.recheck_pids.wf()
        &&& self.screen_config_retry_attempt <= RETRIES
        &&& self.screen_config_retry_pending ==> self.screen_config_retry_attempt < RETRIES
    }

    /// Finitely many apps are checked again.
    pub proof fn known_sets_are_finite(&self)
        requires
            self.wf(),
        ensures
            self@.recheck_pids.finite(),
    {
        self.recheck_pids.lemma_keys();
    }

    pub fn new() -> (ws: WindowServer)
        ensures
            ws.wf(),
            ws@ == (WindowServerView {
                visible: Seq::empty(),
                recheck_pids: Set::empty(),
                recheck_at: None,
                retry_attempt: 0,
                retry_pending: false,
                last_config: None,
            }),
    {
        let ws = WindowServer {
            visible_window_ids: Vec::new(),
            recheck_pids: OrdMap::new(),
            recheck_at: None,
            screen_config_retry_attempt: 0,
            screen_config_retry_pending: false,
            last_screen_config: None,
        };
        proof {
            assert(ws@.recheck_pids =~= Set::<Pid>::empty());
        }
        ws
    }

    /// When the visible windows are checked again.
    pub fn recheck_at(&self) -> (at: Option<u64>)
        ensures
            at == self@.recheck_at,
    {
        self.recheck_at
    }

    /// The apps whose visible windows are checked again.
    pub fn recheck_pids(&self) -> (pids: Vec<Pid>)
        requires
            self.wf(),
        ensures
            pids@ == in_order(self@.recheck_pids),
    {
        self.recheck_pids.keys()
    }

    /// Whether the retry is the one that is pending. Only then is the screen
    /// configuration read again.
    pub fn awaits_retry(&self, attempt: u8) -> (b: bool)
        ensures
            b == self@.awaits(attempt),
    {
        self.screen_config_retry_pending && attempt == self.screen_config_retry_attempt
    }

    /// Whether what the window server reports has to be read for the event.
    pub fn needs_reading(&self, event: &Event) -> (b: bool)
        ensures
            b == self@.reads(*event),
    {
        match event {
            Event::ScreenParametersChanged(setup) => setup.is_some(),
            Event::RetryScreenParameters { attempt, setup } => self.awaits_retry(*attempt) && setup.is_some(),
            Event::RegisterWindow(_, _, _) | Event::ApplicationMainWindowChanged(_, _, _) => false,
            Event::ReactorEvent(event) => match event {
                ReactorEvent::ApplicationHiddenChanged(_, _) => true,
                _ => false,
            },
            _ => true,
        }
    }

    /// The number of retries so far, and whether one is pending.
    pub fn retry_state(&self) -> (s: (u8, bool))
        ensures
            s == (self@.retry_attempt, self@.retry_pending),
    {
        (self.screen_config_retry_attempt, self.screen_config_retry_pending)
    }

    pub fn on_event(&mut self, event: Event, reading: Reading, now: u64) -> (out: Vec<Outgoing>)
        requires
            old(self).wf(),
            now + VISIBLE_WINDOWS_RECHECK_DELAY <= u64::MAX,
        ensures
            final(self).wf(),
            final(self)@ == old(self)@.handling(event, reading, now).state,
            sent(out@) == old(self)@.handling(event, reading, now).out,
    {
        let ghost v = self@;
        let ghost given = event;
        let ghost read = reading;
        let mut out: Vec<Outgoing> = Vec::new();
        match event {
            Event::RegisterWindow(wsid, wid, handle) => {
                out.push(Outgoing::Skylight(SkylightRequest::TrackWindow(wsid, wid, handle)));
            },
            Event::ScreenParametersChanged(setup) => {
                return self.handle_screen_parameters(setup, reading);
            },
            Event::RetryScreenParameters { attempt, setup } => {
                if self.awaits_retry(attempt) {
                    self.screen_config_retry_pending = false;
                    self.screen_config_retry_attempt += 1;
                    return self.handle_screen_parameters(setup, reading);
                }
            },
            Event::SpaceChanged | Event::RequestSpaceRefresh => {
                let spaces = ids_of_spaces(&reading.spaces);
                let on_screen = self.get_windows_on_screen(&reading.windows);
                out.push(Outgoing::Reactor(ReactorEvent::ScreenSpacesChanged(reading.spaces)));
                out.push(Outgoing::SpaceChanged(spaces, on_screen));
            },
            Event::WindowCreated(wid, info, mouse) => {
                out.push(Outgoing::Reactor(ReactorEvent::WindowCreated(wid, info, mouse)));
                let mut changed = self.send_windows_on_screen_if_changed(Some(wid.pid), &reading.windows);
                out.append(&mut changed);
                out.push(Outgoing::Reactor(ReactorEvent::WindowBecameVisible(wid)));
            },
            Event::ApplicationMainWindowChanged(pid, wid, quiet) => {
                out.push(Outgoing::Reactor(ReactorEvent::ApplicationMainWindowChanged(pid, wid, quiet)));
            },
            Event::WindowVisibilityChanged(wid) => {
                return self.send_windows_on_screen_if_changed(Some(wid.pid), &reading.windows);
            },
            Event::ApplicationLaunched { pid, handle, info, is_frontmost, main_window, visible_windows } => {
                let on_screen = self.get_windows_on_screen(&reading.windows);
                out.push(Outgoing::Reactor(ReactorEvent::WindowsOnScreenUpdated { pid: Some(pid), on_screen }));
                out.push(
                    Outgoing::Reactor(
                        ReactorEvent::ApplicationLaunched {
                            pid,
                            info,
                            handle,
                            is_frontmost,
                            main_window,
                            visible_windows,
                        },
                    ),
                );
            },
            Event::ReactorEvent(event) => {
                let hidden_changed = match &event {
                    ReactorEvent::ApplicationHiddenChanged(pid, _) => Some(*pid),
                    _ => None,
                };
                out.push(Outgoing::Reactor(event));
                match hidden_changed {
                    Some(pid) => {
                        let mut changed = self.recheck_visible_windows(pid, &reading.windows, now);
                        out.append(&mut changed);
                    },
                    None => {},
                }
            },
            Event::RecheckVisibleWindows(pid) => {
                return self.recheck_visible_windows(pid, &reading.windows, now);
            },
        }
        proof {
            assert(sent(out@) =~= v.handling(given, read, now).out);
        }
        out
    }

    /// Checks the visible windows now, and once more
    /// `VISIBLE_WINDOWS_RECHECK_DELAY` after the first such call since the
    /// last recheck. Later calls do not postpone a scheduled recheck.
    fn recheck_visible_windows(&mut self, pid: Pid, windows: &Vec<WindowServerInfo>, now: u64) -> (out: Vec<
        Outgoing,
    >)
        requires
            old(self).wf(),
            now + VISIBLE_WINDOWS_RECHECK_DELAY <= u64::MAX,
        ensures
            final(self).wf(),
            final(self)@ == old(self)@.rechecking(pid, windows@, now).state,
            sent(out@) == old(self)@.rechecking(pid, windows@, now).out,
    {
        let ghost v = self@;
        let out = self.send_windows_on_screen_if_changed(Some(pid), windows);
        self.recheck_pids.insert(pid, ());
        if self.recheck_at.is_none() {
            self.recheck_at = Some(now + VISIBLE_WINDOWS_RECHECK_DELAY);
        }
        proof {
            assert(self@.recheck_pids =~= v.recheck_pids.insert(pid));
        }
        out
    }

    /// Begins the recheck if it is due, and returns the apps to check. The
    /// windows of each are read and handed to
    /// [`WindowServer::send_windows_on_screen_if_changed`].
    pub fn take_due_recheck(&mut self, now: u64) -> (pids: Vec<Pid>)
        requires
            old(self).wf(),
        ensures
            final(self).wf(),
            final(self)@ == old(self)@.after_recheck(now),
            pids@ == (if old(self)@.recheck_due(now) {
                in_order(old(self)@.recheck_pids)
            } else {
                Seq::empty()
            }),
    {
        let due = match self.recheck_at {
            Some(at) => at <= now,
            None => false,
        };
        if !due {
            return Vec::new();
        }
        self.recheck_at = None;
        let pids = self.recheck_pids.keys();
        self.recheck_pids = OrdMap::new();
        proof {
            assert(self@.recheck_pids =~= Set::<Pid>::empty());
        }
        pids
    }

    fn handle_screen_parameters(&mut self, setup: Option<ScreenSetup>, reading: Reading) -> (out: Vec<Outgoing>)
        requires
            old(self).wf(),
        ensures
            final(self).wf(),
            final(self)@ == old(self)@.configured(setup_in(setup), reading).state,
            sent(out@) == old(self)@.configured(setup_in(setup), reading).out,
    {
        let ghost v = self@;
        let ghost given = setup_in(setup);
        let ghost read = reading;
        let ScreenSetup { screens, converter } = match setup {
            Some(setup) => setup,
            None => {
                return self.schedule_screen_config_retry();
            },
        };
        self.screen_config_retry_attempt = 0;
        self.screen_config_retry_pending = false;
        let on_screen = self.get_windows_on_screen(&reading.windows);
        let mut out: Vec<Outgoing> = Vec::new();
        let spaces = copy_spaces(&reading.spaces);
        let config = ScreenConfig {
            screens,
            spaces: reading.spaces,
            visible: copy_wsids(&on_screen.visible),
        };
        let unchanged = match &self.last_screen_config {
            Some(last) => last.same_config(&config),
            None => false,
        };
        if unchanged {
            proof {
                assert(sent(out@) =~= Seq::empty());
            }
            return out;
        }
        let space_ids = ids_of_spaces(&spaces);
        let (ids, frames, scale_factors) = screen_properties(&config.screens);
        self.last_screen_config = Some(config);
        out.push(Outgoing::Reactor(ReactorEvent::ScreenSpacesChanged(spaces)));
        out.push(
            Outgoing::ScreenParametersChanged {
                screens: ids,
                frames,
                spaces: space_ids,
                scale_factors,
                converter,
                on_screen,
            },
        );
        proof {
            assert(sent(out@) =~= v.configured(given, read).out);
        }
        out
    }

    fn schedule_screen_config_retry(&mut self) -> (out: Vec<Outgoing>)
        requires
            old(self).wf(),
        ensures
            final(self).wf(),
            final(self)@ == old(self)@.retrying().state,
            sent(out@) == old(self)@.retrying().out,
    {
        let ghost v = self@;
        let mut out: Vec<Outgoing> = Vec::new();
        if !self.screen_config_retry_pending {
            let attempt = self.screen_config_retry_attempt;
            if attempt < RETRIES {
                self.screen_config_retry_pending = true;
                let delay: u64 = if attempt == 0 {
                    FIRST_RETRY_DELAY
                } else if attempt == 1 {
                    SECOND_RETRY_DELAY
                } else {
                    THIRD_RETRY_DELAY
                };
                out.push(Outgoing::Retry { attempt, delay });
            } else {
                // Start over, so that the next inconsistent update gets its own
                // retries. Otherwise the counter stays exhausted until some
                // later update happens to succeed.
                self.screen_config_retry_attempt = 0;
            }
        }
        proof {
            assert(sent(out@) =~= v.retrying().out);
        }
        out
    }

    /// Sends a `WindowsOnScreenUpdated` event if the visible windows changed.
    pub fn send_windows_on_screen_if_changed(&mut self, pid: Option<Pid>, windows: &Vec<WindowServerInfo>) -> (out:
        Vec<Outgoing>)
        requires
            old(self).wf(),
        ensures
            final(self).wf(),
            final(self)@ == old(self)@.reporting(pid, windows@).state,
            sent(out@) == old(self)@.reporting(pid, windows@).out,
    {
        let ghost v = self@;
        let before = copy_wsids(&self.visible_window_ids);
        let on_screen = self.get_windows_on_screen(windows);
        let mut out: Vec<Outgoing> = Vec::new();
        if !same_ids(&self.visible_window_ids, &before) {
            out.push(Outgoing::Reactor(ReactorEvent::WindowsOnScreenUpdated { pid, on_screen }));
        }
        proof {
            assert(sent(out@) =~= v.reporting(pid, windows@).out);
        }
        out
    }

    fn get_windows_on_screen(&mut self, windows: &Vec<WindowServerInfo>) -> (on_screen: WindowsOnScreen)
        requires
            old(self).wf(),
        ensures
            final(self).wf(),
            final(self)@ == old(self)@.seeing(windows@),
            on_screen.info@ == relevant_windows(windows@),
            on_screen.visible@ == ids_of(relevant_windows(windows@)),
    {
        let ghost p = |w: WindowServerInfo| relevant(w);
        let mut kept: Vec<WindowServerInfo> = Vec::new();
        let mut i: usize = 0;
        proof {
            assert(windows@.take(0).filter(p) =~= Seq::empty()) by {
                reveal(Seq::filter);
            }
        }
        while i < windows.len()
            invariant
                i <= windows.len(),
                p == (|w: WindowServerInfo| relevant(w)),
                kept@ == windows@.take(i as int).filter(p),
            decreases windows.len() - i,
        {
            let w = windows[i];
            proof {
                lemma_filter_step(windows@, p, i as int);
            }
            if w.layer == LAYER_NORMAL || w.layer == LAYER_FLOATING || w.layer == LAYER_STATUS {
                kept.push(w);
            }
            i += 1;
        }
        proof {
            lemma_take_all(windows@);
        }
        let on_screen = WindowsOnScreen::new(kept);
        self.visible_window_ids = copy_wsids(&on_screen.visible);
        on_screen
    }
}

fn ids_of_spaces(spaces: &Vec<Option<ScreenSpace>>) -> (ids: Vec<Option<SpaceId>>)
    ensures
        ids@ == space_ids(spaces@),
{
    let mut ids: Vec<Option<SpaceId>> = Vec::new();
    let mut i: usize = 0;
    while i < spaces.len()
        invariant
            i <= spaces.len(),
            ids@ == space_ids(spaces@.take(i as int)),
        decreases spaces.len() - i,
    {
        let id = match spaces[i] {
            Some(s) => Some(s.id),
            None => None,
        };
        ids.push(id);
        proof {
            assert(ids@ =~= space_ids(spaces@.take(i + 1)));
        }
        i += 1;
    }
    proof {
        lemma_take_all(spaces@);
    }
    ids
}

fn copy_spaces(spaces: &Vec<Option<ScreenSpace>>) -> (copy: Vec<Option<ScreenSpace>>)
    ensures
        copy@ == spaces@,
{
    let mut copy: Vec<Option<ScreenSpace>> = Vec::new();
    let mut i: usize = 0;
    while i < spaces.len()
        invariant
            i <= spaces.len(),
            copy@ == spaces@.take(i as int),
        decreases spaces.len() - i,
    {
        copy.push(spaces[i]);
        proof {
            assert(copy@ =~= spaces@.take(i + 1));
        }
        i += 1;
    }
    proof {
        lemma_take_all(spaces@);
    }
    copy
}

/// The ids, frames and scale factors of screens.
fn screen_properties(screens: &Vec<ScreenInfo>) -> (p: (Vec<u32>, Vec<Rect>, Vec<Number>))
    ensures
        p.0@ == screens@.map_values(|s: ScreenInfo| s.id),
        p.1@ == screens@.map_values(|s: ScreenInfo| s.visible_frame),
        p.2@ == screens@.map_values(|s: ScreenInfo| s.scale_factor),
{
    let mut ids: Vec<u32> = Vec::new();
    let mut frames: Vec<Rect> = Vec::new();
    let mut scale_factors: Vec<Number> = Vec::new();
    let mut i: usize = 0;
    while i < screens.len()
        invariant
            i <= screens.len(),
            ids@.len() == i,
            frames@.len() == i,
            scale_factors@.len() == i,
            forall|k: int| 0 <= k < i ==> ids@[k] == screens@[k].id,
            forall|k: int| 0 <= k < i ==> frames@[k] == screens@[k].visible_frame,
            forall|k: int| 0 <= k < i ==> scale_factors@[k] == screens@[k].scale_factor,
        decreases screens.len() - i,
    {
        let s = screens[i];
        ids.push(s.id);
        frames.push(s.visible_frame);
        scale_factors.push(s.scale_factor);
        i += 1;
    }
    proof {
        assert(ids@ =~= screens@.map_values(|s: ScreenInfo| s.id));
        assert(frames@ =~= screens@.map_values(|s: ScreenInfo| s.visible_frame));
        assert(scale_factors@ =~= screens@.map_values(|s: ScreenInfo| s.scale_factor));
    }
    (ids, frames, scale_factors)
}

/// Remembers whom to tell of the destruction of windows.
pub struct SkylightWatcher {
    registered_windows: OrdMap<WindowServerId, (WindowId, AppThreadHandle)>,
}

impl View for SkylightWatcher {
    type V = Map<WindowServerId, (WindowId, AppThreadHandle)>;

    closed spec fn view(&self) -> Map<WindowServerId, (WindowId, AppThreadHandle)> {
        self.registered_windows@
    }
}

/// The windows that are watched, with whom to tell.
pub type Watched = Map<WindowServerId, (WindowId, AppThreadHandle)>;

/// The windows that are watched after a request.
pub open spec fn watching(watched: Watched, command: SkylightRequest) -> Watched {
    match command {
        SkylightRequest::TrackWindow(wsid, wid, handle) => watched.insert(wsid, (wid, handle)),
    }
}

/// Whom the destruction of a window is told.
pub open spec fn told_of(watched: Watched, wsid: WindowServerId) -> Option<Sent> {
    if watched.dom().contains(wsid) {
        Some(Sent { handle: watched[wsid].1, request: Request::WindowDestroyed(watched[wsid].0) })
    } else {
        None
    }
}

/// What a notification about a window leads to: the windows that are watched
/// then, and whom it is told. Only the expected notification counts.
pub open spec fn notified(watched: Watched, event: u32, expected_event: u32, wsid: WindowServerId) -> (
    Watched,
    Option<Sent>,
) {
    if event == expected_event {
        (watched.remove(wsid), told_of(watched, wsid))
    } else {
        (watched, None)
    }
}

impl SkylightWatcher {
    pub closed spec fn wf(&self) -> bool {
        self.registered_windows.wf()
    }

    pub fn new() -> (w: SkylightWatcher)
        ensures
            w.wf(),
            w@ == Map::<WindowServerId, (WindowId, AppThreadHandle)>::empty(),
    {
        SkylightWatcher { registered_windows: OrdMap::new() }
    }

    pub fn on_command(&mut self, command: SkylightRequest)
        requires
            old(self).wf(),
        ensures
            final(self).wf(),
            final(self)@ == watching(old(self)@, command),
    {
        match command {
            SkylightRequest::TrackWindow(wsid, wid, handle) => {
                self.registered_windows.insert(wsid, (wid, handle));
            },
        }
    }

    /// A notification about a window. The one for the destruction of windows is
    /// told to the app of the window, once.
    pub fn on_notification(&mut self, event: u32, expected_event: u32, wsid: WindowServerId) -> (told: Option<Sent>)
        requires
            old(self).wf(),
        ensures
            final(self).wf(),
            (final(self)@, told) == notified(old(self)@, event, expected_event, wsid),
    {
        if event != expected_event {
            return None;
        }
        self.on_window_destroyed(wsid)
    }

    fn on_window_destroyed(&mut self, wsid: WindowServerId) -> (told: Option<Sent>)
        requires
            old(self).wf(),
        ensures
            final(self).wf(),
            final(self)@ == old(self)@.remove(wsid),
            told == told_of(old(self)@, wsid),
    {
        match self.registered_windows.remove(wsid) {
            Some((wid, handle)) => Some(Sent { handle, request: Request::WindowDestroyed(wid) }),
            None => None,
        }
    }
}

// ---- Laws ----

/// A recheck that is scheduled is not postponed: whatever the event, it stays
/// due when it was, until it is begun.
pub proof fn recheck_is_not_postponed(v: WindowServerView, event: Event, reading: Reading, now: u64)
    requires
        v.recheck_at is Some,
    ensures
        v.handling(event, reading, now).state.recheck_at == v.recheck_at,
        v.recheck_pids.subset_of(v.handling(event, reading, now).state.recheck_pids),
{
}

/// A burst of changes is rechecked once: after a due recheck nothing is due
/// until something changes again.
pub proof fn recheck_is_done_once(v: WindowServerView, now: u64, later: u64)
    requires
        v.recheck_due(now),
    ensures
        !v.after_recheck(now).recheck_due(later),
        v.after_recheck(now).after_recheck(later) == v.after_recheck(now),
        v.after_recheck(now).recheck_pids == Set::<Pid>::empty(),
{
}

/// Nothing is reported when the visible windows are those of the last check.
pub proof fn unchanged_windows_are_not_reported(v: WindowServerView, pid: Option<Pid>, windows: Seq<WindowServerInfo>)
    ensures
        v.seeing(windows).reporting(pid, windows).out == Seq::<OutgoingView>::empty(),
        v.seeing(windows).reporting(pid, windows).state == v.seeing(windows),
{
}

/// A change of whether an app is hidden reaches the reactor before the windows
/// it made appear or disappear.
pub proof fn hidden_change_comes_first(v: WindowServerView, pid: Pid, hidden: bool, reading: Reading, now: u64)
    ensures
        ({
            let event = ReactorEvent::ApplicationHiddenChanged(pid, hidden);
            let out = v.handling(Event::ReactorEvent(event), reading, now).out;
            &&& out.len() >= 1
            &&& out[0] == OutgoingView::Reactor(event)
            &&& out.skip(1) == v.reporting(Some(pid), reading.windows@).out
        }),
{
    let event = ReactorEvent::ApplicationHiddenChanged(pid, hidden);
    let out = v.handling(Event::ReactorEvent(event), reading, now).out;
    assert(out.skip(1) =~= v.reporting(Some(pid), reading.windows@).out);
}

/// The screens are equal, one by one. Screens with a coordinate that is not a
/// number are equal to none.
pub open spec fn same_screens(a: Seq<ScreenInfo>, b: Seq<ScreenInfo>) -> bool {
    a.len() == b.len() && forall|i: int| 0 <= i < a.len() ==> (#[trigger] a[i]).same(b[i])
}

/// The same screen configuration with the same order of windows is sent on
/// once, also if the windows have moved: when it is read again and no other was
/// sent since, nothing is sent and no retry is left. `v` is the state before
/// the first reading, and `later` that before the second.
pub proof fn same_configuration_is_sent_once(
    v: WindowServerView,
    first: SetupView,
    reading: Reading,
    later: WindowServerView,
    second: SetupView,
    again: Reading,
)
    requires
        later.last_config == v.configured(Some(first), reading).state.last_config,
        same_screens(first.screens, second.screens),
        reading.spaces@ == again.spaces@,
        ids_of(relevant_windows(reading.windows@)) == ids_of(relevant_windows(again.windows@)),
    ensures
        later.configured(Some(second), again).out == Seq::<OutgoingView>::empty(),
        later.configured(Some(second), again).state.last_config == later.last_config,
        later.configured(Some(second), again).state.retry_attempt == 0,
        !later.configured(Some(second), again).state.retry_pending,
{
    let visible = ids_of(relevant_windows(reading.windows@));
    let config = ConfigView { screens: first.screens, spaces: reading.spaces@, visible };
    let last = later.last_config->Some_0;
    assert(last == config || last.same(config));
    assert forall|i: int| 0 <= i < last.screens.len() implies (#[trigger] last.screens[i]).same(second.screens[i]) by {
        assert(first.screens[i].same(second.screens[i]));
    }
    assert(last.same(ConfigView { screens: second.screens, spaces: again.spaces@, visible }));
}

/// When the screen configuration that was last sent on is reported again, by a
/// change or by the pending retry, nothing is sent on and no retry is left.
pub proof fn configuration_that_was_sent_is_not_sent_again(
    v: WindowServerView,
    first: SetupView,
    reading: Reading,
    later: WindowServerView,
    event: Event,
    again: Reading,
    now: u64,
)
    requires
        later.last_config == v.configured(Some(first), reading).state.last_config,
        event matches Event::ScreenParametersChanged(setup) ==> (setup matches Some(second) && same_screens(
            first.screens,
            second.screens@,
        )),
        event matches Event::RetryScreenParameters { attempt, setup } ==> later.awaits(attempt) && (
        setup matches Some(second) && same_screens(first.screens, second.screens@)),
        event is ScreenParametersChanged || event is RetryScreenParameters,
        reading.spaces@ == again.spaces@,
        ids_of(relevant_windows(reading.windows@)) == ids_of(relevant_windows(again.windows@)),
    ensures
        later.handling(event, again, now).out == Seq::<OutgoingView>::empty(),
        later.handling(event, again, now).state.last_config == later.last_config,
        later.handling(event, again, now).state.retry_attempt == 0,
        !later.handling(event, again, now).state.retry_pending,
{
    match event {
        Event::ScreenParametersChanged(setup) => {
            same_configuration_is_sent_once(v, first, reading, later, setup->Some_0@, again);
        },
        Event::RetryScreenParameters { attempt, setup } => {
            let tried = WindowServerView {
                retry_pending: false,
                retry_attempt: (later.retry_attempt + 1) as u8,
                ..later
            };
            same_configuration_is_sent_once(v, first, reading, tried, setup->Some_0@, again);
        },
        _ => {},
    }
}

/// The configuration that was last sent on is remembered until another is.
pub proof fn configuration_is_kept_until_another_is_sent(
    v: WindowServerView,
    event: Event,
    reading: Reading,
    now: u64,
)
    requires
        forall|i: int|
            0 <= i < v.handling(event, reading, now).out.len() ==> !((#[trigger] v.handling(
                event,
                reading,
                now,
            ).out[i]) is ScreenParametersChanged),
    ensures
        v.handling(event, reading, now).state.last_config == v.last_config,
{
    let h = v.handling(event, reading, now);
    if h.state.last_config != v.last_config {
        assert(h.out[1] is ScreenParametersChanged);
    }
}

/// Where it need not be read, what the window server reports does not matter.
pub proof fn reading_does_not_matter(
    v: WindowServerView,
    event: Event,
    one: Reading,
    other: Reading,
    now: u64,
)
    requires
        !v.reads(event),
    ensures
        v.handling(event, one, now) == v.handling(event, other, now),
{
}

/// Giving up on an inconsistent screen configuration gives the next one its own
/// retries.
pub proof fn giving_up_resets_the_retries(v: WindowServerView)
    requires
        !v.retry_pending,
        v.retry_attempt >= RETRIES,
    ensures
        v.retrying().state.retry_attempt == 0,
        !v.retrying().state.retry_pending,
        v.retrying().state.retrying().out == seq![OutgoingView::Retry { attempt: 0, delay: FIRST_RETRY_DELAY }],
{
}

/// The destruction of a watched window is told to its app once, and then the
/// window is forgotten. The other windows stay watched.
pub proof fn destroyed_window_is_told_once(
    watched: Watched,
    wsid: WindowServerId,
    wid: WindowId,
    handle: AppThreadHandle,
    event: u32,
    other: WindowServerId,
)
    requires
        other != wsid,
    ensures
        ({
            let watching = watching(watched, SkylightRequest::TrackWindow(wsid, wid, handle));
            let (after, told) = notified(watching, event, event, wsid);
            &&& told == Some(Sent { handle, request: Request::WindowDestroyed(wid) })
            &&& !after.dom().contains(wsid)
            &&& notified(after, event, event, wsid) == (after, None::<Sent>)
            &&& after.dom().contains(other) == watched.dom().contains(other)
            &&& after[other] == watched[other]
        }),
{
    let after = notified(watching(watched, SkylightRequest::TrackWindow(wsid, wid, handle)), event, event, wsid).0;
    assert(after.remove(wsid) =~= after);
}

/// What happens to other windows, and other notifications, do not change whom a
/// window's destruction is told.
pub proof fn other_windows_do_not_matter(
    watched: Watched,
    wsid: WindowServerId,
    other: WindowServerId,
    wid: WindowId,
    handle: AppThreadHandle,
    event: u32,
    expected_event: u32,
)
    requires
        other != wsid,
    ensures
        told_of(watching(watched, SkylightRequest::TrackWindow(other, wid, handle)), wsid) == told_of(watched, wsid),
        told_of(notified(watched, event, expected_event, other).0, wsid) == told_of(watched, wsid),
        event != expected_event ==> notified(watched, event, expected_event, wsid) == (watched, None::<Sent>),
{
}

/// A window that is not watched is told to nobody, and nothing is forgotten.
pub proof fn unwatched_window_is_not_told(watched: Watched, wsid: WindowServerId, event: u32)
    requires
        !watched.dom().contains(wsid),
    ensures
        notified(watched, event, event, wsid) == (watched, None::<Sent>),
{
    assert(watched.remove(wsid) =~= watched);
}

} // verus!
