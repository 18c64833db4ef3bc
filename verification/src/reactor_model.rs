//! What the reactor knows, and what follows from it.
use redact::Secret;
use vstd::prelude::*;

use crate::apps::{AppInfo, WindowInfo};
use crate::effects::{EffectView, LayoutEventView, LayoutWindowInfo};
use crate::events::{SpaceMoveId, WindowServerInfo};
use crate::geometry::{overlap_of, Measured, Overlap, Rect, Size};
use crate::ids::{Pid, WindowId, WindowServerId};
use crate::number::Number;
use crate::ordered::in_order;
use crate::request::{AppThreadHandle, Request, Sent, TransactionId};
use crate::scratchpad::{FractionalRect, ScratchpadWindowState};
use crate::sequences::each;
use crate::space::{ScreenSpace, SpaceId};

verus! {

/// How many times in a row the same frame is written to a window before giving
/// up.
pub const MAX_FRAME_ATTEMPTS: u32 = 5;

/// How long a pause resets the count, in nanoseconds.
pub const FRAME_ATTEMPT_RESET: u64 = 2_000_000_000;

/// An attempt to write a frame to a window.
#[derive(Clone, Copy, Debug, PartialEq, Eq, Structural)]
pub struct FrameAttempt {
    pub target: Rect,
    pub count: u32,
    /// When the frame was last written, in nanoseconds.
    pub last: u64,
}

/// A running application.
#[derive(Debug)]
pub struct AppState {
    /// `info.is_hidden` follows the events that tell of it.
    pub info: AppInfo,
    pub handle: AppThreadHandle,
}

/// A screen.
#[derive(Clone, Copy, Debug, PartialEq, Eq, Structural)]
pub struct Screen {
    pub frame: Rect,
    /// The space on the screen, if its windows are managed.
    pub space: Option<SpaceId>,
    pub scale_factor: Number,
}

/// A scratchpad window that is shown once its move to the current space ends.
#[derive(Clone, Copy, Debug, PartialEq, Eq, Structural)]
pub struct PendingSpaceMove {
    pub id: SpaceMoveId,
    pub frame: FractionalRect,
}

/// A window of an application.
#[derive(Debug)]
pub struct WindowState {
    pub title: Secret<String>,
    /// The last known frame of the window. Always holds the last write.
    ///
    /// This value only updates monotonically with respect to writes; in other
    /// words, a read is accepted only when it comes after the last write.
    pub frame_monotonic: Rect,
    pub is_ax_standard: bool,
    pub is_resizable: bool,
    pub ax_role: String,
    pub ax_subrole: Option<String>,
    pub last_sent_txid: TransactionId,
    pub window_server_id: Option<WindowServerId>,
}

/// The state of a window that was just found.
pub open spec fn found_window(info: WindowInfo) -> WindowState {
    WindowState {
        title: info.title,
        frame_monotonic: info.frame,
        is_ax_standard: info.is_standard,
        is_resizable: info.is_resizable,
        ax_role: info.ax_role,
        ax_subrole: info.ax_subrole,
        last_sent_txid: TransactionId(0),
        window_server_id: info.sys_id,
    }
}

/// Which windows have the focus, as the main window tracker tells after an
/// event.
#[derive(Clone, Copy, Debug, PartialEq, Eq, Structural)]
pub struct Focus {
    /// The main window of the active app.
    pub main_window: Option<WindowId>,
    /// The window that the event brought to the front.
    pub raised_window: Option<WindowId>,
    /// The main window of the app that the event is about.
    pub app_main_window: Option<WindowId>,
}

/// A frame that the layout gave a window, and the scale of its screen.
#[derive(Clone, Copy, Debug, PartialEq, Eq, Structural)]
pub struct Target {
    pub wid: WindowId,
    pub frame: Rect,
    pub scale_factor: Number,
}

/// A target rounded to the pixels of its screen.
#[derive(Clone, Copy, Debug, PartialEq, Eq, Structural)]
pub struct RoundedTarget {
    pub wid: WindowId,
    pub frame: Rect,
    /// Whether the window is at this frame, but for a rounding error.
    pub same_as_current: bool,
    /// Whether this is the frame of the last attempt, but for a rounding
    /// error.
    pub same_as_attempt: bool,
}

/// What the reactor knows.
#[verifier::ext_equal]
pub struct ReactorView {
    pub settings: crate::events::Settings,
    pub apps: Map<Pid, AppState>,
    pub windows: Map<WindowId, WindowState>,
    pub window_server_info: Map<WindowServerId, WindowServerInfo>,
    pub window_ids: Map<WindowServerId, WindowId>,
    pub visible_windows: Set<WindowServerId>,
    pub screens: Seq<Screen>,
    /// The space each screen shows, also if it is not managed.
    pub screen_spaces: Seq<Option<ScreenSpace>>,
    pub active_screen_idx: Option<u16>,
    pub main_window: Option<WindowId>,
    pub in_drag: bool,
    /// The window the user is currently resizing with the mouse, if any.
    pub resizing_window: Option<WindowId>,
    pub frame_attempts: Map<WindowId, FrameAttempt>,
    pub pending_space_moves: Map<WindowId, PendingSpaceMove>,
    pub next_space_move_id: u64,
    pub pending_frame_overrides: Map<WindowId, Rect>,
    pub measured: Seq<Measured>,
}

/// What follows from an event: what the reactor knows then, and what is to be
/// done.
#[verifier::ext_equal]
pub struct Reaction {
    pub state: ReactorView,
    pub effects: Seq<EffectView>,
}

/// The member of an option, or nothing.
pub open spec fn seq_of<A>(a: Option<A>) -> Seq<A> {
    match a {
        Some(a) => seq![a],
        None => Seq::empty(),
    }
}

/// An event for the layout, in answer to no mouse.
pub open spec fn tell_layout(event: LayoutEventView) -> EffectView {
    EffectView::Layout { event, from_mouse: false }
}

/// The numbers below `n`.
pub open spec fn indices(n: nat) -> Seq<int> {
    Seq::new(n, |k: int| k)
}

/// The state of the apps after the app became hidden or shown.
pub open spec fn with_hidden(app: AppState, hidden: bool) -> AppState {
    AppState { info: AppInfo { is_hidden: hidden, ..app.info }, ..app }
}

/// The window with another frame.
pub open spec fn with_frame(window: WindowState, frame: Rect) -> WindowState {
    WindowState { frame_monotonic: frame, ..window }
}

/// The known windows and those that were found.
pub open spec fn with_found(
    windows: Map<WindowId, WindowState>,
    found: Seq<(WindowId, WindowInfo)>,
) -> Map<WindowId, WindowState>
    decreases found.len(),
{
    if found.len() == 0 {
        windows
    } else {
        with_found(windows, found.drop_last()).insert(found.last().0, found_window(found.last().1))
    }
}

/// The windows by the ids that the window server gave them, with those that
/// were found.
pub open spec fn with_found_ids(
    ids: Map<WindowServerId, WindowId>,
    found: Seq<(WindowId, WindowInfo)>,
) -> Map<WindowServerId, WindowId>
    decreases found.len(),
{
    if found.len() == 0 {
        ids
    } else {
        let before = with_found_ids(ids, found.drop_last());
        match found.last().1.sys_id {
            Some(wsid) => before.insert(wsid, found.last().0),
            None => before,
        }
    }
}

/// The infos of the window server with newer ones.
pub open spec fn with_infos(
    infos: Map<WindowServerId, WindowServerInfo>,
    newer: Seq<WindowServerInfo>,
) -> Map<WindowServerId, WindowServerInfo>
    decreases newer.len(),
{
    if newer.len() == 0 {
        infos
    } else {
        with_infos(infos, newer.drop_last()).insert(newer.last().id, newer.last())
    }
}

/// The windows at the frames that the window server reports of ordinary
/// windows.
pub open spec fn with_reported_frames(
    windows: Map<WindowId, WindowState>,
    ids: Map<WindowServerId, WindowId>,
    infos: Seq<WindowServerInfo>,
) -> Map<WindowId, WindowState>
    decreases infos.len(),
{
    if infos.len() == 0 {
        windows
    } else {
        let before = with_reported_frames(windows, ids, infos.drop_last());
        let info = infos.last();
        if info.layer == 0 && ids.dom().contains(info.id) && before.dom().contains(ids[info.id]) {
            before.insert(ids[info.id], with_frame(before[ids[info.id]], info.frame))
        } else {
            before
        }
    }
}

/// The screens of a change of the screen layout.
pub open spec fn screens_from(
    frames: Seq<Rect>,
    spaces: Seq<Option<SpaceId>>,
    scale_factors: Seq<Number>,
) -> Seq<Screen> {
    let n = if frames.len() <= spaces.len() && frames.len() <= scale_factors.len() {
        frames.len()
    } else if spaces.len() <= scale_factors.len() {
        spaces.len()
    } else {
        scale_factors.len()
    };
    Seq::new(n, |i: int| Screen { frame: frames[i], space: spaces[i], scale_factor: scale_factors[i] })
}

/// The screens showing other spaces.
pub open spec fn screens_showing(screens: Seq<Screen>, spaces: Seq<Option<SpaceId>>) -> Seq<Screen> {
    Seq::new(screens.len(), |i: int| Screen { space: spaces[i], ..screens[i] })
}

/// The frames that take the place of those of the layout, with newer ones.
pub open spec fn with_overrides(
    overrides: Map<WindowId, Rect>,
    newer: Seq<(WindowId, Rect)>,
) -> Map<WindowId, Rect>
    decreases newer.len(),
{
    if newer.len() == 0 {
        overrides
    } else {
        with_overrides(overrides, newer.drop_last()).insert(newer.last().0, newer.last().1)
    }
}

/// The frames that the layout gave to windows. The last one of a window counts.
pub open spec fn laid_out(targets: Seq<Target>) -> Map<WindowId, (Rect, Number)>
    decreases targets.len(),
{
    if targets.len() == 0 {
        Map::empty()
    } else {
        laid_out(targets.drop_last()).insert(
            targets.last().wid,
            (targets.last().frame, targets.last().scale_factor),
        )
    }
}

impl ReactorView {
    /// How the frame lies on the screen.
    pub open spec fn overlap(self, screen: int, frame: Rect) -> Overlap {
        overlap_of(self.measured, self.screens[screen].frame, frame)
    }

    /// The frame overlaps this screen, and no other one more. Of screens that
    /// it overlaps by the same area, this is the last.
    pub open spec fn overlaps_most(self, frame: Rect, screen: int) -> bool {
        &&& 0 <= screen < self.screens.len()
        &&& self.overlap(screen, frame).positive()
        &&& forall|other: int|
            0 <= other < self.screens.len() && (#[trigger] self.overlap(other, frame)).positive() ==> {
                ||| self.overlap(other, frame).area.less(self.overlap(screen, frame).area)
                ||| self.overlap(other, frame).area.same(self.overlap(screen, frame).area) && other <= screen
            }
    }

    /// This is the first screen that holds the middle of the frame.
    pub open spec fn holds_middle(self, frame: Rect, screen: int) -> bool {
        &&& 0 <= screen < self.screens.len()
        &&& self.overlap(screen, frame).holds_middle
        &&& forall|other: int| 0 <= other < screen ==> !(#[trigger] self.overlap(other, frame)).holds_middle
    }

    /// The screen the window overlaps the most, or None if it is not on any
    /// screen. A window with no area overlaps nothing, so it is placed by its
    /// middle.
    pub open spec fn best_screen(self, frame: Rect) -> Option<int> {
        if exists|i: int| self.overlaps_most(frame, i) {
            Some(choose|i: int| self.overlaps_most(frame, i))
        } else if exists|i: int| self.holds_middle(frame, i) {
            Some(choose|i: int| self.holds_middle(frame, i))
        } else {
            None
        }
    }

    /// The managed space that the window is on.
    pub open spec fn best_space(self, frame: Rect) -> Option<SpaceId> {
        match self.best_screen(frame) {
            Some(i) => self.screens[i].space,
            None => None,
        }
    }

    /// The managed spaces, in the order of their screens.
    pub open spec fn managed_spaces(self) -> Seq<SpaceId> {
        each(self.screens, |s: Screen| seq_of(s.space))
    }

    /// The managed spaces with the frames of their screens.
    pub open spec fn managed_frames(self) -> Seq<(SpaceId, Rect)> {
        each(
            self.screens,
            |s: Screen|
                match s.space {
                    Some(space) => seq![(space, s.frame)],
                    None => Seq::empty(),
                },
        )
    }

    /// The managed spaces with the sizes of their screens.
    pub open spec fn managed_sizes(self) -> Seq<(SpaceId, Size)> {
        each(
            self.screens,
            |s: Screen|
                match s.space {
                    Some(space) => seq![(space, s.frame.size)],
                    None => Seq::empty(),
                },
        )
    }

    /// The number of the active screen.
    pub open spec fn active_idx(self) -> int {
        match self.active_screen_idx {
            Some(i) => i as int,
            None => 0,
        }
    }

    pub open spec fn active_screen(self) -> Option<Screen> {
        if self.active_idx() < self.screens.len() {
            Some(self.screens[self.active_idx()])
        } else {
            None
        }
    }

    pub open spec fn active_frame(self) -> Option<Rect> {
        match self.active_screen() {
            Some(s) => Some(s.frame),
            None => None,
        }
    }

    /// The space on the active screen, with the frame of the screen.
    pub open spec fn active_space(self) -> Option<(SpaceId, Rect)> {
        match self.active_screen() {
            Some(s) => match s.space {
                Some(space) => Some((space, s.frame)),
                None => None,
            },
            None => None,
        }
    }

    /// Whether the application is hidden. False for unknown applications.
    pub open spec fn app_hidden(self, pid: Pid) -> bool {
        self.apps.dom().contains(pid) && self.apps[pid].info.is_hidden
    }

    /// Whether the window server reports the window on screen. Windows without
    /// a window server id count as visible.
    pub open spec fn window_visible(self, wid: WindowId) -> bool {
        if self.windows.dom().contains(wid) {
            match self.windows[wid].window_server_id {
                Some(wsid) => self.visible_windows.contains(wsid),
                None => true,
            }
        } else {
            true
        }
    }

    /// The managed space of the main window.
    pub open spec fn main_space(self) -> Option<SpaceId> {
        match self.main_window {
            Some(wid) => if self.windows.dom().contains(wid) {
                self.best_space(self.windows[wid].frame_monotonic)
            } else {
                None
            },
            None => None,
        }
    }

    /// The properties of a known window that the layout uses.
    pub open spec fn layout_info(self, wid: WindowId) -> LayoutWindowInfo {
        let window = self.windows[wid];
        let known = self.apps.dom().contains(wid.pid);
        LayoutWindowInfo {
            frame: window.frame_monotonic,
            bundle_id: if known { self.apps[wid.pid].info.bundle_id } else { None },
            app_name: if known { self.apps[wid.pid].info.localized_name } else { None },
            title: window.title,
            layer: match window.window_server_id {
                Some(wsid) => if self.window_server_info.dom().contains(wsid) {
                    Some(self.window_server_info[wsid].layer)
                } else {
                    None
                },
                None => None,
            },
            is_standard: window.is_ax_standard,
            is_resizable: window.is_resizable,
            ax_role: window.ax_role,
            ax_subrole: window.ax_subrole,
        }
    }

    /// The windows with their properties.
    pub open spec fn with_info(self, wids: Seq<WindowId>) -> Seq<(WindowId, LayoutWindowInfo)> {
        wids.map_values(|w: WindowId| (w, self.layout_info(w)))
    }

    /// A request to an app, if it is known.
    pub open spec fn request_to(self, pid: Pid, request: Request) -> Seq<EffectView> {
        if self.apps.dom().contains(pid) {
            seq![EffectView::Request(Sent { handle: self.apps[pid].handle, request })]
        } else {
            Seq::empty()
        }
    }

    /// The layout is told that the window has the focus.
    pub open spec fn tell_focused(self, wid: WindowId) -> EffectView {
        tell_layout(LayoutEventView::WindowFocused(self.managed_spaces(), wid))
    }

    /// The scratchpad window is placed on the active screen.
    pub open spec fn place(self, wid: WindowId, frame: FractionalRect) -> EffectView {
        EffectView::PlaceScratchpad { wid, frame, screen: self.active_frame() }
    }

    // ---- Windows ----

    /// How much the window is preferred as a scratchpad: the main window of its
    /// app comes first, then visible windows, then the others.
    pub open spec fn preference(self, wid: WindowId, main: Option<WindowId>) -> int {
        if Some(wid) == main {
            0
        } else if self.window_visible(wid) {
            1
        } else {
            2
        }
    }

    /// The windows of the app that are preferred so much.
    pub open spec fn preferred(self, pid: Pid, main: Option<WindowId>, preference: int) -> Seq<WindowId> {
        in_order(self.windows.dom()).filter(
            |w: WindowId| w.pid == pid && self.preference(w, main) == preference,
        )
    }

    /// The windows that the layout may take as scratchpads, the preferred ones
    /// first.
    pub open spec fn candidates(self, pid: Pid, main: Option<WindowId>) -> Seq<WindowId> {
        self.preferred(pid, main, 0) + self.preferred(pid, main, 1) + self.preferred(pid, main, 2)
    }

    /// The known windows of the app that the window server reports on screen.
    pub open spec fn on_screen(self, pid: Pid) -> Set<WindowId> {
        Set::new(
            |w: WindowId|
                w.pid == pid && self.windows.dom().contains(w) && exists|wsid: WindowServerId| #[trigger]
                    self.visible_windows.contains(wsid) && self.window_ids.dom().contains(wsid)
                        && self.window_ids[wsid] == w,
        )
    }

    /// The windows of the app on a screen. A space that two screens show is
    /// the first one's.
    pub open spec fn windows_on(self, pid: Pid, screen: int) -> Seq<WindowId> {
        let space = self.screens[screen].space;
        if exists|j: int| 0 <= j < screen && (#[trigger] self.screens[j]).space == space {
            Seq::empty()
        } else {
            in_order(self.on_screen(pid)).filter(
                |w: WindowId| self.best_space(self.windows[w].frame_monotonic) == space,
            )
        }
    }

    /// The layout is told of the windows of the app on a managed screen.
    pub open spec fn tell_windows_on(self, pid: Pid, screen: int) -> Seq<EffectView> {
        match self.screens[screen].space {
            Some(space) => seq![
                tell_layout(
                    LayoutEventView::WindowsOnScreenUpdated(
                        space,
                        pid,
                        self.with_info(self.windows_on(pid, screen)),
                    ),
                ),
            ],
            None => Seq::empty(),
        }
    }

    /// What the layout is told once windows of the app are known.
    pub open spec fn tell_discovered(self, pid: Pid, main: Option<WindowId>) -> Seq<EffectView> {
        seq![tell_layout(LayoutEventView::ScratchpadCandidates(self.with_info(self.candidates(pid, main))))]
            + each(indices(self.screens.len()), |k: int| self.tell_windows_on(pid, k)) + (
        match self.main_window {
            Some(m) => if m.pid == pid {
                seq![self.tell_focused(m)]
            } else {
                Seq::empty()
            },
            None => Seq::empty(),
        })
    }

    /// The state once windows are known.
    pub open spec fn discovered(self, found: Seq<(WindowId, WindowInfo)>) -> ReactorView {
        ReactorView {
            window_ids: with_found_ids(self.window_ids, found),
            windows: with_found(self.windows, found),
            ..self
        }
    }

    /// The state after a list of the windows on screen.
    pub open spec fn with_on_screen(
        self,
        visible: Seq<WindowServerId>,
        infos: Seq<WindowServerInfo>,
    ) -> ReactorView {
        ReactorView {
            visible_windows: visible.to_set(),
            window_server_info: with_infos(self.window_server_info, infos),
            ..self
        }
    }

    /// The state after a list of all windows on screen, whose frames count.
    pub open spec fn with_all_on_screen(
        self,
        visible: Seq<WindowServerId>,
        infos: Seq<WindowServerInfo>,
    ) -> ReactorView {
        ReactorView {
            windows: with_reported_frames(self.windows, self.window_ids, infos),
            ..self
        }.with_on_screen(visible, infos)
    }

    /// The state without moves of the app's windows.
    pub open spec fn without_moves_of(self, pid: Pid) -> ReactorView {
        ReactorView {
            pending_space_moves: self.pending_space_moves.remove_keys(
                self.pending_space_moves.dom().filter(|w: WindowId| w.pid == pid),
            ),
            ..self
        }
    }

    /// The state after the app became hidden or shown.
    pub open spec fn hidden_changed(self, pid: Pid, hidden: bool) -> ReactorView {
        if self.apps.dom().contains(pid) {
            // Only a shown app becoming hidden cancels its moves; the unhide
            // sent by a show is reported before any later hide.
            let moved = if hidden && !self.apps[pid].info.is_hidden {
                self.without_moves_of(pid)
            } else {
                self
            };
            ReactorView { apps: self.apps.insert(pid, with_hidden(self.apps[pid], hidden)), ..moved }
        } else {
            self
        }
    }

    /// What is known of a scratchpad window.
    pub open spec fn scratchpad_state(self, wid: WindowId) -> ScratchpadWindowState {
        ScratchpadWindowState {
            app_hidden: self.app_hidden(wid.pid),
            focused: self.main_window == Some(wid),
            on_active_space: self.window_visible(wid) && self.windows.dom().contains(wid) && self.best_screen(
                self.windows[wid].frame_monotonic,
            ) == Some(self.active_idx()),
        }
    }

    /// The window server id of the window and the space to move it to, if it
    /// may be on another space. A hidden app's windows are not on screen
    /// wherever they are, so they are moved too; moving a window to its own
    /// space does nothing. No window is moved to a fullscreen space.
    pub open spec fn move_target(self, wid: WindowId) -> Option<(WindowServerId, SpaceId)> {
        if self.windows.dom().contains(wid) {
            match self.windows[wid].window_server_id {
                Some(wsid) => if self.visible_windows.contains(wsid) && !self.app_hidden(wid.pid) {
                    None
                } else if self.active_idx() < self.screen_spaces.len() {
                    match self.screen_spaces[self.active_idx()] {
                        Some(space) => if space.fullscreen {
                            None
                        } else {
                            Some((wsid, space.id))
                        },
                        None => None,
                    }
                } else {
                    None
                },
                None => None,
            }
        } else {
            None
        }
    }
}

} // verus!
