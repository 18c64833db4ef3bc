//! What the reactor asks of the parts around it.
//!
//! Handling an event gives a list of effects. They are performed in order, and
//! each is performed completely before the next: a layout event with the
//! responses that follow from it, a callback into the reactor with the effects
//! that it returns.
use redact::Secret;
use vstd::prelude::*;

use crate::geometry::{CoordinateConverter, Point, Rect, Size};
use crate::events::{LayoutCommand, MetricsCommand, SpaceMoveId};
use crate::ids::{Pid, WindowId, WindowServerId};
use crate::number::Number;
use crate::ordered::OrdMap;
use crate::request::{AppThreadHandle, Sent};
use crate::scratchpad::{FractionalRect, PendingShowId};
use crate::space::SpaceId;

verus! {

/// The window properties the layout uses to classify a window.
#[derive(Debug)]
pub struct LayoutWindowInfo {
    pub frame: Rect,
    pub bundle_id: Option<String>,
    pub app_name: Option<String>,
    pub title: Secret<String>,
    pub layer: Option<i32>,
    pub is_standard: bool,
    pub is_resizable: bool,
    pub ax_role: String,
    pub ax_subrole: Option<String>,
}

/// An event for the layout.
#[derive(Debug)]
#[allow(inconsistent_fields)]
pub enum LayoutEvent {
    AppsRunningUpdated(Vec<Pid>),
    AppClosed(Pid),
    ScratchpadCandidates(Vec<(WindowId, LayoutWindowInfo)>),
    WindowsOnScreenUpdated(SpaceId, Pid, Vec<(WindowId, LayoutWindowInfo)>),
    WindowAdded(SpaceId, WindowId, LayoutWindowInfo),
    WindowRemoved(WindowId),
    /// The window has the focus. Its first part are the managed spaces.
    WindowFocused(Vec<SpaceId>, WindowId),
    WindowFrameChanged { wid: WindowId, frame: Rect },
    WindowSpaceChanged {
        wid: WindowId,
        added: Option<SpaceId>,
        removed: Option<SpaceId>,
        info: LayoutWindowInfo,
    },
    WindowResized { wid: WindowId, old_frame: Rect, new_frame: Rect, screens: Vec<(SpaceId, Rect)> },
    MouseMovedOverWindow { over: (SpaceId, WindowId), current_main: Option<(SpaceId, WindowId)> },
}

/// A layout event as a value.
#[verifier::ext_equal]
#[allow(inconsistent_fields)]
pub enum LayoutEventView {
    AppsRunningUpdated(Seq<Pid>),
    AppClosed(Pid),
    ScratchpadCandidates(Seq<(WindowId, LayoutWindowInfo)>),
    WindowsOnScreenUpdated(SpaceId, Pid, Seq<(WindowId, LayoutWindowInfo)>),
    WindowAdded(SpaceId, WindowId, LayoutWindowInfo),
    WindowRemoved(WindowId),
    WindowFocused(Seq<SpaceId>, WindowId),
    WindowFrameChanged { wid: WindowId, frame: Rect },
    WindowSpaceChanged {
        wid: WindowId,
        added: Option<SpaceId>,
        removed: Option<SpaceId>,
        info: LayoutWindowInfo,
    },
    WindowResized { wid: WindowId, old_frame: Rect, new_frame: Rect, screens: Seq<(SpaceId, Rect)> },
    MouseMovedOverWindow { over: (SpaceId, WindowId), current_main: Option<(SpaceId, WindowId)> },
}

impl View for LayoutEvent {
    type V = LayoutEventView;

    open spec fn view(&self) -> LayoutEventView {
        match *self {
            LayoutEvent::AppsRunningUpdated(pids) => LayoutEventView::AppsRunningUpdated(pids@),
            LayoutEvent::AppClosed(pid) => LayoutEventView::AppClosed(pid),
            LayoutEvent::ScratchpadCandidates(c) => LayoutEventView::ScratchpadCandidates(c@),
            LayoutEvent::WindowsOnScreenUpdated(space, pid, w) => LayoutEventView::WindowsOnScreenUpdated(
                space,
                pid,
                w@,
            ),
            LayoutEvent::WindowAdded(space, wid, info) => LayoutEventView::WindowAdded(space, wid, info),
            LayoutEvent::WindowRemoved(wid) => LayoutEventView::WindowRemoved(wid),
            LayoutEvent::WindowFocused(spaces, wid) => LayoutEventView::WindowFocused(spaces@, wid),
            LayoutEvent::WindowFrameChanged { wid, frame } => LayoutEventView::WindowFrameChanged { wid, frame },
            LayoutEvent::WindowSpaceChanged { wid, added, removed, info } => LayoutEventView::WindowSpaceChanged {
                wid,
                added,
                removed,
                info,
            },
            LayoutEvent::WindowResized { wid, old_frame, new_frame, screens } => LayoutEventView::WindowResized {
                wid,
                old_frame,
                new_frame,
                screens: screens@,
            },
            LayoutEvent::MouseMovedOverWindow { over, current_main } => LayoutEventView::MouseMovedOverWindow {
                over,
                current_main,
            },
        }
    }
}

/// What the layout answers to an event or a command.
#[derive(Debug)]
pub struct EventResponse {
    /// One-shot frame targets.
    pub frame_overrides: Vec<(WindowId, Rect)>,
    pub raise_windows: Vec<WindowId>,
    pub focus_window: Option<WindowId>,
}

/// Extra information about the event a layout response came from.
pub struct ResponseContext {
    /// The windows visible on screen, front to back, from a snapshot taken with
    /// the event. `None` if the event didn't come with one.
    ///
    /// Only valid for the event it arrived with: raising windows changes the
    /// order and the window server doesn't report the result.
    pub visible_window_order: Option<Vec<WindowServerId>>,
    /// The id that the window server gave the window to focus, if its id tells.
    pub focus_wsid: Option<WindowServerId>,
    /// Whether the event came from the mouse moving, in which case the mouse is
    /// not warped to the newly focused window.
    pub from_mouse: bool,
}

/// A request to raise windows.
pub struct RaiseRequest {
    /// The windows to raise, grouped by their app and space.
    pub raise_windows: Vec<Vec<WindowId>>,
    /// The window to focus, and the frame to whose middle the mouse goes.
    pub focus_window: Option<(WindowId, Option<Rect>)>,
    pub app_handles: OrdMap<Pid, AppThreadHandle>,
}

/// A message to the part that raises windows.
#[allow(inconsistent_fields)]
pub enum RaiseEvent {
    RaiseRequest(RaiseRequest),
    RaiseCompleted { window_id: WindowId, sequence_id: u64 },
    RaiseRequestFailed { windows: Vec<WindowId>, sequence_id: u64 },
    RaiseTimeout { sequence_id: u64 },
}

/// A message to the part that raises windows, as a value.
#[verifier::ext_equal]
#[allow(inconsistent_fields)]
pub enum RaiseEventView {
    RaiseRequest {
        raise_windows: Seq<Seq<WindowId>>,
        focus_window: Option<(WindowId, Option<Rect>)>,
        app_handles: Map<Pid, AppThreadHandle>,
    },
    RaiseCompleted { window_id: WindowId, sequence_id: u64 },
    RaiseRequestFailed { windows: Seq<WindowId>, sequence_id: u64 },
    RaiseTimeout { sequence_id: u64 },
}

impl View for RaiseEvent {
    type V = RaiseEventView;

    open spec fn view(&self) -> RaiseEventView {
        match *self {
            RaiseEvent::RaiseRequest(r) => RaiseEventView::RaiseRequest {
                raise_windows: r.raise_windows@.map_values(|g: Vec<WindowId>| g@),
                focus_window: r.focus_window,
                app_handles: r.app_handles@,
            },
            RaiseEvent::RaiseCompleted { window_id, sequence_id } => RaiseEventView::RaiseCompleted {
                window_id,
                sequence_id,
            },
            RaiseEvent::RaiseRequestFailed { windows, sequence_id } => RaiseEventView::RaiseRequestFailed {
                windows: windows@,
                sequence_id,
            },
            RaiseEvent::RaiseTimeout { sequence_id } => RaiseEventView::RaiseTimeout { sequence_id },
        }
    }
}

/// Something for the parts around the reactor to do.
///
/// The effects of a call are performed in their order, and the effects that one
/// of them leads to before the next. Where a response of the layout is handed
/// to `apply_layout_response`, the scratchpads that the layout wants shown are
/// taken from it first, and `show_scratchpad` is called for each of them
/// afterwards.
#[allow(inconsistent_fields)]
pub enum Effect {
    /// Send the request to the app.
    Request(Sent),
    /// Hand the event to the layout and its response to
    /// `apply_layout_response`.
    Layout { event: LayoutEvent, from_mouse: bool },
    /// Tell the layout of every exposed space, with the size of its screen,
    /// and hand the joined response to `apply_layout_response` with the
    /// windows on screen.
    ExposeSpaces { spaces: Vec<(SpaceId, Size)>, visible_window_order: Vec<WindowServerId> },
    /// Forget the pending shows that launched the bundle id.
    CancelScratchpadShowsForApp(String),
    /// Forget the pending show.
    CancelScratchpadShow(PendingShowId),
    /// Forget the interactive move or resize.
    CancelInteractiveState,
    /// Compute the frame on the screen and call `place_scratchpad`.
    PlaceScratchpad { wid: WindowId, frame: FractionalRect, screen: Option<Rect> },
    /// Call `place_moved_scratchpads`.
    PlaceMovedScratchpads,
    /// Call `place_moved_scratchpad` for the window.
    PlaceMovedScratchpad(WindowId),
    /// Call `update_active_screen`.
    UpdateActiveScreen,
    /// Tell the status bar that the focused screen changed.
    FocusedScreenChanged,
    /// Tell the group bars which space each screen shows, and how to convert
    /// coordinates.
    GroupScreensChanged(Vec<Option<SpaceId>>, CoordinateConverter),
    /// See what the mouse is over. If that is an edge or a window to drag,
    /// begin to and call `begin_drag`.
    HitTest { space: SpaceId, point: Point, frame: Rect },
    /// Move what is dragged. Then call `dragged`.
    Drag { point: Point, frame: Rect },
    /// End the interactive move or resize, if there is one.
    EndInteraction { space: SpaceId, frame: Rect },
    /// Send the message to the part that raises windows.
    Raise(RaiseEvent),
    /// Scroll the layout and hand its response to `apply_layout_response`.
    Scroll { space: SpaceId, delta: Number, frame: Rect },
    /// Hand the command to the layout and its response to
    /// `apply_layout_response`.
    LayoutCommand { space: Option<SpaceId>, visible_spaces: Vec<SpaceId>, command: LayoutCommand },
    Metrics(MetricsCommand),
    /// Log the layout of the spaces.
    DebugTrees(Vec<SpaceId>),
    /// Print the layout.
    PrintLayout,
    /// Save the layout and exit.
    SaveAndExit,
    /// Toggle the scratchpad and call `scratchpad_toggled`.
    ToggleScratchpad { name: String, launch: Option<String> },
    /// Launch the app of the scratchpad, and call `launch_failed` if that is
    /// not possible.
    LaunchApp { name: String, bundle_id: String, id: PendingShowId },
    /// Move the window and call `move_started` or `move_failed`.
    MoveWindow { wid: WindowId, wsid: WindowServerId, space: SpaceId, id: SpaceMoveId, frame: FractionalRect },
    /// Record that the show has expired.
    RecordShowExpired(PendingShowId),
    /// Record that the move has ended.
    RecordMoveEnded(SpaceMoveId),
    /// Hand the new settings to the layout.
    ConfigureLayout,
    /// Calculate the layout and call `take_targets` and `update_layout`.
    UpdateLayout { new_wids: Vec<WindowId>, skip_anim: bool },
    /// Call `finish_event`.
    Finish { raised_window: Option<WindowId>, new_wids: Vec<WindowId>, is_resize: bool },
}

/// An effect as a value.
#[verifier::ext_equal]
#[allow(inconsistent_fields)]
pub enum EffectView {
    Request(Sent),
    Layout { event: LayoutEventView, from_mouse: bool },
    ExposeSpaces { spaces: Seq<(SpaceId, Size)>, visible_window_order: Seq<WindowServerId> },
    CancelScratchpadShowsForApp(Seq<char>),
    CancelScratchpadShow(PendingShowId),
    CancelInteractiveState,
    PlaceScratchpad { wid: WindowId, frame: FractionalRect, screen: Option<Rect> },
    PlaceMovedScratchpads,
    PlaceMovedScratchpad(WindowId),
    UpdateActiveScreen,
    FocusedScreenChanged,
    GroupScreensChanged(Seq<Option<SpaceId>>, CoordinateConverter),
    HitTest { space: SpaceId, point: Point, frame: Rect },
    Drag { point: Point, frame: Rect },
    EndInteraction { space: SpaceId, frame: Rect },
    Raise(RaiseEventView),
    Scroll { space: SpaceId, delta: Number, frame: Rect },
    LayoutCommand { space: Option<SpaceId>, visible_spaces: Seq<SpaceId>, command: LayoutCommand },
    Metrics(MetricsCommand),
    DebugTrees(Seq<SpaceId>),
    PrintLayout,
    SaveAndExit,
    ToggleScratchpad { name: Seq<char>, launch: Option<Seq<char>> },
    LaunchApp { name: Seq<char>, bundle_id: Seq<char>, id: PendingShowId },
    MoveWindow { wid: WindowId, wsid: WindowServerId, space: SpaceId, id: SpaceMoveId, frame: FractionalRect },
    RecordShowExpired(PendingShowId),
    RecordMoveEnded(SpaceMoveId),
    ConfigureLayout,
    UpdateLayout { new_wids: Seq<WindowId>, skip_anim: bool },
    Finish { raised_window: Option<WindowId>, new_wids: Seq<WindowId>, is_resize: bool },
}

/// The text that an optional string holds.
pub open spec fn text_in(s: Option<String>) -> Option<Seq<char>> {
    match s {
        Some(s) => Some(s@),
        None => None,
    }
}

impl View for Effect {
    type V = EffectView;

    open spec fn view(&self) -> EffectView {
        match *self {
            Effect::Request(s) => EffectView::Request(s),
            Effect::Layout { event, from_mouse } => EffectView::Layout { event: event@, from_mouse },
            Effect::ExposeSpaces { spaces, visible_window_order } => EffectView::ExposeSpaces {
                spaces: spaces@,
                visible_window_order: visible_window_order@,
            },
            Effect::CancelScratchpadShowsForApp(id) => EffectView::CancelScratchpadShowsForApp(id@),
            Effect::CancelScratchpadShow(id) => EffectView::CancelScratchpadShow(id),
            Effect::CancelInteractiveState => EffectView::CancelInteractiveState,
            Effect::PlaceScratchpad { wid, frame, screen } => EffectView::PlaceScratchpad { wid, frame, screen },
            Effect::PlaceMovedScratchpads => EffectView::PlaceMovedScratchpads,
            Effect::PlaceMovedScratchpad(wid) => EffectView::PlaceMovedScratchpad(wid),
            Effect::UpdateActiveScreen => EffectView::UpdateActiveScreen,
            Effect::FocusedScreenChanged => EffectView::FocusedScreenChanged,
            Effect::GroupScreensChanged(spaces, converter) => EffectView::GroupScreensChanged(spaces@, converter),
            Effect::HitTest { space, point, frame } => EffectView::HitTest { space, point, frame },
            Effect::Drag { point, frame } => EffectView::Drag { point, frame },
            Effect::EndInteraction { space, frame } => EffectView::EndInteraction { space, frame },
            Effect::Raise(event) => EffectView::Raise(event@),
            Effect::Scroll { space, delta, frame } => EffectView::Scroll { space, delta, frame },
            Effect::LayoutCommand { space, visible_spaces, command } => EffectView::LayoutCommand {
                space,
                visible_spaces: visible_spaces@,
                command,
            },
            Effect::Metrics(command) => EffectView::Metrics(command),
            Effect::DebugTrees(spaces) => EffectView::DebugTrees(spaces@),
            Effect::PrintLayout => EffectView::PrintLayout,
            Effect::SaveAndExit => EffectView::SaveAndExit,
            Effect::ToggleScratchpad { name, launch } => EffectView::ToggleScratchpad {
                name: name@,
                launch: text_in(launch),
            },
            Effect::LaunchApp { name, bundle_id, id } => EffectView::LaunchApp {
                name: name@,
                bundle_id: bundle_id@,
                id,
            },
            Effect::MoveWindow { wid, wsid, space, id, frame } => EffectView::MoveWindow {
                wid,
                wsid,
                space,
                id,
                frame,
            },
            Effect::RecordShowExpired(id) => EffectView::RecordShowExpired(id),
            Effect::RecordMoveEnded(id) => EffectView::RecordMoveEnded(id),
            Effect::ConfigureLayout => EffectView::ConfigureLayout,
            Effect::UpdateLayout { new_wids, skip_anim } => EffectView::UpdateLayout {
                new_wids: new_wids@,
                skip_anim,
            },
            Effect::Finish { raised_window, new_wids, is_resize } => EffectView::Finish {
                raised_window,
                new_wids: new_wids@,
                is_resize,
            },
        }
    }
}

/// A list of effects as values.
pub open spec fn views(effects: Seq<Effect>) -> Seq<EffectView> {
    effects.map_values(|e: Effect| e@)
}

} // verus!
