//! The events that the reactor handles.
use vstd::prelude::*;

use crate::apps::{AppInfo, WindowInfo};
use crate::geometry::{CoordinateConverter, Point, Rect};
use crate::ids::{Pid, WindowId, WindowServerId};
use crate::number::Number;
use crate::request::{AppThreadHandle, TransactionId};
use crate::scratchpad::PendingShowId;
use crate::space::{ScreenSpace, SpaceId};

verus! {

/// The state of the left mouse button.
#[derive(Clone, Copy, Debug, PartialEq, Eq, Structural)]
pub enum MouseState {
    Down,
    Up,
}

/// Whether a change of focus should go unnoticed.
#[derive(Clone, Copy, Debug, PartialEq, Eq, Structural)]
pub enum Quiet {
    Yes,
    No,
}

/// What the window server knows of a window.
#[derive(Clone, Copy, Debug, PartialEq, Eq, Structural)]
pub struct WindowServerInfo {
    pub id: WindowServerId,
    pub pid: Pid,
    pub layer: i32,
    pub frame: Rect,
}

/// The windows on screen, front to back.
#[derive(Debug)]
pub struct WindowsOnScreen {
    pub visible: Vec<WindowServerId>,
    pub info: Vec<WindowServerInfo>,
}

/// The windows of a list, by their ids.
pub open spec fn ids_of(info: Seq<WindowServerInfo>) -> Seq<WindowServerId> {
    info.map_values(|i: WindowServerInfo| i.id)
}

impl WindowsOnScreen {
    /// The windows of a list, all of them visible.
    pub fn new(info: Vec<WindowServerInfo>) -> (w: WindowsOnScreen)
        ensures
            w.info == info,
            w.visible@ == ids_of(info@),
    {
        let mut visible: Vec<WindowServerId> = Vec::new();
        let mut i: usize = 0;
        while i < info.len()
            invariant
                i <= info.len(),
                visible@ == ids_of(info@.take(i as int)),
            decreases info.len() - i,
        {
            visible.push(info[i].id);
            proof {
                assert(visible@ =~= ids_of(info@.take(i + 1)));
            }
            i += 1;
        }
        proof {
            assert(info@.take(i as int) =~= info@);
        }
        WindowsOnScreen { visible, info }
    }
}

/// Whether a change of a window's frame was asked for by the reactor.
#[derive(Clone, Copy, Debug, PartialEq, Eq, Structural)]
pub struct Requested(pub bool);

/// Identifies one move of a scratchpad window to the current space.
#[derive(Clone, Copy, Debug, PartialEq, Eq, Structural)]
pub struct SpaceMoveId(pub u64);

/// A command for the layout, by its number in a table of the caller.
#[derive(Clone, Copy, Debug, PartialEq, Eq, Structural)]
pub struct LayoutCommand(pub u64);

/// A command for the metrics, by its number in a table of the caller.
#[derive(Clone, Copy, Debug, PartialEq, Eq, Structural)]
pub struct MetricsCommand(pub u64);

/// A command of the user.
#[derive(Debug)]
pub enum Command {
    Layout(LayoutCommand),
    Metrics(MetricsCommand),
    Reactor(ReactorCommand),
}

/// A command for the reactor itself.
#[derive(Debug)]
pub enum ReactorCommand {
    Debug,
    Serialize,
    SaveAndExit,
    /// Shows or hides the scratchpad window with the given name.
    ToggleScratchpad {
        name: String,
        /// Bundle id to launch when there is no window. Without it, nothing
        /// happens when there is no window.
        launch: Option<String>,
    },
}

/// The settings that the reactor goes by.
#[derive(Clone, Copy, Debug, PartialEq, Eq, Structural)]
pub struct Settings {
    pub animate: bool,
    pub mouse_follows_focus: bool,
    pub scroll_enabled: bool,
}

/// An event for the reactor.
#[derive(Debug)]
#[allow(inconsistent_fields)]
pub enum Event {
    /// The screen layout, including resolution, changed. This is always the
    /// first event sent on startup.
    ///
    /// The first vec is the frame for each screen. The main screen is always
    /// first in the list.
    ///
    /// See the `SpaceChanged` event for an explanation of the other parameters.
    ScreenParametersChanged {
        frames: Vec<Rect>,
        spaces: Vec<Option<SpaceId>>,
        scale_factors: Vec<Number>,
        converter: CoordinateConverter,
        on_screen: WindowsOnScreen,
    },
    /// The current space changed.
    ///
    /// There is one SpaceId per screen in the last ScreenParametersChanged
    /// event. `None` in the SpaceId vec disables managing windows on that
    /// screen until the next space change.
    ///
    /// WindowsOnScreen comes along to avoid doing two updates in rapid
    /// succession.
    SpaceChanged(Vec<Option<SpaceId>>, WindowsOnScreen),
    /// The space each screen shows, also if it is not managed.
    ///
    /// Sent just before `ScreenParametersChanged` and `SpaceChanged`, in the
    /// order of their screens.
    ScreenSpacesChanged(Vec<Option<ScreenSpace>>),
    /// All running apps at launch have been registered.
    StartupComplete,
    /// An application was launched. This event is also sent for every running
    /// application on startup.
    ApplicationLaunched {
        pid: Pid,
        info: AppInfo,
        handle: AppThreadHandle,
        is_frontmost: bool,
        main_window: Option<WindowId>,
        visible_windows: Vec<(WindowId, WindowInfo)>,
    },
    ApplicationTerminated(Pid),
    ApplicationThreadTerminated(Pid),
    ApplicationActivated(Pid, Quiet),
    ApplicationDeactivated(Pid),
    /// The application was hidden (`true`) or shown (`false`).
    ApplicationHiddenChanged(Pid, bool),
    ApplicationGloballyActivated(Pid),
    ApplicationGloballyDeactivated(Pid),
    ApplicationMainWindowChanged(Pid, Option<WindowId>, Quiet),
    /// A scratchpad window that a launch should show is no longer expected:
    /// the launch failed or the window did not appear in time.
    ScratchpadShowExpired(PendingShowId),
    /// Moving a scratchpad window to the current space was not confirmed in
    /// time, or could not be started. The window is shown where it is.
    ScratchpadMoveEnded(SpaceMoveId),
    WindowsDiscovered { pid: Pid, new: Vec<(WindowId, WindowInfo)>, known_visible: Vec<WindowId> },
    WindowCreated(WindowId, WindowInfo, MouseState),
    /// Updated list of windows visible on screen from the window server.
    ///
    /// Sent after space changes, app launches, and window creation. When
    /// `pid` is set, only that app's windows changed.
    WindowsOnScreenUpdated { pid: Option<Pid>, on_screen: WindowsOnScreen },
    WindowBecameVisible(WindowId),
    WindowDestroyed(WindowId),
    WindowFrameChanged(WindowId, Rect, TransactionId, Requested, Option<MouseState>),
    /// Left mouse button was released.
    ///
    /// Layout changes are suppressed while the button is down so that they
    /// don't interfere with drags. This event is used to update the layout in
    /// case updates were supressed while the button was down.
    MouseUp,
    /// The mouse cursor moved over a new window. Only sent if focus-follows-
    /// mouse is enabled.
    ///
    /// The second field is the process the window server was routing keyboard
    /// events to when the mouse moved, if it could be read.
    MouseMovedOverWindow(WindowServerId, Option<Pid>),
    /// A raise request completed.
    RaiseCompleted { window_id: WindowId, sequence_id: u64 },
    /// A raise request failed. None of its windows will be raised.
    ///
    /// `quiet` is the one the request was made with. A non-quiet request was
    /// meant to move the focus, so the layout has to be reconciled with the
    /// main window that is actually focused.
    RaiseRequestFailed { windows: Vec<WindowId>, sequence_id: u64, quiet: Quiet },
    /// A raise sequence timed out.
    RaiseTimeout { sequence_id: u64 },
    LeftMouseDown(Point),
    LeftMouseDragged(Point),
    ScrollWheel { delta_x: Number, delta_y: Number, alt_held: bool },
    Command(Command),
    ConfigChanged(Settings),
}

} // verus!
