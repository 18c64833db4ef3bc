//! What the window manager asks of applications.
use vstd::prelude::*;

use crate::geometry::Rect;
use crate::ids::WindowId;

verus! {

/// The thread that talks to one application.
#[derive(Clone, Copy, Debug, PartialEq, Eq, Structural)]
pub struct AppThreadHandle {
    pub id: u64,
}

/// A per-window counter that tracks the last time the reactor sent a request
/// to change the window frame.
#[derive(Clone, Copy, Debug, PartialEq, Eq, Structural)]
pub struct TransactionId(pub u32);

impl Default for TransactionId {
    fn default() -> (id: TransactionId)
        ensures
            id == TransactionId(0),
    {
        TransactionId(0)
    }
}

/// A request to the thread of an application.
#[derive(Clone, Copy, Debug, PartialEq, Eq, Structural)]
pub enum Request {
    Terminate,
    GetVisibleWindows,
    SetHidden(bool),
    Unminimize(WindowId),
    SetWindowFrame(WindowId, Rect, TransactionId),
    BeginWindowAnimation(WindowId),
    AnimationFrame { wid: WindowId, frame: Rect, set_size: bool, txid: TransactionId },
    EndWindowAnimation(WindowId),
    WindowDestroyed(WindowId),
}

/// A request on its way to an application.
#[derive(Clone, Copy, Debug, PartialEq, Eq, Structural)]
pub struct Sent {
    pub handle: AppThreadHandle,
    pub request: Request,
}

} // verus!
