//! Laws about what each event leads to.
use vstd::prelude::*;

use crate::apps::{AppInfo, WindowInfo};
use crate::effects::{EffectView, LayoutEventView, RaiseEventView};
use crate::events::{
    Command, Event, LayoutCommand, MetricsCommand, MouseState, Quiet, ReactorCommand, Requested, Settings,
    WindowsOnScreen,
};
use crate::geometry::{overlap_of, CoordinateConverter, Point, Rect};
use crate::ids::{Pid, WindowId, WindowServerId};
use crate::number::Number;
use crate::ordered::{in_order, lemma_can_be_ordered, rising, Key};
use crate::reactor_laws::lemma_same_best_screen;
use crate::reactor_model::{seq_of, with_found, with_found_ids, Focus, ReactorView, Screen, WindowState};
use crate::request::{AppThreadHandle, Request, Sent, TransactionId};
use crate::scratchpad::PendingShowId;
use crate::sequences::{each, lemma_each_step, lemma_take_all};
use crate::space::SpaceId;

verus! {

/// The active screen. Until one is known, it is the first.
pub open spec fn is_active(v: ReactorView, screen: int) -> bool {
    &&& 0 <= screen < v.screens.len()
    &&& v.active_screen_idx matches Some(i) ==> screen == i
    &&& v.active_screen_idx is None ==> screen == 0
}

/// The effect is to be done once, and it is the only one of its sort.
pub open spec fn once(effects: Seq<EffectView>, effect: EffectView, sort: spec_fn(EffectView) -> bool) -> bool {
    exists|i: int|
        0 <= i < effects.len() && #[trigger] effects[i] == effect && forall|j: int|
            0 <= j < effects.len() && sort(#[trigger] effects[j]) ==> j == i
}

/// No effect of the sort is to be done.
pub open spec fn never(effects: Seq<EffectView>, sort: spec_fn(EffectView) -> bool) -> bool {
    forall|j: int| 0 <= j < effects.len() ==> !sort(#[trigger] effects[j])
}

/// What the layout is told, in answer to no mouse.
pub open spec fn told(event: LayoutEventView) -> EffectView {
    EffectView::Layout { event, from_mouse: false }
}

/// The layout is told that a window changed its space.
pub open spec fn tells_of_a_space(e: EffectView) -> bool {
    e matches EffectView::Layout { event, .. } && event is WindowSpaceChanged
}

/// The layout is told that a window has another frame.
pub open spec fn tells_of_a_frame(e: EffectView) -> bool {
    e matches EffectView::Layout { event, .. } && event is WindowFrameChanged
}

/// The layout is told that a window has another size.
pub open spec fn tells_of_a_size(e: EffectView) -> bool {
    e matches EffectView::Layout { event, .. } && event is WindowResized
}

// ---- Mouse ----

/// Where scrolling is enabled, the modifier key is held and the active screen
/// is managed, the wheel scrolls the space of that screen once: sideways if it
/// was turned sideways, and otherwise by how far it was turned up or down.
pub proof fn wheel_scrolls_the_active_space(
    v: ReactorView,
    delta_x: Number,
    delta_y: Number,
    focus: Focus,
    screen: int,
    space: SpaceId,
)
    requires
        v.settings.scroll_enabled,
        is_active(v, screen),
        v.screens[screen].space == Some(space),
    ensures
        ({
            let out = v.handling(Event::ScrollWheel { delta_x, delta_y, alt_held: true }, focus).effects;
            let frame = v.screens[screen].frame;
            let sort = |e: EffectView| e is Scroll;
            &&& delta_x.same(Number { bits: 0 }) ==> once(
                out,
                EffectView::Scroll { space, delta: delta_y, frame },
                sort,
            )
            &&& !delta_x.same(Number { bits: 0 }) ==> once(
                out,
                EffectView::Scroll { space, delta: delta_x, frame },
                sort,
            )
        }),
{
    let out = v.handling(Event::ScrollWheel { delta_x, delta_y, alt_held: true }, focus).effects;
    assert(out.len() == 2);
    assert(out[0] is Scroll);
    assert(out[1] is Finish);
}

/// The wheel scrolls nothing where scrolling is not enabled, the modifier key
/// is not held, or the active screen is not managed, and it never changes more
/// than the focus.
pub proof fn wheel_scrolls_nothing_else(
    v: ReactorView,
    delta_x: Number,
    delta_y: Number,
    alt_held: bool,
    focus: Focus,
)
    ensures
        ({
            let r = v.handling(Event::ScrollWheel { delta_x, delta_y, alt_held }, focus);
            &&& r.state == (ReactorView { main_window: focus.main_window, ..v })
            &&& !v.settings.scroll_enabled || !alt_held ==> r.effects.len() == 0
            &&& (forall|screen: int| #[trigger] is_active(v, screen) ==> v.screens[screen].space is None) ==> never(
                r.effects,
                |e: EffectView| e is Scroll,
            )
        }),
{
    if v.active_idx() < v.screens.len() {
        assert(is_active(v, v.active_idx()));
    }
}

/// A press, a drag and a release of the mouse button go to the active screen,
/// if it is managed: with its space and frame and the place of the mouse.
pub proof fn mouse_acts_on_the_active_screen(v: ReactorView, point: Point, focus: Focus, screen: int, space: SpaceId)
    requires
        is_active(v, screen),
        v.screens[screen].space == Some(space),
    ensures
        ({
            let frame = v.screens[screen].frame;
            &&& once(
                v.handling(Event::LeftMouseDown(point), focus).effects,
                EffectView::HitTest { space, point, frame },
                |e: EffectView| !(e is Finish),
            )
            &&& once(
                v.handling(Event::LeftMouseDragged(point), focus).effects,
                EffectView::Drag { point, frame },
                |e: EffectView| !(e is Finish),
            )
            &&& once(
                v.handling(Event::MouseUp, focus).effects,
                EffectView::EndInteraction { space, frame },
                |e: EffectView| !(e is Finish),
            )
        }),
{
    let a = v.handling(Event::LeftMouseDown(point), focus).effects;
    assert(a.len() == 2 && a[0] is HitTest && a[1] is Finish);
    let b = v.handling(Event::LeftMouseDragged(point), focus).effects;
    assert(b.len() == 2 && b[0] is Drag && b[1] is Finish);
    let c = v.handling(Event::MouseUp, focus).effects;
    assert(c.len() == 2 && c[0] is EndInteraction && c[1] is Finish);
}

/// Where the active screen is not managed, the mouse acts on nothing.
pub proof fn mouse_acts_on_no_other_screen(v: ReactorView, point: Point, focus: Focus)
    requires
        forall|screen: int| #[trigger] is_active(v, screen) ==> v.screens[screen].space is None,
    ensures
        never(v.handling(Event::LeftMouseDown(point), focus).effects, |e: EffectView| !(e is Finish)),
        never(v.handling(Event::LeftMouseDragged(point), focus).effects, |e: EffectView| !(e is Finish)),
        never(v.handling(Event::MouseUp, focus).effects, |e: EffectView| !(e is Finish)),
{
    if v.active_idx() < v.screens.len() {
        assert(is_active(v, v.active_idx()));
    }
}

// ---- Frames ----

/// An accepted frame that differs from the last one is told to the layout once.
pub proof fn new_frame_is_told(
    v: ReactorView,
    wid: WindowId,
    frame: Rect,
    mouse: Option<MouseState>,
    focus: Focus,
)
    requires
        v.windows.dom().contains(wid),
        !v.windows[wid].frame_monotonic.same(frame),
    ensures
        once(
            v.handling(
                Event::WindowFrameChanged(wid, frame, v.windows[wid].last_sent_txid, Requested(false), mouse),
                focus,
            ).effects,
            told(LayoutEventView::WindowFrameChanged { wid, frame }),
            |e: EffectView| tells_of_a_frame(e),
        ),
{
    let out = v.handling(
        Event::WindowFrameChanged(wid, frame, v.windows[wid].last_sent_txid, Requested(false), mouse),
        focus,
    ).effects;
    assert(out[0] == told(LayoutEventView::WindowFrameChanged { wid, frame }));
}

/// A window whose best screen is another than before is told to the layout as
/// leaving the space of the old screen and arriving on that of the new one,
/// once, with its new frame.
pub proof fn window_changes_from_the_old_space_to_the_new(
    v: ReactorView,
    wid: WindowId,
    frame: Rect,
    mouse: Option<MouseState>,
    focus: Focus,
    from: int,
    to: int,
)
    requires
        v.windows.dom().contains(wid),
        !v.windows[wid].frame_monotonic.same(frame),
        v.best_screen(v.windows[wid].frame_monotonic) == Some(from),
        v.best_screen(frame) == Some(to),
        from != to,
    ensures
        ({
            let r = v.handling(
                Event::WindowFrameChanged(wid, frame, v.windows[wid].last_sent_txid, Requested(false), mouse),
                focus,
            );
            let info = r.state.layout_info(wid);
            &&& info.frame == frame
            &&& once(
                r.effects,
                told(
                    LayoutEventView::WindowSpaceChanged {
                        wid,
                        added: v.screens[to].space,
                        removed: v.screens[from].space,
                        info,
                    },
                ),
                |e: EffectView| tells_of_a_space(e),
            )
        }),
{
    let event = Event::WindowFrameChanged(wid, frame, v.windows[wid].last_sent_txid, Requested(false), mouse);
    let r = v.handling(event, focus);
    let w = r.state;
    lemma_same_best_screen(v, w, frame);
    lemma_same_best_screen(v, w, v.windows[wid].frame_monotonic);
    let moved = ReactorView {
        in_drag: v.in_drag,
        resizing_window: if mouse == Some(MouseState::Up) {
            None
        } else {
            v.resizing_window
        },
        ..w
    };
    lemma_same_best_screen(v, moved, frame);
    lemma_same_best_screen(v, moved, v.windows[wid].frame_monotonic);
    assert(moved.layout_info(wid) == w.layout_info(wid));
    assert(r.effects[1] == told(
        LayoutEventView::WindowSpaceChanged {
            wid,
            added: v.screens[to].space,
            removed: v.screens[from].space,
            info: w.layout_info(wid),
        },
    ));
    assert(!tells_of_a_space(r.effects[0]));
}

/// A window that stays on its screen, or is on no screen before or after, has
/// not changed its space, and neither has one whose frame is not accepted.
pub proof fn window_on_one_screen_keeps_its_space(
    v: ReactorView,
    wid: WindowId,
    frame: Rect,
    last_seen: TransactionId,
    requested: Requested,
    mouse: Option<MouseState>,
    focus: Focus,
)
    requires
        v.windows.dom().contains(wid),
        ({
            ||| v.best_screen(v.windows[wid].frame_monotonic) is None
            ||| v.best_screen(frame) is None
            ||| v.best_screen(v.windows[wid].frame_monotonic) == v.best_screen(frame)
            ||| v.windows[wid].frame_monotonic.same(frame)
            ||| last_seen != v.windows[wid].last_sent_txid
            ||| requested.0
        }),
    ensures
        never(
            v.handling(Event::WindowFrameChanged(wid, frame, last_seen, requested, mouse), focus).effects,
            |e: EffectView| tells_of_a_space(e),
        ),
{
    let event = Event::WindowFrameChanged(wid, frame, last_seen, requested, mouse);
    let r = v.handling(event, focus);
    let moved = ReactorView {
        in_drag: v.in_drag,
        resizing_window: if mouse == Some(MouseState::Up) {
            None
        } else {
            v.resizing_window
        },
        ..r.state
    };
    lemma_same_best_screen(v, moved, frame);
    lemma_same_best_screen(v, moved, v.windows[wid].frame_monotonic);
}

/// A window whose size differs is told to the layout as resized, once, from the
/// frame that it had to the one that it has, and nothing is animated then. A
/// window of the same size is not.
pub proof fn resize_is_told_with_both_frames(
    v: ReactorView,
    wid: WindowId,
    frame: Rect,
    mouse: Option<MouseState>,
    focus: Focus,
)
    requires
        v.windows.dom().contains(wid),
        !v.windows[wid].frame_monotonic.same(frame),
    ensures
        ({
            let out = v.handling(
                Event::WindowFrameChanged(wid, frame, v.windows[wid].last_sent_txid, Requested(false), mouse),
                focus,
            ).effects;
            let old_frame = v.windows[wid].frame_monotonic;
            let resized = !old_frame.size.same(frame.size);
            &&& resized ==> once(
                out,
                told(
                    LayoutEventView::WindowResized {
                        wid,
                        old_frame,
                        new_frame: frame,
                        screens: v.managed_frames(),
                    },
                ),
                |e: EffectView| tells_of_a_size(e),
            )
            &&& !resized ==> never(out, |e: EffectView| tells_of_a_size(e))
            &&& out.last() == (EffectView::Finish {
                raised_window: focus.raised_window,
                new_wids: Seq::empty(),
                is_resize: resized,
            })
        }),
{
    let event = Event::WindowFrameChanged(wid, frame, v.windows[wid].last_sent_txid, Requested(false), mouse);
    let r = v.handling(event, focus);
    let out = r.effects;
    let old_frame = v.windows[wid].frame_monotonic;
    if !old_frame.size.same(frame.size) {
        let k = out.len() - 2;
        assert(out[k] == told(
            LayoutEventView::WindowResized { wid, old_frame, new_frame: frame, screens: v.managed_frames() },
        ));
        assert(!tells_of_a_size(out[0]));
        assert(k == 2 ==> !tells_of_a_size(out[1]));
    }
}

/// The mouse button, held while a window changes its size, resizes the window;
/// held while it only moves, it drags it. Released, it resizes nothing.
pub proof fn button_resizes_or_drags(
    v: ReactorView,
    wid: WindowId,
    frame: Rect,
    mouse: Option<MouseState>,
    focus: Focus,
)
    requires
        v.windows.dom().contains(wid),
        !v.windows[wid].frame_monotonic.same(frame),
    ensures
        ({
            let after = v.handling(
                Event::WindowFrameChanged(wid, frame, v.windows[wid].last_sent_txid, Requested(false), mouse),
                focus,
            ).state;
            let resized = !v.windows[wid].frame_monotonic.size.same(frame.size);
            &&& mouse == Some(MouseState::Down) && resized ==> after.resizing_window == Some(wid) && after.in_drag
                == v.in_drag
            &&& mouse == Some(MouseState::Down) && !resized ==> after.resizing_window == v.resizing_window
                && after.in_drag
            &&& mouse == Some(MouseState::Up) ==> after.resizing_window is None && after.in_drag == v.in_drag
            &&& mouse is None ==> after.resizing_window == v.resizing_window && after.in_drag == v.in_drag
        }),
{
}

/// An event about the frame of a window changes nothing else that is known: not
/// another window, nor what else is known of this one.
pub proof fn frame_event_changes_only_the_frame(
    v: ReactorView,
    wid: WindowId,
    frame: Rect,
    last_seen: TransactionId,
    requested: Requested,
    mouse: Option<MouseState>,
    focus: Focus,
    other: WindowId,
)
    requires
        v.windows.dom().contains(wid),
    ensures
        ({
            let after = v.handling(Event::WindowFrameChanged(wid, frame, last_seen, requested, mouse), focus).state;
            let was = v.windows[wid];
            let is = after.windows[wid];
            &&& after.windows.dom() == v.windows.dom()
            &&& other != wid ==> after.windows[other] == v.windows[other]
            &&& is.title == was.title && is.is_ax_standard == was.is_ax_standard && is.is_resizable
                == was.is_resizable
            &&& is.ax_role == was.ax_role && is.ax_subrole == was.ax_subrole
            &&& is.last_sent_txid == was.last_sent_txid && is.window_server_id == was.window_server_id
            &&& is.frame_monotonic == (if last_seen == was.last_sent_txid && !requested.0 {
                frame
            } else {
                was.frame_monotonic
            })
        }),
{
    let after = v.handling(Event::WindowFrameChanged(wid, frame, last_seen, requested, mouse), focus).state;
    assert(after.windows.dom() =~= v.windows.dom());
}

// ---- Screens ----

/// How many of the first screens are managed.
pub open spec fn managed_before(screens: Seq<Screen>, n: int) -> nat
    decreases n,
{
    if n <= 0 {
        0
    } else {
        managed_before(screens, n - 1) + (if screens[n - 1].space is Some {
            1nat
        } else {
            0nat
        })
    }
}

/// The managed spaces are those of the screens, in the order of the screens and
/// each with the frame and the size of its screen. There are no others.
pub proof fn managed_spaces_are_in_the_order_of_the_screens(v: ReactorView, i: int)
    requires
        0 <= i < v.screens.len(),
    ensures
        v.managed_spaces().len() == managed_before(v.screens, v.screens.len() as int),
        v.managed_frames().len() == managed_before(v.screens, v.screens.len() as int),
        v.managed_sizes().len() == managed_before(v.screens, v.screens.len() as int),
        v.screens[i].space matches Some(space) ==> {
            let k = managed_before(v.screens, i) as int;
            let frame = v.screens[i].frame;
            &&& k < v.managed_spaces().len()
            &&& v.managed_spaces()[k] == space
            &&& v.managed_frames()[k] == (space, frame)
            &&& v.managed_sizes()[k] == (space, frame.size)
        },
{
    lemma_managed(v.screens, |s: Screen| seq_of(s.space), v.screens.len() as int, i);
    lemma_managed(
        v.screens,
        |s: Screen|
            match s.space {
                Some(space) => seq![(space, s.frame)],
                None => Seq::empty(),
            },
        v.screens.len() as int,
        i,
    );
    lemma_managed(
        v.screens,
        |s: Screen|
            match s.space {
                Some(space) => seq![(space, s.frame.size)],
                None => Seq::empty(),
            },
        v.screens.len() as int,
        i,
    );
    lemma_take_all(v.screens);
}

/// What is made of the managed screens alone stands in their order.
proof fn lemma_managed<B>(screens: Seq<Screen>, f: spec_fn(Screen) -> Seq<B>, n: int, i: int)
    requires
        0 <= n <= screens.len(),
        0 <= i < screens.len(),
        forall|s: Screen| (#[trigger] f(s)).len() == if s.space is Some {
            1nat
        } else {
            0nat
        },
    ensures
        each(screens.take(n), f).len() == managed_before(screens, n),
        i < n && screens[i].space is Some ==> managed_before(screens, i) < each(screens.take(n), f).len() && each(
            screens.take(n),
            f,
        )[managed_before(screens, i) as int] == f(screens[i])[0],
    decreases n,
{
    if n > 0 {
        lemma_managed(screens, f, n - 1, i);
        lemma_each_step(screens, f, n - 1);
        assert(f(screens[n - 1]).len() <= 1);
        if i == n - 1 && screens[i].space is Some {
            let before = each(screens.take(n - 1), f);
            assert(each(screens.take(n), f)[before.len() as int] == f(screens[i])[0]);
        }
    } else {
        assert(screens.take(n) =~= Seq::empty());
    }
}

/// The screens are those of the last change of the screen layout: as many as
/// the shortest of the lists has, each with its own frame, space and scale.
pub proof fn screens_are_those_reported(
    v: ReactorView,
    frames: Vec<Rect>,
    spaces: Vec<Option<SpaceId>>,
    scale_factors: Vec<Number>,
    converter: CoordinateConverter,
    on_screen: WindowsOnScreen,
    focus: Focus,
    i: int,
)
    ensures
        ({
            let event = Event::ScreenParametersChanged { frames, spaces, scale_factors, converter, on_screen };
            let screens = v.handling(event, focus).state.screens;
            &&& screens.len() <= frames@.len() && screens.len() <= spaces@.len() && screens.len()
                <= scale_factors@.len()
            &&& screens.len() == frames@.len() || screens.len() == spaces@.len() || screens.len()
                == scale_factors@.len()
            &&& 0 <= i < screens.len() ==> {
                &&& screens[i].frame == frames@[i]
                &&& screens[i].space == spaces@[i]
                &&& screens[i].scale_factor == scale_factors@[i]
            }
        }),
{
}

/// After a change of the screen layout the layout is shown the managed spaces
/// with the sizes of their new screens and the order of the windows, before
/// windows are placed, and the group bars are told of the new screens.
pub proof fn screen_change_exposes_the_spaces(
    v: ReactorView,
    frames: Vec<Rect>,
    spaces: Vec<Option<SpaceId>>,
    scale_factors: Vec<Number>,
    converter: CoordinateConverter,
    on_screen: WindowsOnScreen,
    focus: Focus,
)
    ensures
        ({
            let event = Event::ScreenParametersChanged { frames, spaces, scale_factors, converter, on_screen };
            let r = v.handling(event, focus);
            &&& r.effects.len() == 5
            &&& r.effects[0] == (EffectView::ExposeSpaces {
                spaces: r.state.managed_sizes(),
                visible_window_order: on_screen.visible@,
            })
            &&& r.effects[1] is UpdateActiveScreen
            &&& r.effects[2] is PlaceMovedScratchpads
            &&& r.effects[3] == EffectView::GroupScreensChanged(spaces@, converter)
            &&& r.effects[4] is Finish
        }),
{
}

/// A change of space that fits the screens puts the new spaces on them and
/// leaves their frames and scales as they are. What was dragged or resized is
/// let go.
pub proof fn screens_show_the_new_spaces(
    v: ReactorView,
    spaces: Vec<Option<SpaceId>>,
    on_screen: WindowsOnScreen,
    focus: Focus,
    i: int,
)
    requires
        spaces@.len() == v.screens.len(),
    ensures
        ({
            let after = v.handling(Event::SpaceChanged(spaces, on_screen), focus).state;
            &&& after.screens.len() == v.screens.len()
            &&& 0 <= i < v.screens.len() ==> {
                &&& after.screens[i].space == spaces@[i]
                &&& after.screens[i].frame == v.screens[i].frame
                &&& after.screens[i].scale_factor == v.screens[i].scale_factor
            }
            &&& !after.in_drag
            &&& after.resizing_window is None
        }),
{
}

/// After a change of space what the mouse does is cancelled and the layout is
/// shown the new spaces. Then it is told of the window that has the focus.
pub proof fn space_change_exposes_the_spaces(
    v: ReactorView,
    spaces: Vec<Option<SpaceId>>,
    on_screen: WindowsOnScreen,
    focus: Focus,
)
    requires
        spaces@.len() == v.screens.len(),
    ensures
        ({
            let r = v.handling(Event::SpaceChanged(spaces, on_screen), focus);
            let n: int = if focus.main_window is Some {
                3
            } else {
                2
            };
            &&& r.effects.len() > n + 2
            &&& r.effects[0] is CancelInteractiveState
            &&& r.effects[1] == (EffectView::ExposeSpaces {
                spaces: r.state.managed_sizes(),
                visible_window_order: on_screen.visible@,
            })
            &&& focus.main_window matches Some(wid) ==> r.effects[2] == told(
                LayoutEventView::WindowFocused(r.state.managed_spaces(), wid),
            )
            &&& r.effects[n] is UpdateActiveScreen
            &&& r.effects[n + 1] is PlaceMovedScratchpads
        }),
{
    let r = v.handling(Event::SpaceChanged(spaces, on_screen), focus);
    if focus.main_window is Some {
        assert(r.effects[2] == r.state.tell_focused(focus.main_window->0));
    }
}

/// After a change of space every known app is asked for its visible windows,
/// through its own handle and in the order of the apps. Nothing else follows
/// but the end of the event.
pub proof fn space_change_asks_every_app(
    v: ReactorView,
    spaces: Vec<Option<SpaceId>>,
    on_screen: WindowsOnScreen,
    focus: Focus,
)
    requires
        spaces@.len() == v.screens.len(),
        v.apps.dom().finite(),
    ensures
        ({
            let out = v.handling(Event::SpaceChanged(spaces, on_screen), focus).effects;
            let n: int = if focus.main_window is Some {
                5
            } else {
                4
            };
            exists|pids: Seq<Pid>|
                {
                    &&& #[trigger] rising(pids)
                    &&& pids.to_set() == v.apps.dom()
                    &&& out.len() == n + pids.len() + 1
                    &&& forall|i: int|
                        0 <= i < pids.len() ==> out[n + i] == EffectView::Request(
                            Sent { handle: v.apps[#[trigger] pids[i]].handle, request: Request::GetVisibleWindows },
                        )
                    &&& out.last() is Finish
                }
        }),
{
    let r = v.handling(Event::SpaceChanged(spaces, on_screen), focus);
    let pids = in_order(v.apps.dom());
    lemma_can_be_ordered(v.apps.dom());
    let asks = r.state.ask_visible_windows();
    let n = r.effects.len() - 1 - asks.len();
    assert(asks.len() == pids.len());
    assert forall|i: int| 0 <= i < pids.len() implies r.effects[n + i] == EffectView::Request(
        Sent { handle: v.apps[#[trigger] pids[i]].handle, request: Request::GetVisibleWindows },
    ) by {
        assert(r.effects[n + i] == asks[i]);
    }
}

/// The active screen is the best screen of the main window, if there is one,
/// and that it became another is told once. Nothing else changes it.
pub proof fn active_screen_is_that_of_the_main_window(v: ReactorView)
    ensures
        ({
            let r = v.activating_screen();
            let screen = match v.main_window {
                Some(wid) => if v.windows.dom().contains(wid) {
                    v.best_screen(v.windows[wid].frame_monotonic)
                } else {
                    None
                },
                None => None,
            };
            &&& screen matches Some(i) ==> 0 <= i <= u16::MAX ==> {
                &&& r.state.active_screen_idx matches Some(active) && active == i
                &&& r.effects == (if v.active_screen_idx matches Some(was) && was == i {
                    Seq::<EffectView>::empty()
                } else {
                    seq![EffectView::FocusedScreenChanged]
                })
            }
            &&& screen is None ==> r.state == v && r.effects.len() == 0
            &&& r.state == (ReactorView { active_screen_idx: r.state.active_screen_idx, ..v })
        }),
{
}

/// A screen with more of the window than any other is its best screen. Of the
/// screens with the most of it, this is the last; a window that covers no area
/// of any screen is on the first that holds its middle.
pub proof fn best_screen_has_the_most_of_the_window(v: ReactorView, frame: Rect, i: int)
    requires
        v.best_screen(frame) == Some(i),
    ensures
        0 <= i < v.screens.len(),
        ({
            let zero = Number { bits: 0 };
            let on = |j: int| overlap_of(v.measured, v.screens[j].frame, frame);
            &&& zero.less(on(i).area) ==> forall|j: int|
                0 <= j < v.screens.len() ==> !on(i).area.less((#[trigger] on(j)).area) && (j > i
                    ==> !on(i).area.same(on(j).area))
            &&& !zero.less(on(i).area) ==> on(i).holds_middle && forall|j: int|
                0 <= j < v.screens.len() ==> !zero.less((#[trigger] on(j)).area) && (j < i ==> !on(j).holds_middle)
        }),
{
    let on = |j: int| overlap_of(v.measured, v.screens[j].frame, frame);
    let zero = Number { bits: 0 };
    if exists|k: int| v.overlaps_most(frame, k) {
        assert(v.overlaps_most(frame, i));
        assert forall|j: int| 0 <= j < v.screens.len() implies !on(i).area.less((#[trigger] on(j)).area) && (j > i
            ==> !on(i).area.same(on(j).area)) by {
            assert(v.overlap(j, frame) == on(j));
        }
    } else {
        assert(v.holds_middle(frame, i));
        assert forall|j: int|
            0 <= j < v.screens.len() implies !zero.less((#[trigger] on(j)).area) && (j < i
            ==> !on(j).holds_middle) by {
            assert(v.overlap(j, frame) == on(j));
            if zero.less(on(j).area) {
                lemma_some_screen_has_the_most(v, frame, v.screens.len() as int, j);
            }
        }
    }
}

/// A window that covers an area of some screen has a best screen, and so has
/// one whose middle is on some screen.
pub proof fn window_on_a_screen_has_a_best_screen(v: ReactorView, frame: Rect, j: int)
    requires
        0 <= j < v.screens.len(),
        ({
            let on = overlap_of(v.measured, v.screens[j].frame, frame);
            Number { bits: 0 }.less(on.area) || on.holds_middle
        }),
    ensures
        v.best_screen(frame) is Some,
{
    assert(v.overlap(j, frame) == overlap_of(v.measured, v.screens[j].frame, frame));
    if v.overlap(j, frame).positive() {
        lemma_some_screen_has_the_most(v, frame, v.screens.len() as int, j);
    } else {
        lemma_some_screen_is_first(v, frame, j);
    }
}

/// Of the first `n` screens, one has the most of the window.
proof fn lemma_most_of(v: ReactorView, frame: Rect, n: int, j: int) -> (k: int)
    requires
        0 <= j < n <= v.screens.len(),
        v.overlap(j, frame).positive(),
    ensures
        0 <= k < n,
        v.overlap(k, frame).positive(),
        forall|other: int|
            0 <= other < n && (#[trigger] v.overlap(other, frame)).positive() ==> {
                ||| v.overlap(other, frame).area.less(v.overlap(k, frame).area)
                ||| v.overlap(other, frame).area.same(v.overlap(k, frame).area) && other <= k
            },
    decreases n,
{
    let last = n - 1;
    if !v.overlap(last, frame).positive() {
        lemma_most_of(v, frame, n - 1, j)
    } else if exists|i: int| 0 <= i < last && (#[trigger] v.overlap(i, frame)).positive() {
        let i = choose|i: int| 0 <= i < last && (#[trigger] v.overlap(i, frame)).positive();
        let k = lemma_most_of(v, frame, n - 1, i);
        if v.overlap(last, frame).area.less(v.overlap(k, frame).area) {
            k
        } else {
            last
        }
    } else {
        last
    }
}

proof fn lemma_some_screen_has_the_most(v: ReactorView, frame: Rect, n: int, j: int)
    requires
        n == v.screens.len(),
        0 <= j < n,
        v.overlap(j, frame).positive(),
    ensures
        exists|k: int| v.overlaps_most(frame, k),
{
    let k = lemma_most_of(v, frame, n, j);
    assert(v.overlaps_most(frame, k));
}

/// One of the screens up to `j` is the first that holds the middle.
proof fn lemma_some_screen_is_first(v: ReactorView, frame: Rect, j: int)
    requires
        0 <= j < v.screens.len(),
        v.overlap(j, frame).holds_middle,
    ensures
        exists|k: int| v.holds_middle(frame, k),
    decreases j,
{
    if exists|i: int| 0 <= i < j && (#[trigger] v.overlap(i, frame)).holds_middle {
        let i = choose|i: int| 0 <= i < j && (#[trigger] v.overlap(i, frame)).holds_middle;
        lemma_some_screen_is_first(v, frame, i);
    } else {
        assert(v.holds_middle(frame, j));
    }
}

// ---- Windows ----

/// What the layout learns of a window is what is known of the window, of its
/// app and of it at the window server.
pub proof fn layout_learns_what_is_known(v: ReactorView, wid: WindowId)
    ensures
        ({
            let info = v.layout_info(wid);
            let window = v.windows[wid];
            &&& info.frame == window.frame_monotonic
            &&& info.title == window.title
            &&& info.is_standard == window.is_ax_standard
            &&& info.is_resizable == window.is_resizable
            &&& info.ax_role == window.ax_role
            &&& info.ax_subrole == window.ax_subrole
            &&& v.apps.dom().contains(wid.pid) ==> info.bundle_id == v.apps[wid.pid].info.bundle_id
                && info.app_name == v.apps[wid.pid].info.localized_name
            &&& !v.apps.dom().contains(wid.pid) ==> info.bundle_id is None && info.app_name is None
            &&& window.window_server_id matches Some(wsid) ==> {
                &&& v.window_server_info.dom().contains(wsid) ==> info.layer == Some(
                    v.window_server_info[wsid].layer,
                )
                &&& !v.window_server_info.dom().contains(wsid) ==> info.layer is None
            }
            &&& window.window_server_id is None ==> info.layer is None
        }),
{
}

/// A window that became visible is added to the managed space of its best
/// screen and counts as new. On no managed screen, it may be a scratchpad, and
/// does not count as new. Of an unknown window nothing is told.
pub proof fn visible_window_is_added_to_its_space(v: ReactorView, wid: WindowId, focus: Focus)
    ensures
        ({
            let r = v.handling(Event::WindowBecameVisible(wid), focus);
            let known = v.windows.dom().contains(wid);
            let screen = v.best_screen(v.windows[wid].frame_monotonic);
            let others = |e: EffectView| !(e is Finish);
            let space = match screen {
                Some(i) => v.screens[i].space,
                None => None,
            };
            &&& r.effects.last() matches EffectView::Finish { new_wids, .. } && {
                &&& known && space is Some ==> new_wids == seq![wid]
                &&& !known || space is None ==> new_wids.len() == 0
            }
            &&& known ==> (space matches Some(space) ==> once(
                r.effects,
                told(LayoutEventView::WindowAdded(space, wid, v.layout_info(wid))),
                others,
            ))
            &&& known && space is None ==> once(
                r.effects,
                told(LayoutEventView::ScratchpadCandidates(seq![(wid, v.layout_info(wid))])),
                others,
            )
            &&& !known ==> never(r.effects, others)
        }),
{
    let r = v.handling(Event::WindowBecameVisible(wid), focus);
    let w = ReactorView { main_window: focus.main_window, ..v };
    if v.windows.dom().contains(wid) {
        lemma_same_best_screen(v, w, v.windows[wid].frame_monotonic);
        assert(w.layout_info(wid) == v.layout_info(wid));
        assert(w.with_info(seq![wid]) =~= seq![(wid, v.layout_info(wid))]);
        assert(r.effects.len() == 2);
        assert(r.effects[0] is Layout && r.effects[1] is Finish);
    }
}

/// A created window is known with what is reported of it, under the id that the
/// window server gave it, and as written to zero times. No other window is
/// concerned. A held mouse button is dragging something.
pub proof fn created_window_is_known_as_reported(
    v: ReactorView,
    wid: WindowId,
    info: WindowInfo,
    mouse: MouseState,
    focus: Focus,
    other: WindowId,
    wsid: WindowServerId,
)
    ensures
        ({
            let r = v.handling(Event::WindowCreated(wid, info, mouse), focus);
            let window = r.state.windows[wid];
            let others = |e: EffectView| !(e is Finish);
            &&& r.state.windows.dom().contains(wid)
            &&& as_found(window, info)
            &&& other != wid ==> r.state.windows.dom().contains(other) == v.windows.dom().contains(other)
                && r.state.windows[other] == v.windows[other]
            &&& info.sys_id == Some(wsid) ==> r.state.window_ids.dom().contains(wsid) && r.state.window_ids[wsid]
                == wid
            &&& info.sys_id != Some(wsid) ==> r.state.window_ids.dom().contains(wsid)
                == v.window_ids.dom().contains(wsid) && r.state.window_ids[wsid] == v.window_ids[wsid]
            &&& r.state.in_drag == (v.in_drag || mouse == MouseState::Down)
            &&& never(r.effects, others)
        }),
{
}

/// The window is known with what was reported when it was found.
pub open spec fn as_found(window: WindowState, info: WindowInfo) -> bool {
    &&& window.title == info.title
    &&& window.frame_monotonic == info.frame
    &&& window.is_ax_standard == info.is_standard
    &&& window.is_resizable == info.is_resizable
    &&& window.ax_role == info.ax_role
    &&& window.ax_subrole == info.ax_subrole
    &&& window.last_sent_txid.0 == 0
    &&& window.window_server_id == info.sys_id
}

/// A destroyed window is taken out of the layout, after what the mouse does is
/// cancelled.
pub proof fn destroyed_window_is_removed_from_the_layout(v: ReactorView, wid: WindowId, focus: Focus)
    ensures
        ({
            let r = v.handling(Event::WindowDestroyed(wid), focus);
            &&& r.effects.len() == 3
            &&& r.effects[0] is CancelInteractiveState
            &&& r.effects[1] == told(LayoutEventView::WindowRemoved(wid))
            &&& r.effects[2] is Finish
            &&& !r.state.in_drag
            &&& r.state.resizing_window is None
        }),
{
}

/// A list of windows found for an app makes each of them known, by its last
/// entry, and leaves the others as they are.
pub proof fn found_windows_are_known_as_reported(
    v: ReactorView,
    pid: Pid,
    new: Vec<(WindowId, WindowInfo)>,
    known_visible: Vec<WindowId>,
    focus: Focus,
    wid: WindowId,
    i: int,
)
    requires
        0 <= i < new@.len() ==> new@[i].0 == wid,
        forall|j: int| 0 <= j < new@.len() && j > i ==> (#[trigger] new@[j]).0 != wid,
    ensures
        ({
            let after = v.handling(Event::WindowsDiscovered { pid, new, known_visible }, focus).state;
            &&& 0 <= i < new@.len() ==> after.windows.dom().contains(wid) && as_found(after.windows[wid], new@[i].1)
            &&& i < 0 ==> after.windows.dom().contains(wid) == v.windows.dom().contains(wid) && after.windows[wid]
                == v.windows[wid]
        }),
{
    lemma_found(v.windows, new@, wid, i);
}

/// The same holds of the windows of an app that was launched, and the app is
/// known with what is reported of it.
pub proof fn launched_app_is_known_as_reported(
    v: ReactorView,
    pid: Pid,
    info: AppInfo,
    handle: AppThreadHandle,
    is_frontmost: bool,
    main_window: Option<WindowId>,
    visible_windows: Vec<(WindowId, WindowInfo)>,
    focus: Focus,
    other: Pid,
    wid: WindowId,
    i: int,
)
    requires
        0 <= i < visible_windows@.len() ==> visible_windows@[i].0 == wid,
        forall|j: int| 0 <= j < visible_windows@.len() && j > i ==> (#[trigger] visible_windows@[j]).0 != wid,
    ensures
        ({
            let after = v.handling(
                Event::ApplicationLaunched { pid, info, handle, is_frontmost, main_window, visible_windows },
                focus,
            ).state;
            &&& after.apps.dom().contains(pid)
            &&& after.apps[pid].info == info
            &&& after.apps[pid].handle == handle
            &&& other != pid ==> after.apps.dom().contains(other) == v.apps.dom().contains(other)
                && after.apps[other] == v.apps[other]
            &&& 0 <= i < visible_windows@.len() ==> after.windows.dom().contains(wid) && as_found(
                after.windows[wid],
                visible_windows@[i].1,
            )
            &&& i < 0 ==> after.windows.dom().contains(wid) == v.windows.dom().contains(wid) && after.windows[wid]
                == v.windows[wid]
        }),
{
    lemma_found(v.windows, visible_windows@, wid, i);
}

proof fn lemma_found(
    windows: Map<WindowId, WindowState>,
    found: Seq<(WindowId, WindowInfo)>,
    wid: WindowId,
    i: int,
)
    requires
        0 <= i < found.len() ==> found[i].0 == wid,
        forall|j: int| 0 <= j < found.len() && j > i ==> (#[trigger] found[j]).0 != wid,
    ensures
        0 <= i < found.len() ==> with_found(windows, found).dom().contains(wid) && as_found(
            with_found(windows, found)[wid],
            found[i].1,
        ),
        i < 0 ==> with_found(windows, found).dom().contains(wid) == windows.dom().contains(wid) && with_found(
            windows,
            found,
        )[wid] == windows[wid],
    decreases found.len(),
{
    if found.len() > 0 && i < found.len() - 1 {
        let rest = found.drop_last();
        assert(found[found.len() - 1].0 != wid);
        assert forall|j: int| 0 <= j < rest.len() && j > i implies (#[trigger] rest[j]).0 != wid by {
            assert(found[j].0 != wid);
        }
        lemma_found(windows, rest, wid, i);
    }
}

/// A window found with an id of the window server is known by that id, if no
/// later one has it, and ids that were not found mean what they meant.
pub proof fn found_windows_are_known_by_their_ids(
    v: ReactorView,
    pid: Pid,
    new: Vec<(WindowId, WindowInfo)>,
    known_visible: Vec<WindowId>,
    focus: Focus,
    wsid: WindowServerId,
    i: int,
)
    requires
        0 <= i < new@.len() ==> new@[i].1.sys_id == Some(wsid),
        forall|j: int| 0 <= j < new@.len() && j > i ==> (#[trigger] new@[j]).1.sys_id != Some(wsid),
    ensures
        ({
            let after = v.handling(Event::WindowsDiscovered { pid, new, known_visible }, focus).state;
            &&& 0 <= i < new@.len() ==> after.window_ids.dom().contains(wsid) && after.window_ids[wsid] == new@[i].0
            &&& i < 0 ==> after.window_ids.dom().contains(wsid) == v.window_ids.dom().contains(wsid)
                && after.window_ids[wsid] == v.window_ids[wsid]
        }),
{
    lemma_found_ids(v.window_ids, new@, wsid, i);
}

/// The same holds of the windows of an app that was launched.
pub proof fn launched_windows_are_known_by_their_ids(
    v: ReactorView,
    pid: Pid,
    info: AppInfo,
    handle: AppThreadHandle,
    is_frontmost: bool,
    main_window: Option<WindowId>,
    visible_windows: Vec<(WindowId, WindowInfo)>,
    focus: Focus,
    wsid: WindowServerId,
    i: int,
)
    requires
        0 <= i < visible_windows@.len() ==> visible_windows@[i].1.sys_id == Some(wsid),
        forall|j: int|
            0 <= j < visible_windows@.len() && j > i ==> (#[trigger] visible_windows@[j]).1.sys_id != Some(wsid),
    ensures
        ({
            let after = v.handling(
                Event::ApplicationLaunched { pid, info, handle, is_frontmost, main_window, visible_windows },
                focus,
            ).state;
            &&& 0 <= i < visible_windows@.len() ==> after.window_ids.dom().contains(wsid) && after.window_ids[wsid]
                == visible_windows@[i].0
            &&& i < 0 ==> after.window_ids.dom().contains(wsid) == v.window_ids.dom().contains(wsid)
                && after.window_ids[wsid] == v.window_ids[wsid]
        }),
{
    lemma_found_ids(v.window_ids, visible_windows@, wsid, i);
}

proof fn lemma_found_ids(
    ids: Map<WindowServerId, WindowId>,
    found: Seq<(WindowId, WindowInfo)>,
    wsid: WindowServerId,
    i: int,
)
    requires
        0 <= i < found.len() ==> found[i].1.sys_id == Some(wsid),
        forall|j: int| 0 <= j < found.len() && j > i ==> (#[trigger] found[j]).1.sys_id != Some(wsid),
    ensures
        0 <= i < found.len() ==> with_found_ids(ids, found).dom().contains(wsid) && with_found_ids(ids, found)[wsid]
            == found[i].0,
        i < 0 ==> with_found_ids(ids, found).dom().contains(wsid) == ids.dom().contains(wsid) && with_found_ids(
            ids,
            found,
        )[wsid] == ids[wsid],
    decreases found.len(),
{
    if found.len() > 0 && i < found.len() - 1 {
        let rest = found.drop_last();
        assert(found[found.len() - 1].1.sys_id != Some(wsid));
        assert forall|j: int| 0 <= j < rest.len() && j > i implies (#[trigger] rest[j]).1.sys_id != Some(wsid) by {
            assert(found[j].1.sys_id != Some(wsid));
        }
        lemma_found_ids(ids, rest, wsid, i);
    }
}

/// A window is on the space of its best screen, and a window without a best
/// screen is on none.
pub proof fn window_is_on_the_space_of_its_best_screen(v: ReactorView, frame: Rect)
    ensures
        v.best_screen(frame) matches Some(i) ==> v.best_space(frame) == v.screens[i].space,
        v.best_screen(frame) is None ==> v.best_space(frame) is None,
{
}

/// A known window counts as visible if the window server gave it no id, or
/// reports the id that it gave. A window that is not known counts as visible.
pub proof fn window_is_visible_if_it_is_reported(v: ReactorView, wid: WindowId)
    ensures
        ({
            let id = v.windows[wid].window_server_id;
            let known = v.windows.dom().contains(wid);
            &&& known && id is Some ==> v.window_visible(wid) == v.visible_windows.contains(id->0)
            &&& !known || id is None ==> v.window_visible(wid)
        }),
{
}

// ---- Applications ----

/// An app that was asked to end is sent the request, through its own handle and
/// once. An unknown app is sent nothing.
pub proof fn termination_is_requested_of_the_app(v: ReactorView, pid: Pid, focus: Focus)
    ensures
        ({
            let out = v.handling(Event::ApplicationTerminated(pid), focus).effects;
            let others = |e: EffectView| !(e is Finish);
            &&& v.apps.dom().contains(pid) ==> once(
                out,
                EffectView::Request(Sent { handle: v.apps[pid].handle, request: Request::Terminate }),
                others,
            )
            &&& !v.apps.dom().contains(pid) ==> never(out, others)
        }),
{
    let out = v.handling(Event::ApplicationTerminated(pid), focus).effects;
    if v.apps.dom().contains(pid) {
        assert(out.len() == 2 && out[0] is Request && out[1] is Finish);
    }
}

/// The layout is told of the end of an app's thread, once. Before that, shows
/// that wait for the app are cancelled, by the bundle id that it is known with.
pub proof fn ended_app_is_told(v: ReactorView, pid: Pid, focus: Focus)
    ensures
        ({
            let out = v.handling(Event::ApplicationThreadTerminated(pid), focus).effects;
            let bundle_id = if v.apps.dom().contains(pid) {
                v.apps[pid].info.bundle_id
            } else {
                None
            };
            &&& once(out, told(LayoutEventView::AppClosed(pid)), |e: EffectView| e is Layout)
            &&& bundle_id matches Some(id) ==> out[0] == EffectView::CancelScratchpadShowsForApp(id@)
            &&& bundle_id is None ==> never(out, |e: EffectView| e is CancelScratchpadShowsForApp)
            &&& out.len() == (if bundle_id is Some {
                3int
            } else {
                2
            })
            &&& out.last() is Finish
        }),
{
    let out = v.handling(Event::ApplicationThreadTerminated(pid), focus).effects;
    let k = out.len() - 2;
    assert(out[k] == told(LayoutEventView::AppClosed(pid)));
}

/// Once every running app is registered, the layout is told of all of them, in
/// order and no others.
pub proof fn startup_tells_of_every_app(v: ReactorView, focus: Focus)
    requires
        v.apps.dom().finite(),
    ensures
        ({
            let out = v.handling(Event::StartupComplete, focus).effects;
            &&& out.len() == 2
            &&& out[0] matches EffectView::Layout {
                event: LayoutEventView::AppsRunningUpdated(pids),
                from_mouse,
            } && {
                &&& !from_mouse
                &&& forall|pid: Pid| pids.contains(pid) <==> #[trigger] v.apps.dom().contains(pid)
                &&& forall|i: int, j: int| 0 <= i < j < pids.len() ==> pids[i] < pids[j]
            }
            &&& out[1] is Finish
        }),
{
    let out = v.handling(Event::StartupComplete, focus).effects;
    lemma_can_be_ordered(v.apps.dom());
    let pids = in_order(v.apps.dom());
    assert(out[0] == told(LayoutEventView::AppsRunningUpdated(pids)));
    assert forall|pid: Pid| pids.contains(pid) == #[trigger] v.apps.dom().contains(pid) by {
        assert(pids.to_set().contains(pid) == pids.contains(pid));
    }
    assert forall|i: int, j: int| 0 <= i < j < pids.len() implies pids[i] < pids[j] by {
        assert(pids[i].rank() < pids[j].rank());
    }
}

// ---- Focus and commands ----

/// The space of the window with the focus: that of its best screen, if it is
/// known and that screen is managed.
pub open spec fn is_main_space(v: ReactorView, main: Option<WindowId>, space: SpaceId) -> bool {
    &&& main matches Some(wid)
    &&& v.windows.dom().contains(wid)
    &&& v.best_screen(v.windows[wid].frame_monotonic) matches Some(i)
    &&& v.screens[i].space == Some(space)
}

/// A command for the layout is for the space of the main window. If there is
/// none, it is for that of the active screen, and otherwise for no space.
pub proof fn command_is_for_the_space_with_the_focus(
    v: ReactorView,
    command: LayoutCommand,
    focus: Focus,
    space: SpaceId,
)
    ensures
        ({
            let out = v.handling(Event::Command(Command::Layout(command)), focus).effects;
            let main = exists|s: SpaceId| is_main_space(v, focus.main_window, s);
            &&& out.len() == 2 && out[1] is Finish
            &&& out[0] matches EffectView::LayoutCommand { space: target, visible_spaces, command: c } && {
                &&& c == command
                &&& visible_spaces == v.managed_spaces()
                &&& is_main_space(v, focus.main_window, space) ==> target == Some(space)
                &&& !main ==> (forall|i: int| #[trigger]
                    is_active(v, i) && v.screens[i].space == Some(space) ==> target == Some(space))
                &&& !main && (forall|i: int| #[trigger] is_active(v, i) ==> v.screens[i].space is None)
                    ==> target is None
            }
        }),
{
    let w = ReactorView { main_window: focus.main_window, ..v };
    match focus.main_window {
        Some(wid) => {
            lemma_same_best_screen(v, w, v.windows[wid].frame_monotonic);
            match w.main_space() {
                Some(s) => {
                    assert(is_main_space(v, focus.main_window, s));
                },
                None => {},
            }
        },
        None => {},
    }
    if v.active_idx() < v.screens.len() {
        assert(is_active(v, v.active_idx()));
    }
    assert(w.managed_spaces() == v.managed_spaces());
}

/// The other commands are handed on as they are.
pub proof fn other_commands_are_handed_on(
    v: ReactorView,
    metrics: MetricsCommand,
    name: String,
    launch: Option<String>,
    focus: Focus,
)
    ensures
        ({
            let others = |e: EffectView| !(e is Finish);
            &&& once(
                v.handling(Event::Command(Command::Metrics(metrics)), focus).effects,
                EffectView::Metrics(metrics),
                others,
            )
            &&& once(
                v.handling(Event::Command(Command::Reactor(ReactorCommand::Debug)), focus).effects,
                EffectView::DebugTrees(v.managed_spaces()),
                others,
            )
            &&& once(
                v.handling(Event::Command(Command::Reactor(ReactorCommand::Serialize)), focus).effects,
                EffectView::PrintLayout,
                others,
            )
            &&& once(
                v.handling(Event::Command(Command::Reactor(ReactorCommand::SaveAndExit)), focus).effects,
                EffectView::SaveAndExit,
                others,
            )
            &&& once(
                v.handling(
                    Event::Command(Command::Reactor(ReactorCommand::ToggleScratchpad { name, launch })),
                    focus,
                ).effects,
                EffectView::ToggleScratchpad {
                    name: name@,
                    launch: match launch {
                        Some(id) => Some(id@),
                        None => None,
                    },
                },
                others,
            )
        }),
{
    let a = v.handling(Event::Command(Command::Metrics(metrics)), focus).effects;
    assert(a.len() == 2 && a[0] is Metrics && a[1] is Finish);
    let b = v.handling(Event::Command(Command::Reactor(ReactorCommand::Debug)), focus).effects;
    assert(b.len() == 2 && b[0] is DebugTrees && b[1] is Finish);
    let w = ReactorView { main_window: focus.main_window, ..v };
    assert(w.managed_spaces() == v.managed_spaces());
    let c = v.handling(Event::Command(Command::Reactor(ReactorCommand::Serialize)), focus).effects;
    assert(c.len() == 2 && c[0] is PrintLayout && c[1] is Finish);
    let d = v.handling(Event::Command(Command::Reactor(ReactorCommand::SaveAndExit)), focus).effects;
    assert(d.len() == 2 && d[0] is SaveAndExit && d[1] is Finish);
    let e = v.handling(
        Event::Command(Command::Reactor(ReactorCommand::ToggleScratchpad { name, launch })),
        focus,
    ).effects;
    assert(e.len() == 2 && e[0] is ToggleScratchpad && e[1] is Finish);
}

/// The mouse over a known window on a managed screen is told to the layout as
/// the doing of the mouse: with the window, the space of its screen, and the
/// main window with its space. It is not told if the keyboard is known to be
/// with another app than that of a main window on a managed screen.
pub proof fn mouse_over_a_window_is_told(
    v: ReactorView,
    wsid: WindowServerId,
    key_focus_pid: Option<Pid>,
    focus: Focus,
    screen: int,
    space: SpaceId,
)
    requires
        v.window_ids.dom().contains(wsid),
        v.windows.dom().contains(v.window_ids[wsid]),
        v.best_screen(v.windows[v.window_ids[wsid]].frame_monotonic) == Some(screen),
        v.screens[screen].space == Some(space),
    ensures
        ({
            let out = v.handling(Event::MouseMovedOverWindow(wsid, key_focus_pid), focus).effects;
            let main = exists|s: SpaceId| is_main_space(v, focus.main_window, s);
            let elsewhere = main && key_focus_pid is Some && key_focus_pid != Some(focus.main_window->0.pid);
            &&& elsewhere ==> out.len() == 0
            &&& !elsewhere ==> {
                &&& out.len() == 2 && out[1] is Finish
                &&& out[0] matches EffectView::Layout {
                    event: LayoutEventView::MouseMovedOverWindow { over, current_main },
                    from_mouse,
                } && {
                    &&& from_mouse
                    &&& over == (space, v.window_ids[wsid])
                    &&& main ==> (current_main matches Some((s, m)) && is_main_space(v, focus.main_window, s)
                        && focus.main_window == Some(m))
                    &&& !main ==> current_main is None
                }
            }
        }),
{
    let w = ReactorView { main_window: focus.main_window, ..v };
    lemma_same_best_screen(v, w, v.windows[v.window_ids[wsid]].frame_monotonic);
    match focus.main_window {
        Some(wid) => {
            lemma_same_best_screen(v, w, v.windows[wid].frame_monotonic);
            match w.main_space() {
                Some(s) => {
                    assert(is_main_space(v, focus.main_window, s));
                },
                None => {},
            }
        },
        None => {},
    }
}

/// The mouse over an unknown window, or one on no managed screen, does nothing.
pub proof fn mouse_over_another_window_is_not_told(
    v: ReactorView,
    wsid: WindowServerId,
    key_focus_pid: Option<Pid>,
    focus: Focus,
)
    requires
        v.window_ids.dom().contains(wsid) && v.windows.dom().contains(v.window_ids[wsid]) ==> v.best_space(
            v.windows[v.window_ids[wsid]].frame_monotonic,
        ) is None,
    ensures
        v.handling(Event::MouseMovedOverWindow(wsid, key_focus_pid), focus).effects.len() == 0,
{
    let w = ReactorView { main_window: focus.main_window, ..v };
    lemma_same_best_screen(v, w, v.windows[v.window_ids[wsid]].frame_monotonic);
}

/// What came of raising windows is handed on as it is. If raising failed that
/// was to move the focus, the layout is told which window has it.
pub proof fn outcome_of_raising_is_handed_on(
    v: ReactorView,
    window_id: WindowId,
    sequence_id: u64,
    windows: Vec<WindowId>,
    quiet: Quiet,
    focus: Focus,
)
    ensures
        ({
            let others = |e: EffectView| !(e is Finish);
            let failed = v.handling(Event::RaiseRequestFailed { windows, sequence_id, quiet }, focus).effects;
            &&& once(
                v.handling(Event::RaiseCompleted { window_id, sequence_id }, focus).effects,
                EffectView::Raise(RaiseEventView::RaiseCompleted { window_id, sequence_id }),
                others,
            )
            &&& once(
                v.handling(Event::RaiseTimeout { sequence_id }, focus).effects,
                EffectView::Raise(RaiseEventView::RaiseTimeout { sequence_id }),
                others,
            )
            &&& once(
                failed,
                EffectView::Raise(RaiseEventView::RaiseRequestFailed { windows: windows@, sequence_id }),
                |e: EffectView| e is Raise,
            )
            &&& quiet == Quiet::No ==> (focus.main_window matches Some(wid) ==> once(
                failed,
                told(LayoutEventView::WindowFocused(v.managed_spaces(), wid)),
                |e: EffectView| e is Layout,
            ))
            &&& quiet == Quiet::Yes || focus.main_window is None ==> never(failed, |e: EffectView| e is Layout)
        }),
{
    let a = v.handling(Event::RaiseCompleted { window_id, sequence_id }, focus).effects;
    assert(a.len() == 2 && a[0] is Raise && a[1] is Finish);
    let b = v.handling(Event::RaiseTimeout { sequence_id }, focus).effects;
    assert(b.len() == 2 && b[0] is Raise && b[1] is Finish);
    let c = v.handling(Event::RaiseRequestFailed { windows, sequence_id, quiet }, focus).effects;
    assert(c[0] == EffectView::Raise(RaiseEventView::RaiseRequestFailed { windows: windows@, sequence_id }));
    let w = ReactorView { main_window: focus.main_window, ..v };
    assert(w.managed_spaces() == v.managed_spaces());
    if quiet == Quiet::No && focus.main_window is Some {
        assert(c[1] == told(LayoutEventView::WindowFocused(v.managed_spaces(), focus.main_window->0)));
    }
}

/// New settings are the ones that count, and the layout is handed them.
pub proof fn new_settings_count(v: ReactorView, settings: Settings, focus: Focus)
    ensures
        ({
            let r = v.handling(Event::ConfigChanged(settings), focus);
            &&& r.state.settings == settings
            &&& r.effects.len() == 2 && r.effects[0] is ConfigureLayout && r.effects[1] is Finish
        }),
{
}

/// A show that is no longer expected is cancelled, and no other.
pub proof fn expired_show_is_cancelled(v: ReactorView, id: PendingShowId, focus: Focus)
    ensures
        once(
            v.handling(Event::ScratchpadShowExpired(id), focus).effects,
            EffectView::CancelScratchpadShow(id),
            |e: EffectView| !(e is Finish),
        ),
{
    let out = v.handling(Event::ScratchpadShowExpired(id), focus).effects;
    assert(out.len() == 2 && out[0] is CancelScratchpadShow && out[1] is Finish);
}

/// A report of the windows on screen lets moved scratchpads be placed.
pub proof fn report_places_moved_scratchpads(
    v: ReactorView,
    pid: Option<Pid>,
    on_screen: WindowsOnScreen,
    focus: Focus,
)
    ensures
        once(
            v.handling(Event::WindowsOnScreenUpdated { pid, on_screen }, focus).effects,
            EffectView::PlaceMovedScratchpads,
            |e: EffectView| !(e is Finish),
        ),
{
    let out = v.handling(Event::WindowsOnScreenUpdated { pid, on_screen }, focus).effects;
    assert(out.len() == 2 && out[0] is PlaceMovedScratchpads && out[1] is Finish);
}

/// Events that only tell of the focus do nothing but finish.
pub proof fn focus_events_only_finish(v: ReactorView, event: Event, focus: Focus)
    requires
        ({
            ||| event is ApplicationActivated
            ||| event is ApplicationDeactivated
            ||| event is ApplicationGloballyActivated
            ||| event is ApplicationGloballyDeactivated
            ||| event is ApplicationMainWindowChanged
            ||| event is ApplicationHiddenChanged
            ||| event is ScreenSpacesChanged
        }),
    ensures
        v.handling(event, focus).effects == seq![
            EffectView::Finish { raised_window: focus.raised_window, new_wids: Seq::empty(), is_resize: false },
        ],
{
}

// ---- Every event ----

/// Every event leads to something, but for those that may not count: of a
/// frame, a change of space, and of the mouse over a window or its wheel.
#[verifier::spinoff_prover]
#[verifier::rlimit(40)]
pub proof fn events_lead_to_something(v: ReactorView, event: Event, focus: Focus)
    requires
        !(event is WindowFrameChanged || event is SpaceChanged || event is MouseMovedOverWindow
            || event is ScrollWheel),
    ensures
        v.handling(event, focus).effects.len() > 0,
{
}

/// An event that leads to something is finished last, with the window that it
/// raised. Only a window that became visible counts as new then, and only after
/// a changed frame is the layout not animated.
#[verifier::spinoff_prover]
#[verifier::rlimit(60)]
pub proof fn events_are_finished_last(v: ReactorView, event: Event, focus: Focus)
    requires
        v.handling(event, focus).effects.len() > 0,
    ensures
        v.handling(event, focus).effects.last() matches EffectView::Finish { raised_window, new_wids, is_resize } && {
            &&& raised_window == focus.raised_window
            &&& !(event is WindowBecameVisible) ==> new_wids.len() == 0
            &&& !(event is WindowFrameChanged) ==> !is_resize
        },
{
    let out = v.handling(event, focus).effects;
    if event is WindowFrameChanged || event is SpaceChanged || event is MouseMovedOverWindow || event is ScrollWheel {
        assert(out.last() is Finish);
    } else {
        assert(out.last() is Finish);
    }
}

/// The main window is the one that the event was handled with. No event changes
/// the active screen, the frames that wait for the next layout, or what was
/// measured.
#[verifier::spinoff_prover]
#[verifier::rlimit(40)]
pub proof fn events_take_in_the_focus(v: ReactorView, event: Event, focus: Focus)
    ensures
        ({
            let after = v.handling(event, focus).state;
            &&& after.main_window == focus.main_window
            &&& after.active_screen_idx == v.active_screen_idx
            &&& after.pending_frame_overrides == v.pending_frame_overrides
            &&& after.measured == v.measured
        }),
{
}

/// The settings, the spaces and the screens change only by the events that are
/// about them.
#[verifier::spinoff_prover]
pub proof fn other_events_keep_the_screens(v: ReactorView, event: Event, focus: Focus)
    ensures
        ({
            let after = v.handling(event, focus).state;
            &&& !(event is ConfigChanged) ==> after.settings == v.settings
            &&& event matches Event::ScreenSpacesChanged(spaces) ==> after.screen_spaces == spaces@
            &&& !(event is ScreenSpacesChanged) ==> after.screen_spaces == v.screen_spaces
            &&& !(event is ScreenParametersChanged || event is SpaceChanged) ==> after.screens == v.screens
        }),
{
}

/// The apps and the ids of the windows change only by the events that are about
/// them.
#[verifier::spinoff_prover]
pub proof fn other_events_keep_the_apps(v: ReactorView, event: Event, focus: Focus)
    ensures
        ({
            let after = v.handling(event, focus).state;
            &&& !(event is ApplicationLaunched || event is ApplicationThreadTerminated
                || event is ApplicationHiddenChanged) ==> after.apps == v.apps
            &&& !(event is ApplicationLaunched || event is WindowsDiscovered || event is WindowCreated)
                ==> after.window_ids == v.window_ids
        }),
{
}

/// What the window server reports changes only with a report.
#[verifier::spinoff_prover]
pub proof fn other_events_keep_the_reports(v: ReactorView, event: Event, focus: Focus)
    requires
        !(event is WindowsOnScreenUpdated || event is ScreenParametersChanged || event is SpaceChanged),
    ensures
        v.handling(event, focus).state.visible_windows == v.visible_windows,
        v.handling(event, focus).state.window_server_info == v.window_server_info,
{
}

/// What the mouse does changes only by the events that are about it.
#[verifier::spinoff_prover]
pub proof fn other_events_keep_the_drag(v: ReactorView, event: Event, focus: Focus)
    requires
        !(event is WindowDestroyed || event is WindowFrameChanged || event is MouseUp || event is SpaceChanged),
    ensures
        v.handling(event, focus).state.resizing_window == v.resizing_window,
        !(event is WindowCreated) ==> v.handling(event, focus).state.in_drag == v.in_drag,
{
}

/// Attempts to write frames are forgotten only with their window, and moves of
/// scratchpads end only by the events that are about them.
#[verifier::spinoff_prover]
pub proof fn other_events_keep_the_moves(v: ReactorView, event: Event, focus: Focus)
    requires
        !(event is WindowDestroyed),
    ensures
        v.handling(event, focus).state.frame_attempts == v.frame_attempts,
        !(event is ApplicationThreadTerminated || event is ApplicationHiddenChanged || event is ScratchpadMoveEnded)
            ==> v.handling(event, focus).state.pending_space_moves == v.pending_space_moves,
{
}

/// The windows change only when one is found, created or destroyed, or when
/// frames are reported.
pub proof fn other_events_keep_the_windows(v: ReactorView, event: Event, focus: Focus)
    requires
        !(event is ApplicationLaunched || event is WindowsDiscovered || event is WindowCreated
            || event is WindowDestroyed || event is WindowFrameChanged || event is ScreenParametersChanged
            || event is SpaceChanged),
        event matches Event::WindowsOnScreenUpdated { pid, .. } ==> pid is Some,
    ensures
        v.handling(event, focus).state.windows == v.windows,
{
}

/// Finishing an event tells the layout of a raised window, and lets its screen
/// become the active one. Unless something is dragged, the layout is updated
/// last: with the new windows, and not animated after a resize.
pub proof fn finish_updates_the_layout_last(
    v: ReactorView,
    raised_window: Option<WindowId>,
    new_wids: Seq<WindowId>,
    is_resize: bool,
)
    ensures
        ({
            let out = v.finishing(raised_window, new_wids, is_resize);
            let raised: int = if raised_window is Some {
                2
            } else {
                0
            };
            &&& out.len() == raised + (if v.in_drag {
                0int
            } else {
                1
            })
            &&& raised_window matches Some(wid) ==> {
                &&& out[0] == told(LayoutEventView::WindowFocused(v.managed_spaces(), wid))
                &&& out[1] is UpdateActiveScreen
            }
            &&& !v.in_drag ==> out.last() == (EffectView::UpdateLayout { new_wids, skip_anim: is_resize })
        }),
{
}

} // verus!
