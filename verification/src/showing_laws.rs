//! Laws about showing, moving and hiding scratchpad windows.
use vstd::prelude::*;

use crate::effects::EffectView;
use crate::event_laws::{is_active, never, once};
use crate::events::{Event, SpaceMoveId};
use crate::geometry::Rect;
use crate::ids::{WindowId, WindowServerId};
use crate::ordered::{in_order, lemma_can_be_ordered};
use crate::reactor_laws::moves_are_numbered;
use crate::reactor_model::{Focus, ReactorView};
use crate::request::{Request, Sent};
use crate::scratchpad::{FractionalRect, PendingShowId, ScratchpadAction};
use crate::sequences::lemma_filter_from;
use crate::space::SpaceId;

verus! {

/// The application is known to be hidden.
pub open spec fn is_hidden(v: ReactorView, wid: WindowId) -> bool {
    v.apps.dom().contains(wid.pid) && v.apps[wid.pid].info.is_hidden
}

/// The window is known to have an id of the window server that is not reported
/// on screen.
pub open spec fn is_off_screen(v: ReactorView, wid: WindowId) -> bool {
    &&& v.windows.dom().contains(wid)
    &&& v.windows[wid].window_server_id matches Some(wsid)
    &&& !v.visible_windows.contains(wsid)
}

/// The space that the active screen shows, also if it is not managed.
pub open spec fn shows(v: ReactorView, space: SpaceId, fullscreen: bool) -> bool {
    let i = match v.active_screen_idx {
        Some(i) => i as int,
        None => 0,
    };
    &&& 0 <= i < v.screen_spaces.len()
    &&& v.screen_spaces[i] matches Some(shown)
    &&& shown.id == space
    &&& shown.fullscreen == fullscreen
}

/// The window may be on another space, and can be moved to this one: the window
/// server knows it, it is off screen or its app is hidden, and the active screen
/// shows the space, which is no fullscreen one.
pub open spec fn can_be_moved(v: ReactorView, wid: WindowId, wsid: WindowServerId, space: SpaceId) -> bool {
    &&& v.windows.dom().contains(wid)
    &&& v.windows[wid].window_server_id == Some(wsid)
    &&& !v.visible_windows.contains(wsid) || is_hidden(v, wid)
    &&& shows(v, space, false)
}

/// The frame of the active screen, if there is one.
pub open spec fn is_active_frame(v: ReactorView, frame: Option<Rect>) -> bool {
    &&& forall|i: int| #[trigger] is_active(v, i) ==> frame == Some(v.screens[i].frame)
    &&& (forall|i: int| !#[trigger] is_active(v, i)) ==> frame is None
}

proof fn lemma_active_frame(v: ReactorView)
    ensures
        is_active_frame(v, v.active_frame()),
{
    if v.active_idx() < v.screens.len() {
        assert(is_active(v, v.active_idx()));
    }
}

/// A request to hide or show an app.
pub open spec fn sets_hidden(e: EffectView) -> bool {
    e matches EffectView::Request(sent) && sent.request is SetHidden
}

/// A request to unminimize a window.
pub open spec fn unminimizes(e: EffectView) -> bool {
    e matches EffectView::Request(sent) && sent.request is Unminimize
}

/// Showing a scratchpad window first unhides its app, if that is hidden, and
/// unminimizes the window, if it is off screen: through the handle of its app,
/// and not otherwise.
pub proof fn shown_window_is_brought_out(v: ReactorView, wid: WindowId, frame: FractionalRect)
    ensures
        ({
            let out = v.showing(wid, frame).effects;
            let handle = v.apps[wid.pid].handle;
            &&& is_hidden(v, wid) ==> once(
                out,
                EffectView::Request(Sent { handle, request: Request::SetHidden(false) }),
                |e: EffectView| sets_hidden(e),
            )
            &&& !is_hidden(v, wid) ==> never(out, |e: EffectView| sets_hidden(e))
            &&& is_off_screen(v, wid) && v.apps.dom().contains(wid.pid) ==> once(
                out,
                EffectView::Request(Sent { handle, request: Request::Unminimize(wid) }),
                |e: EffectView| unminimizes(e),
            )
            &&& !is_off_screen(v, wid) || !v.apps.dom().contains(wid.pid) ==> never(
                out,
                |e: EffectView| unminimizes(e),
            )
        }),
{
    let out = v.showing(wid, frame).effects;
    if is_hidden(v, wid) {
        assert(sets_hidden(out[0]));
        if is_off_screen(v, wid) {
            assert(unminimizes(out[1]));
            assert(out.len() == 3);
        } else {
            assert(out.len() == 2);
        }
    } else if is_off_screen(v, wid) && v.apps.dom().contains(wid.pid) {
        assert(unminimizes(out[0]));
        assert(out.len() == 2);
    } else {
        assert(out.len() == 1);
    }
}

/// A scratchpad window that may be on another space is moved to the one that
/// the active screen shows, last of all, under a number of its own. Any other
/// is placed on the active screen right away. Either way an earlier move of it
/// is forgotten, and nothing else changes.
pub proof fn shown_window_is_moved_or_placed(
    v: ReactorView,
    wid: WindowId,
    frame: FractionalRect,
    wsid: WindowServerId,
    space: SpaceId,
)
    requires
        v.next_space_move_id < u64::MAX,
    ensures
        ({
            let r = v.showing(wid, frame);
            let last = r.effects.last();
            let others = |e: EffectView| !(e is Request);
            let moved = exists|s: WindowServerId, t: SpaceId| can_be_moved(v, wid, s, t);
            &&& r.effects.len() > 0
            &&& once(r.effects, last, others)
            &&& can_be_moved(v, wid, wsid, space) ==> last == (EffectView::MoveWindow {
                wid,
                wsid,
                space,
                id: SpaceMoveId(v.next_space_move_id),
                frame,
            })
            &&& !moved ==> (last matches EffectView::PlaceScratchpad { wid: w, frame: f, screen } && w == wid && f
                == frame && is_active_frame(v, screen))
            &&& r.state == (ReactorView {
                pending_space_moves: v.pending_space_moves.remove(wid),
                next_space_move_id: if moved {
                    (v.next_space_move_id + 1) as u64
                } else {
                    v.next_space_move_id
                },
                ..v
            })
        }),
{
    let r = v.showing(wid, frame);
    lemma_active_frame(v);
    assert(r.effects[r.effects.len() - 1] == r.effects.last());
    match v.move_target(wid) {
        Some((s, t)) => {
            assert(can_be_moved(v, wid, s, t));
        },
        None => {},
    }
}

/// Toggling a scratchpad launches its app, if there is one to launch and a show
/// to wait for; shows its window at its frame, or at the usual one; or hides
/// the app of its window.
pub proof fn toggling_launches_shows_or_hides(
    v: ReactorView,
    name: Seq<char>,
    launch: Option<Seq<char>>,
    pending: Option<PendingShowId>,
    frame: Option<FractionalRect>,
    wid: WindowId,
)
    ensures
        ({
            let launched = v.toggled(ScratchpadAction::Launch, name, launch, pending, frame);
            let shown = v.toggled(ScratchpadAction::Show(wid), name, launch, pending, frame);
            let hidden = v.toggled(ScratchpadAction::Hide(wid), name, launch, pending, frame);
            &&& launched.state == v
            &&& launch is None || pending is None ==> launched.effects.len() == 0
            &&& launch is Some && pending is Some ==> launched.effects == seq![
                EffectView::LaunchApp { name, bundle_id: launch->0, id: pending->0 },
            ]
            &&& frame matches Some(frame) ==> shown == v.showing(wid, frame)
            &&& frame is None ==> {
                let usual = FractionalRect {
                    x: crate::number::Number { bits: 0x3FB9_9999_9999_999A },
                    y: crate::number::Number { bits: 0x3FB9_9999_9999_999A },
                    width: crate::number::Number { bits: 0x3FE9_9999_9999_999A },
                    height: crate::number::Number { bits: 0x3FE9_9999_9999_999A },
                };
                shown == v.showing(wid, usual)
            }
            &&& hidden.state == v
            &&& v.apps.dom().contains(wid.pid) ==> hidden.effects == seq![
                EffectView::Request(
                    Sent { handle: v.apps[wid.pid].handle, request: Request::SetHidden(true) },
                ),
            ]
            &&& !v.apps.dom().contains(wid.pid) ==> hidden.effects.len() == 0
        }),
{
}

/// A scratchpad window counts as focused if it is the main window, and as on
/// the active space if it is known, not reported off screen, and the active
/// screen is its best one. Its app is hidden if that is known.
pub proof fn scratchpad_is_seen_as_it_is(v: ReactorView, wid: WindowId)
    ensures
        ({
            let state = v.scratchpad_state(wid);
            let best = v.best_screen(v.windows[wid].frame_monotonic);
            let active = match v.active_screen_idx {
                Some(i) => i as int,
                None => 0,
            };
            &&& state.app_hidden <==> is_hidden(v, wid)
            &&& state.focused <==> v.main_window == Some(wid)
            &&& state.on_active_space <==> v.windows.dom().contains(wid) && !is_off_screen(v, wid) && best == Some(
                active,
            )
        }),
{
}

/// A move that ended has its window placed on the active screen, at the frame
/// that it was to be shown at, and is forgotten. The other moves go on, and an
/// unknown move does nothing.
pub proof fn ended_move_places_its_window(v: ReactorView, id: SpaceMoveId, focus: Focus, wid: WindowId)
    requires
        moves_are_numbered(v),
        v.pending_space_moves.dom().finite(),
    ensures
        ({
            let r = v.handling(Event::ScratchpadMoveEnded(id), focus);
            let known = exists|w: WindowId| #[trigger]
                v.pending_space_moves.dom().contains(w) && v.pending_space_moves[w].id == id;
            let others = |e: EffectView| !(e is Finish);
            &&& v.pending_space_moves.dom().contains(wid) && v.pending_space_moves[wid].id == id ==> {
                &&& r.state.pending_space_moves == v.pending_space_moves.remove(wid)
                &&& r.effects.len() == 2
                &&& r.effects[0] matches EffectView::PlaceScratchpad { wid: w, frame, screen } && w == wid && frame
                    == v.pending_space_moves[wid].frame && is_active_frame(v, screen)
                &&& r.effects[1] is Finish
            }
            &&& !known ==> r.state.pending_space_moves == v.pending_space_moves && never(r.effects, others)
        }),
{
    let w = ReactorView { main_window: focus.main_window, ..v };
    lemma_active_frame(v);
    assert(w.active_frame() == v.active_frame());
    if v.pending_space_moves.dom().contains(wid) && v.pending_space_moves[wid].id == id {
        assert(w.moves_as(wid, id));
        let all = in_order(v.pending_space_moves.dom());
        lemma_can_be_ordered(v.pending_space_moves.dom());
        let p = |u: WindowId| w.pending_space_moves[u].id == id;
        let found = all.filter(p);
        assert(all.to_set().contains(wid));
        let i = choose|i: int| 0 <= i < all.len() && all[i] == wid;
        all.lemma_filter_contains(p, i);
        assert(found.len() > 0);
        assert(found.contains(found[0]));
        lemma_filter_from(all, p, found[0]);
        assert(all.to_set().contains(found[0]));
        assert(w.moving_as(id) == found[0]);
        assert(found[0] == wid);
    } else if exists|u: WindowId| w.moves_as(u, id) {
        let u = choose|u: WindowId| w.moves_as(u, id);
        assert(v.pending_space_moves.dom().contains(u) && v.pending_space_moves[u].id == id);
    }
}

/// A moved window that has arrived is placed on the active screen at the frame
/// that it was to be shown at, and its move is forgotten. Nothing else changes.
pub proof fn arrived_window_is_placed_at_its_frame(v: ReactorView, wid: WindowId)
    ensures
        ({
            let r = v.placing_one(wid);
            &&& r.effects.len() == 1
            &&& r.effects[0] matches EffectView::PlaceScratchpad { wid: w, frame, screen } && w == wid && frame
                == v.pending_space_moves[wid].frame && is_active_frame(v, screen)
            &&& r.state == (ReactorView { pending_space_moves: v.pending_space_moves.remove(wid), ..v })
        }),
{
    lemma_active_frame(v);
}

/// The windows that have arrived are placed one after the other, each once and
/// in the order of the windows: those that are being moved and are not off
/// screen, and no others.
pub proof fn arrived_windows_are_placed_in_order(v: ReactorView, wid: WindowId)
    requires
        v.pending_space_moves.dom().finite(),
    ensures
        ({
            let out = v.placing_moved();
            &&& out.contains(EffectView::PlaceMovedScratchpad(wid)) <==> v.pending_space_moves.dom().contains(wid)
                && !is_off_screen(v, wid)
            &&& forall|i: int| 0 <= i < out.len() ==> #[trigger] out[i] is PlaceMovedScratchpad
        }),
{
    let all = in_order(v.pending_space_moves.dom());
    lemma_can_be_ordered(v.pending_space_moves.dom());
    let p = |w: WindowId| v.window_visible(w);
    let wids = v.arrived();
    let out = v.placing_moved();
    assert(wids == all.filter(p));
    assert(all.to_set().contains(wid) == all.contains(wid));
    if out.contains(EffectView::PlaceMovedScratchpad(wid)) {
        let i = choose|i: int| 0 <= i < out.len() && out[i] == EffectView::PlaceMovedScratchpad(wid);
        assert(wids[i] == wid);
        assert(wids.contains(wid));
        lemma_filter_from(all, p, wid);
    }
    if v.pending_space_moves.dom().contains(wid) && !is_off_screen(v, wid) {
        let i = choose|i: int| 0 <= i < all.len() && all[i] == wid;
        all.lemma_filter_contains(p, i);
        let k = choose|k: int| 0 <= k < wids.len() && wids[k] == wid;
        assert(out[k] == EffectView::PlaceMovedScratchpad(wid));
    }
}

} // verus!
