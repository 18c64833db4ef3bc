//! Showing, moving and placing scratchpad windows.
use vstd::prelude::*;

use crate::effects::{views, Effect, EffectView, EventResponse};
use crate::events::SpaceMoveId;
use crate::geometry::Rect;
use crate::ids::{Pid, WindowId, WindowServerId};
use crate::ordered::in_order;
use crate::reactor_model::{PendingSpaceMove, ReactorView};
use crate::request::{Request, Sent};
use crate::scratchpad::{FractionalRect, PendingShowId, ScratchpadAction, ScratchpadWindowState};
use crate::sequences::{lemma_filter_step, lemma_take_all};
use crate::space::SpaceId;
use super::Reactor;

verus! {

impl Reactor {
    /// What is known of a scratchpad window.
    pub fn scratchpad_window_state(&self, wid: WindowId) -> (state: ScratchpadWindowState)
        requires
            self.wf(),
        ensures
            state == self@.scratchpad_state(wid),
    {
        let active: usize = match self.active_screen_idx {
            Some(i) => i as usize,
            None => 0,
        };
        let on_active_screen = match self.windows.get(wid) {
            Some(window) => match self.best_screen_idx_for_window(&window.frame_monotonic) {
                Some(idx) => idx == active,
                None => false,
            },
            None => false,
        };
        let focused = match self.main_window {
            Some(main) => main == wid,
            None => false,
        };
        ScratchpadWindowState {
            app_hidden: self.is_app_hidden(wid.pid),
            focused,
            on_active_space: self.window_is_visible(wid) && on_active_screen,
        }
    }

    /// The window server id of the window and the space to move it to, if it
    /// may be on another space.
    pub(super) fn space_move_target(&self, wid: WindowId) -> (target: Option<(WindowServerId, SpaceId)>)
        requires
            self.wf(),
        ensures
            target == self@.move_target(wid),
    {
        let wsid = match self.windows.get(wid) {
            Some(window) => match window.window_server_id {
                Some(wsid) => wsid,
                None => {
                    return None;
                },
            },
            None => {
                return None;
            },
        };
        if self.visible_windows.contains(wsid) && !self.is_app_hidden(wid.pid) {
            return None;
        }
        let screen: usize = match self.active_screen_idx {
            Some(i) => i as usize,
            None => 0,
        };
        if screen >= self.screen_spaces.len() {
            return None;
        }
        match self.screen_spaces[screen] {
            Some(space) => if space.fullscreen {
                None
            } else {
                Some((wsid, space.id))
            },
            None => None,
        }
    }

    /// A request to the app, if it is known.
    pub(super) fn request_to(&self, pid: Pid, request: Request) -> (effects: Vec<Effect>)
        requires
            self.wf(),
        ensures
            views(effects@) == self@.request_to(pid, request),
    {
        let mut effects: Vec<Effect> = Vec::new();
        match self.apps.get(pid) {
            Some(app) => {
                effects.push(Effect::Request(Sent { handle: app.handle, request }));
            },
            None => {},
        }
        proof {
            assert(views(effects@) =~= self@.request_to(pid, request));
        }
        effects
    }

    pub(super) fn set_app_hidden(&self, pid: Pid, hidden: bool) -> (effects: Vec<Effect>)
        requires
            self.wf(),
        ensures
            views(effects@) == self@.request_to(pid, Request::SetHidden(hidden)),
    {
        self.request_to(pid, Request::SetHidden(hidden))
    }

    /// The number that the next move of a scratchpad window gets.
    pub fn next_space_move_id(&self) -> (id: u64)
        ensures
            id == self@.next_space_move_id,
    {
        self.next_space_move_id
    }

    /// The scratchpad windows that are being moved, with their moves.
    pub fn pending_space_moves(&self) -> (moves: Vec<(WindowId, SpaceMoveId)>)
        requires
            self.wf(),
        ensures
            moves@ == in_order(self@.pending_space_moves.dom()).map_values(
                |w: WindowId| (w, self@.pending_space_moves[w].id),
            ),
    {
        let wids = self.pending_space_moves.keys();
        let ghost f = |w: WindowId| (w, self@.pending_space_moves[w].id);
        proof {
            self.pending_space_moves.lemma_keys();
        }
        let mut moves: Vec<(WindowId, SpaceMoveId)> = Vec::new();
        let mut i: usize = 0;
        while i < wids.len()
            invariant
                self.wf(),
                i <= wids.len(),
                f == (|w: WindowId| (w, self@.pending_space_moves[w].id)),
                wids@.to_set() == self@.pending_space_moves.dom(),
                moves@ == wids@.take(i as int).map_values(f),
            decreases wids.len() - i,
        {
            let wid = wids[i];
            proof {
                assert(wids@.to_set().contains(wids@[i as int]));
                assert(wids@.take(i + 1).map_values(f) =~= wids@.take(i as int).map_values(f).push(f(wid)));
            }
            match self.pending_space_moves.get(wid) {
                Some(moved) => {
                    moves.push((wid, moved.id));
                },
                None => {},
            }
            i += 1;
        }
        proof {
            assert(wids@.take(i as int) =~= wids@);
        }
        moves
    }

    /// Unhides the app if needed, places the window on the active screen and
    /// focuses it. Does not wait for the app to report that it is shown.
    pub fn show_scratchpad(&mut self, wid: WindowId, frame: FractionalRect) -> (effects: Vec<Effect>)
        requires
            old(self).wf(),
            old(self)@.move_target(wid) is Some ==> old(self)@.next_space_move_id < u64::MAX,
        ensures
            final(self).wf(),
            final(self)@ == old(self)@.showing(wid, frame).state,
            views(effects@) == old(self)@.showing(wid, frame).effects,
    {
        let ghost v = self@;
        let mut effects = if self.is_app_hidden(wid.pid) {
            self.set_app_hidden(wid.pid, false)
        } else {
            Vec::new()
        };
        if !self.window_is_visible(wid) {
            let mut unminimize = self.request_to(wid.pid, Request::Unminimize(wid));
            effects.append(&mut unminimize);
        }
        let target = self.space_move_target(wid);
        self.pending_space_moves.remove(wid);
        match target {
            Some((wsid, space)) => {
                let id = SpaceMoveId(self.next_space_move_id);
                self.next_space_move_id += 1;
                effects.push(Effect::MoveWindow { wid, wsid, space, id, frame });
            },
            None => {
                effects.push(Effect::PlaceScratchpad { wid, frame, screen: self.active_frame() });
            },
        }
        proof {
            assert(views(effects@) =~= v.showing(wid, frame).effects);
        }
        effects
    }

    /// The move of a scratchpad window has been started. The window is placed
    /// once it is on screen or its move ends.
    pub fn move_started(&mut self, wid: WindowId, id: SpaceMoveId, frame: FractionalRect)
        requires
            old(self).wf(),
        ensures
            final(self).wf(),
            final(self)@ == (ReactorView {
                pending_space_moves: old(self)@.pending_space_moves.insert(wid, PendingSpaceMove { id, frame }),
                ..old(self)@
            }),
    {
        self.pending_space_moves.insert(wid, PendingSpaceMove { id, frame });
    }

    /// The move of a scratchpad window could not be started. The window is
    /// placed where it is, and the outcome is recorded, so that a replay, which
    /// does not try the move, makes the same decision.
    pub fn move_failed(&self, wid: WindowId, id: SpaceMoveId, frame: FractionalRect) -> (effects: Vec<Effect>)
        ensures
            views(effects@) == seq![EffectView::RecordMoveEnded(id), self@.place(wid, frame)],
    {
        let mut effects: Vec<Effect> = Vec::new();
        effects.push(Effect::RecordMoveEnded(id));
        effects.push(Effect::PlaceScratchpad { wid, frame, screen: self.active_frame() });
        proof {
            assert(views(effects@) =~= seq![EffectView::RecordMoveEnded(id), self@.place(wid, frame)]);
        }
        effects
    }

    /// The app of a scratchpad could not be launched. The outcome is recorded,
    /// so that a replay, which does not launch, makes the same decision.
    pub fn launch_failed(&self, id: PendingShowId) -> (effects: Vec<Effect>)
        ensures
            views(effects@) == seq![EffectView::RecordShowExpired(id), EffectView::CancelScratchpadShow(id)],
    {
        let mut effects: Vec<Effect> = Vec::new();
        effects.push(Effect::RecordShowExpired(id));
        effects.push(Effect::CancelScratchpadShow(id));
        proof {
            assert(views(effects@) =~= seq![
                EffectView::RecordShowExpired(id),
                EffectView::CancelScratchpadShow(id),
            ]);
        }
        effects
    }

    /// Places the window at the frame and focuses it. Without a frame, there is
    /// no screen to place it on.
    pub fn place_scratchpad(wid: WindowId, frame: Option<Rect>) -> (response: EventResponse)
        ensures
            response.frame_overrides@ == (match frame {
                Some(frame) => seq![(wid, frame)],
                None => Seq::empty(),
            }),
            response.raise_windows@ == Seq::<WindowId>::empty(),
            response.focus_window == Some(wid),
    {
        let mut frame_overrides: Vec<(WindowId, Rect)> = Vec::new();
        match frame {
            Some(frame) => {
                frame_overrides.push((wid, frame));
            },
            None => {},
        }
        proof {
            assert(frame_overrides@ =~= (match frame {
                Some(frame) => seq![(wid, frame)],
                None => Seq::empty(),
            }));
        }
        EventResponse { frame_overrides, raise_windows: Vec::new(), focus_window: Some(wid) }
    }

    /// Places and focuses the moved scratchpad windows that are on screen now.
    ///
    /// Each is placed when its turn comes: placing one may show another, and
    /// start a move of it anew.
    pub fn place_moved_scratchpads(&self) -> (effects: Vec<Effect>)
        requires
            self.wf(),
        ensures
            views(effects@) == self@.placing_moved(),
    {
        let ghost v = self@;
        let ghost p = |w: WindowId| v.window_visible(w);
        let ghost placed = |w: WindowId| EffectView::PlaceMovedScratchpad(w);
        let wids = self.pending_space_moves.keys();
        let mut effects: Vec<Effect> = Vec::new();
        let mut i: usize = 0;
        proof {
            assert(wids@.take(0).filter(p) =~= Seq::empty()) by {
                reveal(Seq::filter);
            }
            assert(views(effects@) =~= wids@.take(0).filter(p).map_values(placed));
        }
        while i < wids.len()
            invariant
                self.wf(),
                v == self@,
                i <= wids.len(),
                p == (|w: WindowId| v.window_visible(w)),
                placed == (|w: WindowId| EffectView::PlaceMovedScratchpad(w)),
                views(effects@) == wids@.take(i as int).filter(p).map_values(placed),
            decreases wids.len() - i,
        {
            let wid = wids[i];
            proof {
                lemma_filter_step(wids@, p, i as int);
            }
            if self.window_is_visible(wid) {
                let ghost shown = views(effects@);
                let ghost arrived = wids@.take(i as int).filter(p);
                effects.push(Effect::PlaceMovedScratchpad(wid));
                proof {
                    assert(views(effects@) =~= shown.push(placed(wid)));
                    assert(arrived.push(wid).map_values(placed) =~= arrived.map_values(placed).push(placed(wid)));
                }
            }
            i += 1;
        }
        proof {
            lemma_take_all(wids@);
        }
        effects
    }

    /// Places and focuses a moved scratchpad window, at the frame that its
    /// pending move has.
    pub fn place_moved_scratchpad(&mut self, wid: WindowId) -> (effects: Vec<Effect>)
        requires
            old(self).wf(),
            old(self)@.pending_space_moves.dom().contains(wid),
        ensures
            final(self).wf(),
            final(self)@ == old(self)@.placing_one(wid).state,
            views(effects@) == old(self)@.placing_one(wid).effects,
    {
        let ghost v = self@;
        let screen = self.active_frame();
        let mut effects: Vec<Effect> = Vec::new();
        match self.pending_space_moves.remove(wid) {
            Some(moved) => {
                effects.push(Effect::PlaceScratchpad { wid, frame: moved.frame, screen });
            },
            None => {},
        }
        proof {
            assert(views(effects@) =~= v.placing_one(wid).effects);
        }
        effects
    }

    /// Whether the window is being moved to the current space.
    pub fn is_moving(&self, wid: WindowId) -> (b: bool)
        requires
            self.wf(),
        ensures
            b == self@.pending_space_moves.dom().contains(wid),
    {
        self.pending_space_moves.contains(wid)
    }

    /// A move was not confirmed in time. Its window is shown without waiting
    /// for it any longer.
    pub(super) fn on_move_ended(&mut self, id: SpaceMoveId) -> (effects: Vec<Effect>)
        requires
            old(self).wf(),
        ensures
            final(self).wf(),
            final(self)@ == old(self)@.move_ended(id).state,
            views(effects@) == old(self)@.move_ended(id).effects,
    {
        let ghost v = self@;
        let ghost p = |w: WindowId| v.pending_space_moves[w].id == id;
        let wids = self.pending_space_moves.keys();
        let mut effects: Vec<Effect> = Vec::new();
        let mut i: usize = 0;
        proof {
            assert(wids@.take(0).filter(p) =~= Seq::empty()) by {
                reveal(Seq::filter);
            }
        }
        while i < wids.len()
            invariant
                self.wf(),
                v == self@,
                v == old(self)@,
                effects@.len() == 0,
                wids@ == in_order(v.pending_space_moves.dom()),
                wids@.to_set() == v.pending_space_moves.dom(),
                i <= wids.len(),
                p == (|w: WindowId| v.pending_space_moves[w].id == id),
                wids@.take(i as int).filter(p) == Seq::<WindowId>::empty(),
                forall|k: int| 0 <= k < i ==> !v.moves_as(#[trigger] wids@[k], id),
            decreases wids.len() - i,
        {
            let wid = wids[i];
            proof {
                lemma_filter_step(wids@, p, i as int);
                assert(wids@.to_set().contains(wid));
            }
            match self.pending_space_moves.get(wid) {
                Some(moved) => {
                    if moved.id == id {
                        proof {
                            assert(v.moves_as(wid, id));
                            crate::sequences::lemma_filter_prefix(wids@, p, i + 1);
                            assert(wids@.filter(p)[0] == wids@.filter(p).take(1)[0]);
                            assert(v.moving_as(id) == wid);
                        }
                        return self.place_moved_scratchpad(wid);
                    }
                },
                None => {},
            }
            i += 1;
        }
        proof {
            assert forall|w: WindowId| !v.moves_as(w, id) by {
                if v.moves_as(w, id) {
                    assert(wids@.to_set().contains(w));
                    let k = choose|k: int| 0 <= k < wids@.len() && wids@[k] == w;
                    assert(!v.moves_as(wids@[k], id));
                }
            }
            assert(views(effects@) =~= Seq::empty());
        }
        effects
    }

    /// The layout has toggled a scratchpad. `pending` is the show that is
    /// pending for its name, and `frame` the frame of its window, if it has
    /// one.
    pub fn scratchpad_toggled(
        &mut self,
        action: ScratchpadAction,
        name: String,
        launch: Option<String>,
        pending: Option<PendingShowId>,
        frame: Option<FractionalRect>,
    ) -> (effects: Vec<Effect>)
        requires
            old(self).wf(),
            action matches ScratchpadAction::Show(wid) ==> old(self)@.move_target(wid) is Some
                ==> old(self)@.next_space_move_id < u64::MAX,
        ensures
            final(self).wf(),
            final(self)@ == old(self)@.toggled(action, name@, crate::effects::text_in(launch), pending, frame).state,
            views(effects@) == old(self)@.toggled(
                action,
                name@,
                crate::effects::text_in(launch),
                pending,
                frame,
            ).effects,
    {
        let ghost v = self@;
        match action {
            ScratchpadAction::Launch => {
                let mut effects: Vec<Effect> = Vec::new();
                match (launch, pending) {
                    (Some(bundle_id), Some(id)) => {
                        effects.push(Effect::LaunchApp { name, bundle_id, id });
                    },
                    _ => {},
                }
                proof {
                    assert(views(effects@) =~= v.toggled(
                        action,
                        name@,
                        crate::effects::text_in(launch),
                        pending,
                        frame,
                    ).effects);
                }
                effects
            },
            ScratchpadAction::Show(wid) => {
                let frame = match frame {
                    Some(frame) => frame,
                    None => FractionalRect::default_frame(),
                };
                self.show_scratchpad(wid, frame)
            },
            ScratchpadAction::Hide(wid) => self.set_app_hidden(wid.pid, true),
        }
    }
}

} // verus!
