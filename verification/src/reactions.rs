//! What follows from each event.
use vstd::prelude::*;

use crate::animation::AnimatedWindow;
use crate::apps::{AppInfo, WindowInfo};
use crate::effects::{text_in, EffectView, EventResponse, LayoutEventView, RaiseEventView, ResponseContext};
use crate::events::{
    Command, Event, MouseState, Quiet, ReactorCommand, Requested, SpaceMoveId, WindowsOnScreen,
};
use crate::geometry::{CoordinateConverter, Rect};
use crate::ids::{Pid, WindowId, WindowServerId};
use crate::number::{Number, ONE_BITS};
use crate::ordered::in_order;
use crate::reactor_model::{
    found_window, laid_out, screens_from, screens_showing, seq_of, tell_layout, with_frame, with_overrides, AppState,
    Focus, FrameAttempt, Reaction, ReactorView, RoundedTarget, Target, WindowState, FRAME_ATTEMPT_RESET,
    MAX_FRAME_ATTEMPTS,
};
use crate::request::{AppThreadHandle, Request, TransactionId};
use crate::scratchpad::{FractionalRect, PendingShowId, ScratchpadAction};
use crate::sequences::{each, lemma_filter_push};
use crate::space::SpaceId;

verus! {

/// At most the first `n` elements.
pub open spec fn up_to<A>(s: Seq<A>, n: nat) -> Seq<A> {
    if n <= s.len() {
        s.take(n as int)
    } else {
        s
    }
}

/// An attempt to write a frame, counted with those before it. Another frame or
/// a pause makes it the first.
pub open spec fn attempt_after(last: Option<FrameAttempt>, t: RoundedTarget, now: u64) -> FrameAttempt {
    match last {
        Some(last) => if t.same_as_attempt && now - last.last <= FRAME_ATTEMPT_RESET {
            FrameAttempt {
                target: last.target,
                count: if last.count == u32::MAX {
                    u32::MAX
                } else {
                    (last.count + 1) as u32
                },
                last: now,
            }
        } else {
            FrameAttempt { target: t.frame, count: 1, last: now }
        },
        None => FrameAttempt { target: t.frame, count: 1, last: now },
    }
}

/// What is written to the window.
pub open spec fn writes_to(animated: Seq<AnimatedWindow>, wid: WindowId) -> Seq<AnimatedWindow> {
    animated.filter(|w: AnimatedWindow| w.wid == wid)
}

impl Reaction {
    /// The reaction, and then the end of the event.
    pub open spec fn then_finish(self, focus: Focus, new_wids: Seq<WindowId>, is_resize: bool) -> Reaction {
        Reaction {
            effects: self.effects.push(
                EffectView::Finish { raised_window: focus.raised_window, new_wids, is_resize },
            ),
            ..self
        }
    }
}

impl ReactorView {
    /// Only the state changes.
    pub open spec fn only(self) -> Reaction {
        Reaction { state: self, effects: Seq::empty() }
    }

    /// The state is as it is, and something is to be done.
    pub open spec fn and(self, effects: Seq<EffectView>) -> Reaction {
        Reaction { state: self, effects }
    }

    // ---- Scratchpads ----

    /// A scratchpad window is shown: its app is unhidden and the window
    /// unminimized if needed, and it is moved to the current space if it may
    /// be on another. Otherwise it is placed right away.
    pub open spec fn showing(self, wid: WindowId, frame: FractionalRect) -> Reaction {
        let unhide = if self.app_hidden(wid.pid) {
            self.request_to(wid.pid, Request::SetHidden(false))
        } else {
            Seq::empty()
        };
        let unminimize = if !self.window_visible(wid) {
            self.request_to(wid.pid, Request::Unminimize(wid))
        } else {
            Seq::empty()
        };
        let still = ReactorView { pending_space_moves: self.pending_space_moves.remove(wid), ..self };
        match self.move_target(wid) {
            Some((wsid, space)) => ReactorView {
                next_space_move_id: (self.next_space_move_id + 1) as u64,
                ..still
            }.and(
                unhide + unminimize + seq![
                    EffectView::MoveWindow {
                        wid,
                        wsid,
                        space,
                        id: SpaceMoveId(self.next_space_move_id),
                        frame,
                    },
                ],
            ),
            None => still.and(unhide + unminimize + seq![self.place(wid, frame)]),
        }
    }

    /// The moved scratchpad windows that are on screen now.
    pub open spec fn arrived(self) -> Seq<WindowId> {
        in_order(self.pending_space_moves.dom()).filter(|w: WindowId| self.window_visible(w))
    }

    /// The moved scratchpad windows that are on screen now are placed, one
    /// after the other.
    pub open spec fn placing_moved(self) -> Seq<EffectView> {
        self.arrived().map_values(|w: WindowId| EffectView::PlaceMovedScratchpad(w))
    }

    /// The move of a window has ended, and the window is placed at the frame
    /// that it is shown at.
    pub open spec fn placing_one(self, wid: WindowId) -> Reaction {
        ReactorView { pending_space_moves: self.pending_space_moves.remove(wid), ..self }.and(
            seq![self.place(wid, self.pending_space_moves[wid].frame)],
        )
    }

    /// A move was not confirmed in time. Its window is placed where it is.
    pub open spec fn move_ended(self, id: SpaceMoveId) -> Reaction {
        if exists|w: WindowId| self.moves_as(w, id) {
            self.placing_one(self.moving_as(id))
        } else {
            self.only()
        }
    }

    /// The window is being moved, and the move has the id.
    pub open spec fn moves_as(self, wid: WindowId, id: SpaceMoveId) -> bool {
        self.pending_space_moves.dom().contains(wid) && self.pending_space_moves[wid].id == id
    }

    /// The first window whose move has the id.
    pub open spec fn moving_as(self, id: SpaceMoveId) -> WindowId {
        in_order(self.pending_space_moves.dom()).filter(|w: WindowId| self.pending_space_moves[w].id == id)[0]
    }

    /// A scratchpad was toggled.
    pub open spec fn toggled(
        self,
        action: ScratchpadAction,
        name: Seq<char>,
        launch: Option<Seq<char>>,
        pending: Option<PendingShowId>,
        frame: Option<FractionalRect>,
    ) -> Reaction {
        match action {
            ScratchpadAction::Launch => self.and(
                match (launch, pending) {
                    (Some(bundle_id), Some(id)) => seq![EffectView::LaunchApp { name, bundle_id, id }],
                    _ => Seq::empty(),
                },
            ),
            ScratchpadAction::Show(wid) => self.showing(
                wid,
                match frame {
                    Some(frame) => frame,
                    None => FractionalRect::usual(),
                },
            ),
            ScratchpadAction::Hide(wid) => self.and(self.request_to(wid.pid, Request::SetHidden(true))),
        }
    }

    // ---- Responses of the layout ----

    /// The id that the window server gave the window.
    pub open spec fn wsid_of(self, wid: WindowId) -> Option<WindowServerId> {
        if self.windows.dom().contains(wid) {
            self.windows[wid].window_server_id
        } else {
            None
        }
    }

    /// Whether the window counts when the order of the windows is compared: it
    /// is an ordinary window that is seen on a managed screen.
    pub open spec fn comparable(self, wsid: WindowServerId) -> bool {
        &&& self.window_server_info.dom().contains(wsid)
        &&& self.window_server_info[wsid].layer == 0
        &&& exists|i: int|
            0 <= i < self.screens.len() && self.screens[i].space is Some && (#[trigger] self.overlap(
                i,
                self.window_server_info[wsid].frame,
            )).visible
    }

    /// The windows to raise, by the ids of the window server.
    pub open spec fn desired(self, raise: Seq<WindowId>) -> Set<WindowServerId> {
        each(raise, |w: WindowId| seq_of(self.wsid_of(w))).to_set()
    }

    /// The windows in front are those to raise, in any order.
    pub open spec fn in_front(self, raise: Seq<WindowId>, order: Seq<WindowServerId>) -> bool {
        up_to(order.filter(|w: WindowServerId| self.comparable(w)), self.desired(raise).len()).to_set()
            == self.desired(raise)
    }

    /// Raising the windows would change nothing: the window to focus is in
    /// front, and behind it are the windows to raise.
    pub open spec fn is_noop(
        self,
        raise: Seq<WindowId>,
        focus: Option<WindowId>,
        order: Seq<WindowServerId>,
        focus_wsid: Option<WindowServerId>,
    ) -> bool {
        match focus {
            Some(_) => order.len() > 0 && focus_wsid == Some(order[0]) && self.in_front(raise, order.drop_first()),
            None => self.in_front(raise, order),
        }
    }

    /// The app and the managed space of a window.
    pub open spec fn group_of(self, wid: WindowId) -> (Pid, Option<SpaceId>) {
        (wid.pid, self.best_space(self.windows[wid].frame_monotonic))
    }

    /// The groups of the windows, in the order in which they first occur.
    pub open spec fn groups_in(self, wids: Seq<WindowId>) -> Seq<(Pid, Option<SpaceId>)>
        decreases wids.len(),
    {
        if wids.len() == 0 {
            Seq::empty()
        } else {
            let before = self.groups_in(wids.drop_last());
            let group = self.group_of(wids.last());
            if before.contains(group) {
                before
            } else {
                before.push(group)
            }
        }
    }

    /// The known windows, grouped by their app and space.
    pub open spec fn grouped(self, raise: Seq<WindowId>) -> Seq<Seq<WindowId>> {
        let known = raise.filter(|w: WindowId| self.windows.dom().contains(w));
        self.groups_in(known).map_values(
            |g: (Pid, Option<SpaceId>)| known.filter(|w: WindowId| self.group_of(w) == g),
        )
    }

    /// The handles of the apps of the windows.
    pub open spec fn handles_of(self, wids: Seq<WindowId>) -> Map<Pid, AppThreadHandle> {
        Map::new(
            |pid: Pid|
                self.apps.dom().contains(pid) && exists|i: int|
                    0 <= i < wids.len() && (#[trigger] wids[i]).pid == pid,
            |pid: Pid| self.apps[pid].handle,
        )
    }

    /// The frame to whose middle the mouse goes when the window is focused.
    pub open spec fn warp_to(self, wid: WindowId, from_mouse: bool) -> Option<Rect> {
        if self.settings.mouse_follows_focus && !from_mouse && self.windows.dom().contains(wid) {
            Some(self.windows[wid].frame_monotonic)
        } else {
            None
        }
    }

    /// The request to raise and focus windows.
    pub open spec fn raising(self, raise: Seq<WindowId>, focus: Option<WindowId>, from_mouse: bool) -> EffectView {
        EffectView::Raise(
            RaiseEventView::RaiseRequest {
                raise_windows: self.grouped(raise),
                focus_window: match focus {
                    Some(wid) => Some((wid, self.warp_to(wid, from_mouse))),
                    None => None,
                },
                app_handles: self.handles_of(raise + seq_of(focus)),
            },
        )
    }

    /// The response of the layout: its frames are kept for the next layout,
    /// and its windows are raised unless that would change nothing.
    pub open spec fn responding(self, response: EventResponse, context: ResponseContext) -> Reaction {
        let noop = context.visible_window_order matches Some(order) && self.is_noop(
            response.raise_windows@,
            response.focus_window,
            order@,
            context.focus_wsid,
        );
        let raise = !noop && (response.raise_windows@.len() > 0 || response.focus_window is Some);
        ReactorView {
            pending_frame_overrides: with_overrides(self.pending_frame_overrides, response.frame_overrides@),
            ..self
        }.and(
            if raise {
                seq![self.raising(response.raise_windows@, response.focus_window, context.from_mouse)]
            } else {
                Seq::empty()
            },
        )
    }

    // ---- Screens ----

    /// What ends an event: the layout is told of a raised window, and it is
    /// updated unless something is being dragged.
    pub open spec fn finishing(
        self,
        raised_window: Option<WindowId>,
        new_wids: Seq<WindowId>,
        is_resize: bool,
    ) -> Seq<EffectView> {
        (match raised_window {
            Some(wid) => seq![self.tell_focused(wid), EffectView::UpdateActiveScreen],
            None => Seq::empty(),
        }) + (if self.in_drag {
            Seq::empty()
        } else {
            seq![EffectView::UpdateLayout { new_wids, skip_anim: is_resize }]
        })
    }

    /// The screen of the main window becomes the active one.
    pub open spec fn activating_screen(self) -> Reaction {
        match self.main_window {
            Some(wid) => if self.windows.dom().contains(wid) {
                match self.best_screen(self.windows[wid].frame_monotonic) {
                    Some(i) => {
                        let active = Some(i as u16);
                        ReactorView { active_screen_idx: active, ..self }.and(
                            if self.active_screen_idx != active {
                                seq![EffectView::FocusedScreenChanged]
                            } else {
                                Seq::empty()
                            },
                        )
                    },
                    None => self.only(),
                }
            } else {
                self.only()
            },
            None => self.only(),
        }
    }

    // ---- Writing frames ----

    /// The scale of the screen that a window at the frame is on.
    pub open spec fn scale_for(self, frame: Rect) -> Number {
        match self.best_screen(frame) {
            Some(i) => self.screens[i].scale_factor,
            None => Number { bits: ONE_BITS },
        }
    }

    /// The frames that windows should have: those of the layout, unless
    /// another frame takes their place.
    pub open spec fn wanted(self, laid: Seq<Target>) -> Map<WindowId, (Rect, Number)> {
        let overrides = self.pending_frame_overrides;
        laid_out(laid).union_prefer_right(
            Map::new(
                |w: WindowId| overrides.dom().contains(w),
                |w: WindowId| (overrides[w], self.scale_for(overrides[w])),
            ),
        )
    }

    /// The frames that windows should have, in the order of the windows.
    pub open spec fn targets(self, laid: Seq<Target>) -> Seq<Target> {
        let wanted = self.wanted(laid);
        in_order(wanted.dom()).map_values(
            |w: WindowId| Target { wid: w, frame: wanted[w].0, scale_factor: wanted[w].1 },
        )
    }

    /// Whether a frame is to be written to the window: it is known, is not
    /// being resized by the user and is not at the frame yet.
    pub open spec fn moves(self, t: RoundedTarget) -> bool {
        self.resizing_window != Some(t.wid) && self.windows.dom().contains(t.wid) && !t.same_as_current
    }

    /// The last attempt to write a frame to the window.
    pub open spec fn last_attempt(self, wid: WindowId) -> Option<FrameAttempt> {
        if self.frame_attempts.dom().contains(wid) {
            Some(self.frame_attempts[wid])
        } else {
            None
        }
    }

    /// The attempt to write the frame, counted with those before it.
    pub open spec fn attempt(self, t: RoundedTarget, now: u64) -> FrameAttempt {
        attempt_after(self.last_attempt(t.wid), t, now)
    }

    /// The state after an attempt to write a frame, and the window to animate,
    /// if the frame is written. After too many attempts it is not: the app
    /// will not keep it.
    pub open spec fn writing_one(self, t: RoundedTarget, new_wids: Seq<WindowId>, now: u64) -> (
        ReactorView,
        Seq<AnimatedWindow>,
    ) {
        if !self.moves(t) {
            (self, Seq::empty())
        } else {
            let attempt = self.attempt(t, now);
            let tried = ReactorView { frame_attempts: self.frame_attempts.insert(t.wid, attempt), ..self };
            if attempt.count > MAX_FRAME_ATTEMPTS || !self.apps.dom().contains(t.wid.pid) {
                (tried, Seq::empty())
            } else {
                let window = self.windows[t.wid];
                let txid = TransactionId((window.last_sent_txid.0 + 1) as u32);
                (
                    ReactorView {
                        windows: self.windows.insert(
                            t.wid,
                            WindowState { frame_monotonic: t.frame, last_sent_txid: txid, ..window },
                        ),
                        ..tried
                    },
                    seq![
                        AnimatedWindow {
                            handle: self.apps[t.wid.pid].handle,
                            wid: t.wid,
                            start: window.frame_monotonic,
                            finish: t.frame,
                            is_focus: new_wids.contains(t.wid),
                            txid,
                        },
                    ],
                )
            }
        }
    }

    /// The state after the frames were written, and the windows to animate.
    pub open spec fn writing(self, targets: Seq<RoundedTarget>, new_wids: Seq<WindowId>, now: u64) -> (
        ReactorView,
        Seq<AnimatedWindow>,
    )
        decreases targets.len(),
    {
        if targets.len() == 0 {
            (self, Seq::empty())
        } else {
            let before = self.writing(targets.drop_last(), new_wids, now);
            let one = before.0.writing_one(targets.last(), new_wids, now);
            (one.0, before.1 + one.1)
        }
    }

    /// Whether every window has a transaction id left for each frame that is
    /// written to it.
    pub open spec fn can_number(self, targets: Seq<RoundedTarget>, new_wids: Seq<WindowId>, now: u64) -> bool {
        forall|w: WindowId| #[trigger]
            self.windows.dom().contains(w) ==> self.windows[w].last_sent_txid.0 + writes_to(
                self.writing(targets, new_wids, now).1,
                w,
            ).len() <= u32::MAX
    }

    // ---- Events ----

    /// An app was launched.
    pub open spec fn launched(
        self,
        pid: Pid,
        info: AppInfo,
        handle: AppThreadHandle,
        found: Seq<(WindowId, WindowInfo)>,
        app_main_window: Option<WindowId>,
    ) -> Reaction {
        let state = ReactorView { apps: self.apps.insert(pid, AppState { info, handle }), ..self }.discovered(
            found,
        );
        state.and(state.tell_discovered(pid, app_main_window))
    }

    /// The thread of an app has ended.
    pub open spec fn thread_terminated(self, pid: Pid) -> Reaction {
        let cancel = if self.apps.dom().contains(pid) {
            match self.apps[pid].info.bundle_id {
                Some(id) => seq![EffectView::CancelScratchpadShowsForApp(id@)],
                None => Seq::empty(),
            }
        } else {
            Seq::empty()
        };
        ReactorView { apps: self.apps.remove(pid), ..self }.without_moves_of(pid).and(
            cancel + seq![tell_layout(LayoutEventView::AppClosed(pid))],
        )
    }

    /// A window was created.
    pub open spec fn window_created(self, wid: WindowId, info: WindowInfo, mouse: MouseState) -> ReactorView {
        ReactorView {
            window_ids: match info.sys_id {
                Some(wsid) => self.window_ids.insert(wsid, wid),
                None => self.window_ids,
            },
            windows: self.windows.insert(wid, found_window(info)),
            in_drag: self.in_drag || mouse == MouseState::Down,
            ..self
        }
    }

    /// The window server reported the windows on screen.
    pub open spec fn on_screen_updated(self, pid: Option<Pid>, on_screen: WindowsOnScreen) -> Reaction {
        (if pid is Some {
            self.with_on_screen(on_screen.visible@, on_screen.info@)
        } else {
            self.with_all_on_screen(on_screen.visible@, on_screen.info@)
        }).and(seq![EffectView::PlaceMovedScratchpads])
    }

    /// The space of a window that became visible, if it is known and on a
    /// managed screen.
    pub open spec fn became_visible_on(self, wid: WindowId) -> Option<SpaceId> {
        if self.windows.dom().contains(wid) {
            self.best_space(self.windows[wid].frame_monotonic)
        } else {
            None
        }
    }

    /// A window became visible. It is added to the layout, or may be a
    /// scratchpad.
    pub open spec fn became_visible(self, wid: WindowId) -> Reaction {
        self.and(
            if self.windows.dom().contains(wid) {
                match self.became_visible_on(wid) {
                    Some(space) => seq![
                        tell_layout(LayoutEventView::WindowAdded(space, wid, self.layout_info(wid))),
                    ],
                    None => seq![
                        tell_layout(LayoutEventView::ScratchpadCandidates(self.with_info(seq![wid]))),
                    ],
                }
            } else {
                Seq::empty()
            },
        )
    }

    /// A window was destroyed.
    pub open spec fn window_destroyed(self, wid: WindowId) -> Reaction {
        ReactorView {
            in_drag: false,
            resizing_window: None,
            windows: self.windows.remove(wid),
            pending_space_moves: self.pending_space_moves.remove(wid),
            frame_attempts: self.frame_attempts.remove(wid),
            ..self
        }.and(
            seq![EffectView::CancelInteractiveState, tell_layout(LayoutEventView::WindowRemoved(wid))],
        )
    }

    /// The state once the mouse button is known to be up: a resize that was
    /// held off is over.
    pub open spec fn without_resize_if(self, mouse: Option<MouseState>) -> ReactorView {
        if mouse == Some(MouseState::Up) {
            ReactorView { resizing_window: None, ..self }
        } else {
            self
        }
    }

    /// What the layout is told of a window that moved to another screen.
    pub open spec fn tell_moved(self, wid: WindowId, old_frame: Rect, new_frame: Rect) -> Seq<EffectView> {
        match (self.best_screen(old_frame), self.best_screen(new_frame)) {
            (Some(old), Some(new)) => if old != new {
                seq![
                    tell_layout(
                        LayoutEventView::WindowSpaceChanged {
                            wid,
                            added: self.screens[new].space,
                            removed: self.screens[old].space,
                            info: self.layout_info(wid),
                        },
                    ),
                ]
            } else {
                Seq::empty()
            },
            _ => Seq::empty(),
        }
    }

    /// The frame of a known window was reported.
    pub open spec fn frame_changed(
        self,
        wid: WindowId,
        new_frame: Rect,
        last_seen: TransactionId,
        requested: Requested,
        mouse: Option<MouseState>,
        focus: Focus,
    ) -> Reaction {
        let v = self.without_resize_if(mouse);
        let window = v.windows[wid];
        if last_seen != window.last_sent_txid || requested.0 {
            // A frame from before the last write would make the model wrong.
            v.only()
        } else {
            let moved = ReactorView { windows: v.windows.insert(wid, with_frame(window, new_frame)), ..v };
            let old_frame = window.frame_monotonic;
            if old_frame.same(new_frame) {
                moved.only()
            } else {
                let resized = !old_frame.size.same(new_frame.size);
                let down = mouse == Some(MouseState::Down);
                let told = seq![tell_layout(LayoutEventView::WindowFrameChanged { wid, frame: new_frame })]
                    + moved.tell_moved(wid, old_frame, new_frame) + (if resized {
                    seq![
                        tell_layout(
                            LayoutEventView::WindowResized {
                                wid,
                                old_frame,
                                new_frame,
                                screens: moved.managed_frames(),
                            },
                        ),
                    ]
                } else {
                    Seq::empty()
                });
                ReactorView {
                    resizing_window: if resized && down {
                        Some(wid)
                    } else {
                        moved.resizing_window
                    },
                    in_drag: moved.in_drag || (!resized && down),
                    ..moved
                }.and(told).then_finish(focus, Seq::empty(), resized)
            }
        }
    }

    /// The screen layout changed.
    pub open spec fn screens_changed(
        self,
        frames: Seq<Rect>,
        spaces: Seq<Option<SpaceId>>,
        scale_factors: Seq<Number>,
        converter: CoordinateConverter,
        on_screen: WindowsOnScreen,
    ) -> Reaction {
        let state = ReactorView {
            screens: screens_from(frames, spaces, scale_factors),
            ..self.with_all_on_screen(on_screen.visible@, on_screen.info@)
        };
        state.and(
            seq![
                EffectView::ExposeSpaces {
                    spaces: state.managed_sizes(),
                    visible_window_order: on_screen.visible@,
                },
                EffectView::UpdateActiveScreen,
                EffectView::PlaceMovedScratchpads,
                EffectView::GroupScreensChanged(spaces, converter),
            ],
        )
    }

    /// Every app is asked for its visible windows.
    pub open spec fn ask_visible_windows(self) -> Seq<EffectView> {
        in_order(self.apps.dom()).map_values(
            |pid: Pid|
                EffectView::Request(
                    crate::request::Sent { handle: self.apps[pid].handle, request: Request::GetVisibleWindows },
                ),
        )
    }

    /// The current space changed. A change that does not fit the screens is
    /// ignored, but for the windows on screen.
    pub open spec fn space_changed(
        self,
        spaces: Seq<Option<SpaceId>>,
        on_screen: WindowsOnScreen,
        focus: Focus,
    ) -> Reaction {
        let seen = self.with_all_on_screen(on_screen.visible@, on_screen.info@);
        if spaces.len() != seen.screens.len() {
            seen.only()
        } else {
            let state = ReactorView {
                in_drag: false,
                resizing_window: None,
                screens: screens_showing(seen.screens, spaces),
                ..seen
            };
            state.and(
                seq![
                    EffectView::CancelInteractiveState,
                    EffectView::ExposeSpaces {
                        spaces: state.managed_sizes(),
                        visible_window_order: on_screen.visible@,
                    },
                ] + (match state.main_window {
                    Some(wid) => seq![state.tell_focused(wid)],
                    None => Seq::empty(),
                }) + seq![EffectView::UpdateActiveScreen, EffectView::PlaceMovedScratchpads]
                    + state.ask_visible_windows(),
            ).then_finish(focus, Seq::empty(), false)
        }
    }

    /// The main window with its managed space.
    pub open spec fn current_main(self) -> Option<(SpaceId, WindowId)> {
        match (self.main_space(), self.main_window) {
            (Some(space), Some(wid)) => Some((space, wid)),
            _ => None,
        }
    }

    /// The mouse moved over a window. Nothing happens if it is unknown or on no
    /// managed screen, or if another app than that of the main window has the
    /// keyboard: Spotlight and similar apps can take keyboard focus without
    /// activating, and the focus is not to be stolen from them.
    pub open spec fn mouse_moved(self, wsid: WindowServerId, key_focus_pid: Option<Pid>, focus: Focus) -> Reaction {
        if self.window_ids.dom().contains(wsid) && self.windows.dom().contains(self.window_ids[wsid]) {
            let wid = self.window_ids[wsid];
            match self.best_space(self.windows[wid].frame_monotonic) {
                Some(space) => {
                    let elsewhere = match (key_focus_pid, self.current_main()) {
                        (Some(pid), Some((_, main))) => main.pid != pid,
                        _ => false,
                    };
                    if elsewhere {
                        self.only()
                    } else {
                        self.and(
                            seq![
                                EffectView::Layout {
                                    event: LayoutEventView::MouseMovedOverWindow {
                                        over: (space, wid),
                                        current_main: self.current_main(),
                                    },
                                    from_mouse: true,
                                },
                            ],
                        ).then_finish(focus, Seq::empty(), false)
                    }
                },
                None => self.only(),
            }
        } else {
            self.only()
        }
    }

    /// A raise request failed. If it was meant to move the focus, the layout
    /// goes back to the window that has it.
    pub open spec fn raise_failed(self, windows: Seq<WindowId>, sequence_id: u64, quiet: Quiet) -> Reaction {
        self.and(
            seq![EffectView::Raise(RaiseEventView::RaiseRequestFailed { windows, sequence_id })] + (match (
                quiet,
                self.main_window,
            ) {
                (Quiet::No, Some(wid)) => seq![self.tell_focused(wid)],
                _ => Seq::empty(),
            }),
        )
    }

    /// The scroll wheel was turned. This scrolls the layout of the active
    /// screen if scrolling is enabled and the modifier key is held.
    pub open spec fn scrolled(self, delta_x: Number, delta_y: Number, alt_held: bool, focus: Focus) -> Reaction {
        if !self.settings.scroll_enabled || !alt_held {
            self.only()
        } else {
            self.and(
                match self.active_space() {
                    Some((space, frame)) => {
                        let delta = if delta_x.same(Number { bits: 0 }) {
                            delta_y
                        } else {
                            delta_x
                        };
                        seq![EffectView::Scroll { space, delta, frame }]
                    },
                    None => Seq::empty(),
                },
            ).then_finish(focus, Seq::empty(), false)
        }
    }

    /// The space a command of the layout is for: that of the main window, or
    /// of the active screen if there is none, for example after clicking the
    /// desktop.
    pub open spec fn command_space(self) -> Option<SpaceId> {
        match self.main_space() {
            Some(space) => Some(space),
            None => match self.active_space() {
                Some((space, _)) => Some(space),
                None => None,
            },
        }
    }

    /// A command of the user.
    pub open spec fn commanded(self, command: Command) -> Reaction {
        self.and(
            match command {
                Command::Layout(command) => seq![
                    EffectView::LayoutCommand {
                        space: self.command_space(),
                        visible_spaces: self.managed_spaces(),
                        command,
                    },
                ],
                Command::Metrics(command) => seq![EffectView::Metrics(command)],
                Command::Reactor(ReactorCommand::Debug) => seq![EffectView::DebugTrees(self.managed_spaces())],
                Command::Reactor(ReactorCommand::Serialize) => seq![EffectView::PrintLayout],
                Command::Reactor(ReactorCommand::SaveAndExit) => seq![EffectView::SaveAndExit],
                Command::Reactor(ReactorCommand::ToggleScratchpad { name, launch }) => seq![
                    EffectView::ToggleScratchpad { name: name@, launch: text_in(launch) },
                ],
            },
        )
    }

    /// An interaction with the mouse on the active screen.
    pub open spec fn on_active(self, effect: spec_fn(SpaceId, Rect) -> EffectView) -> Seq<EffectView> {
        match self.active_space() {
            Some((space, frame)) => seq![effect(space, frame)],
            None => Seq::empty(),
        }
    }

    /// What follows from an event.
    pub open spec fn handling(self, event: Event, focus: Focus) -> Reaction {
        let v = ReactorView { main_window: focus.main_window, ..self };
        let none = Seq::<WindowId>::empty();
        match event {
            Event::ApplicationLaunched { pid, info, handle, visible_windows, .. } => v.launched(
                pid,
                info,
                handle,
                visible_windows@,
                focus.app_main_window,
            ).then_finish(focus, none, false),
            Event::StartupComplete => v.and(
                seq![tell_layout(LayoutEventView::AppsRunningUpdated(in_order(v.apps.dom())))],
            ).then_finish(focus, none, false),
            Event::ApplicationTerminated(pid) => v.and(v.request_to(pid, Request::Terminate)).then_finish(
                focus,
                none,
                false,
            ),
            Event::ApplicationThreadTerminated(pid) => v.thread_terminated(pid).then_finish(focus, none, false),
            Event::ScratchpadMoveEnded(id) => v.move_ended(id).then_finish(focus, none, false),
            Event::ScratchpadShowExpired(id) => v.and(seq![EffectView::CancelScratchpadShow(id)]).then_finish(
                focus,
                none,
                false,
            ),
            Event::ScreenSpacesChanged(spaces) => ReactorView {
                screen_spaces: spaces@,
                ..v
            }.only().then_finish(focus, none, false),
            Event::ApplicationHiddenChanged(pid, hidden) => v.hidden_changed(pid, hidden).only().then_finish(
                focus,
                none,
                false,
            ),
            Event::ApplicationActivated(_, _)
            | Event::ApplicationDeactivated(_)
            | Event::ApplicationGloballyActivated(_)
            | Event::ApplicationGloballyDeactivated(_)
            | Event::ApplicationMainWindowChanged(_, _, _) => v.only().then_finish(focus, none, false),
            Event::WindowsDiscovered { pid, new, .. } => {
                let state = v.discovered(new@);
                state.and(state.tell_discovered(pid, focus.app_main_window)).then_finish(focus, none, false)
            },
            Event::WindowCreated(wid, info, mouse) => v.window_created(wid, info, mouse).only().then_finish(
                focus,
                none,
                false,
            ),
            Event::WindowsOnScreenUpdated { pid, on_screen } => v.on_screen_updated(pid, on_screen).then_finish(
                focus,
                none,
                false,
            ),
            Event::WindowBecameVisible(wid) => v.became_visible(wid).then_finish(
                focus,
                if v.became_visible_on(wid) is Some {
                    seq![wid]
                } else {
                    none
                },
                false,
            ),
            Event::WindowDestroyed(wid) => v.window_destroyed(wid).then_finish(focus, none, false),
            Event::WindowFrameChanged(wid, frame, last_seen, requested, mouse) => v.frame_changed(
                wid,
                frame,
                last_seen,
                requested,
                mouse,
                focus,
            ),
            Event::ScreenParametersChanged { frames, spaces, scale_factors, converter, on_screen } => v.screens_changed(
                frames@,
                spaces@,
                scale_factors@,
                converter,
                on_screen,
            ).then_finish(focus, none, false),
            Event::SpaceChanged(spaces, on_screen) => v.space_changed(spaces@, on_screen, focus),
            Event::LeftMouseDown(point) => v.and(
                v.on_active(|space: SpaceId, frame: Rect| EffectView::HitTest { space, point, frame }),
            ).then_finish(focus, none, false),
            Event::LeftMouseDragged(point) => v.and(
                v.on_active(|space: SpaceId, frame: Rect| EffectView::Drag { point, frame }),
            ).then_finish(focus, none, false),
            Event::MouseUp => ReactorView { in_drag: false, resizing_window: None, ..v }.and(
                v.on_active(|space: SpaceId, frame: Rect| EffectView::EndInteraction { space, frame }),
            ).then_finish(focus, none, false),
            Event::MouseMovedOverWindow(wsid, key_focus_pid) => v.mouse_moved(wsid, key_focus_pid, focus),
            Event::RaiseCompleted { window_id, sequence_id } => v.and(
                seq![EffectView::Raise(RaiseEventView::RaiseCompleted { window_id, sequence_id })],
            ).then_finish(focus, none, false),
            Event::RaiseRequestFailed { windows, sequence_id, quiet } => v.raise_failed(
                windows@,
                sequence_id,
                quiet,
            ).then_finish(focus, none, false),
            Event::RaiseTimeout { sequence_id } => v.and(
                seq![EffectView::Raise(RaiseEventView::RaiseTimeout { sequence_id })],
            ).then_finish(focus, none, false),
            Event::ScrollWheel { delta_x, delta_y, alt_held } => v.scrolled(delta_x, delta_y, alt_held, focus),
            Event::Command(command) => v.commanded(command).then_finish(focus, none, false),
            Event::ConfigChanged(settings) => ReactorView { settings, ..v }.and(
                seq![EffectView::ConfigureLayout],
            ).then_finish(focus, none, false),
        }
    }
}

/// What is written of one more target follows what is written of the others.
pub proof fn lemma_writes_add(a: Seq<AnimatedWindow>, b: Seq<AnimatedWindow>, wid: WindowId)
    ensures
        writes_to(a + b, wid) == writes_to(a, wid) + writes_to(b, wid),
{
    Seq::filter_distributes_over_add(a, b, |w: AnimatedWindow| w.wid == wid);
}

/// Writing one frame adds at most one write, to the window of the target.
pub proof fn lemma_writing_one(v: ReactorView, t: RoundedTarget, new_wids: Seq<WindowId>, now: u64, wid: WindowId)
    ensures
        ({
            let (after, written) = v.writing_one(t, new_wids, now);
            &&& after.windows.dom() == v.windows.dom()
            &&& after.apps == v.apps
            &&& after.resizing_window == v.resizing_window
            &&& t.wid == wid ==> writes_to(written, wid) == written
            &&& t.wid != wid ==> writes_to(written, wid) == Seq::<AnimatedWindow>::empty()
            &&& t.wid != wid ==> after.windows[wid] == v.windows[wid]
            &&& t.wid != wid ==> after.last_attempt(wid) == v.last_attempt(wid)
        }),
{
    let (after, written) = v.writing_one(t, new_wids, now);
    let p = |w: AnimatedWindow| w.wid == wid;
    assert(after.windows.dom() =~= v.windows.dom());
    reveal(Seq::filter);
    if written.len() == 1 {
        assert(written.drop_last() =~= Seq::empty());
        assert(written =~= Seq::empty().push(written[0]));
        lemma_filter_push(Seq::empty(), p, written[0]);
    } else {
        assert(written =~= Seq::empty());
    }
    assert(Seq::<AnimatedWindow>::empty().filter(p) =~= Seq::empty());
}

/// Writing frames leaves the windows known, and the apps and the window that is
/// being resized as they were.
pub proof fn lemma_writing_keeps(v: ReactorView, targets: Seq<RoundedTarget>, new_wids: Seq<WindowId>, now: u64)
    ensures
        v.writing(targets, new_wids, now).0.windows.dom() == v.windows.dom(),
        v.writing(targets, new_wids, now).0.apps == v.apps,
        v.writing(targets, new_wids, now).0.resizing_window == v.resizing_window,
    decreases targets.len(),
{
    if targets.len() > 0 {
        let rest = targets.drop_last();
        lemma_writing_keeps(v, rest, new_wids, now);
        lemma_writing_one(v.writing(rest, new_wids, now).0, targets.last(), new_wids, now, targets.last().wid);
    }
}

/// More targets mean no fewer writes.
pub proof fn lemma_writes_grow(
    v: ReactorView,
    targets: Seq<RoundedTarget>,
    new_wids: Seq<WindowId>,
    now: u64,
    wid: WindowId,
    n: int,
)
    requires
        0 <= n <= targets.len(),
    ensures
        writes_to(v.writing(targets.take(n), new_wids, now).1, wid).len() <= writes_to(
            v.writing(targets, new_wids, now).1,
            wid,
        ).len(),
    decreases targets.len() - n,
{
    if n == targets.len() {
        assert(targets.take(n) =~= targets);
    } else {
        let long = targets.take(n + 1);
        assert(long.drop_last() =~= targets.take(n));
        let before = v.writing(targets.take(n), new_wids, now);
        lemma_writes_add(before.1, before.0.writing_one(long.last(), new_wids, now).1, wid);
        lemma_writes_grow(v, targets, new_wids, now, wid, n + 1);
    }
}

} // verus!
