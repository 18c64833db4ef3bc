//! Handling events.
use vstd::prelude::*;

use crate::apps::{AppInfo, WindowInfo};
use crate::effects::{views, Effect, EffectView, LayoutEvent, LayoutWindowInfo, RaiseEvent};
use crate::events::{Command, Event, MouseState, Quiet, ReactorCommand, Requested, WindowsOnScreen};
use crate::geometry::{CoordinateConverter, Rect};
use crate::ids::{copy_wsids, Pid, WindowId, WindowServerId};
use crate::number::Number;
use crate::reactor_model::{screens_from, screens_showing, with_frame, AppState, Focus, Screen};
use crate::request::{AppThreadHandle, Request, Sent, TransactionId};
use crate::space::SpaceId;
use super::windows::window_state;
use super::Reactor;

verus! {

impl Reactor {
    pub(super) fn on_launched(
        &mut self,
        pid: Pid,
        info: AppInfo,
        handle: AppThreadHandle,
        found: Vec<(WindowId, WindowInfo)>,
        app_main_window: Option<WindowId>,
    ) -> (effects: Vec<Effect>)
        requires
            old(self).wf(),
        ensures
            final(self).wf(),
            final(self)@ == old(self)@.launched(pid, info, handle, found@, app_main_window).state,
            views(effects@) == old(self)@.launched(pid, info, handle, found@, app_main_window).effects,
    {
        self.apps.insert(pid, AppState { info, handle });
        self.on_windows_discovered(pid, found, app_main_window)
    }

    pub(super) fn on_thread_terminated(&mut self, pid: Pid) -> (effects: Vec<Effect>)
        requires
            old(self).wf(),
        ensures
            final(self).wf(),
            final(self)@ == old(self)@.thread_terminated(pid).state,
            views(effects@) == old(self)@.thread_terminated(pid).effects,
    {
        let ghost v = self@;
        let mut effects: Vec<Effect> = Vec::new();
        match self.apps.remove(pid) {
            Some(app) => {
                match app.info.bundle_id {
                    Some(bundle_id) => {
                        effects.push(Effect::CancelScratchpadShowsForApp(bundle_id));
                    },
                    None => {},
                }
            },
            None => {},
        }
        self.drop_moves_of(pid);
        effects.push(Effect::Layout { event: LayoutEvent::AppClosed(pid), from_mouse: false });
        proof {
            assert(views(effects@) =~= v.thread_terminated(pid).effects);
        }
        effects
    }

    pub(super) fn on_hidden_changed(&mut self, pid: Pid, hidden: bool)
        requires
            old(self).wf(),
        ensures
            final(self).wf(),
            final(self)@ == old(self)@.hidden_changed(pid, hidden),
    {
        let known = match self.apps.get(pid) {
            Some(app) => Some(app.info.is_hidden),
            None => None,
        };
        match known {
            Some(was_hidden) => {
                if hidden && !was_hidden {
                    self.drop_moves_of(pid);
                }
                match self.apps.get_mut(pid) {
                    Some(app) => {
                        app.info.is_hidden = hidden;
                    },
                    None => {},
                }
            },
            None => {},
        }
    }

    pub(super) fn on_window_created(&mut self, wid: WindowId, info: WindowInfo, mouse: MouseState)
        requires
            old(self).wf(),
        ensures
            final(self).wf(),
            final(self)@ == old(self)@.window_created(wid, info, mouse),
    {
        match info.sys_id {
            Some(wsid) => {
                self.window_ids.insert(wsid, wid);
            },
            None => {},
        }
        self.windows.insert(wid, window_state(info));
        if mouse == MouseState::Down {
            // No updates while the left button is pressed, in case a drag is in
            // progress.
            self.in_drag = true;
        }
    }

    pub(super) fn on_screen_updated(&mut self, pid: Option<Pid>, on_screen: WindowsOnScreen) -> (effects: Vec<Effect>)
        requires
            old(self).wf(),
        ensures
            final(self).wf(),
            final(self)@ == old(self)@.on_screen_updated(pid, on_screen).state,
            views(effects@) == old(self)@.on_screen_updated(pid, on_screen).effects,
    {
        let ghost v = self@;
        match pid {
            Some(_) => self.update_partial_window_server_info(on_screen),
            None => self.update_complete_window_server_info(on_screen),
        }
        let mut effects: Vec<Effect> = Vec::new();
        effects.push(Effect::PlaceMovedScratchpads);
        proof {
            assert(views(effects@) =~= v.on_screen_updated(pid, on_screen).effects);
        }
        effects
    }

    pub(super) fn on_became_visible(&self, wid: WindowId) -> (r: (Vec<Effect>, Vec<WindowId>))
        requires
            self.wf(),
        ensures
            views(r.0@) == self@.became_visible(wid).effects,
            r.1@ == (if self@.became_visible_on(wid) is Some {
                seq![wid]
            } else {
                Seq::empty()
            }),
    {
        let ghost v = self@;
        let mut effects: Vec<Effect> = Vec::new();
        let mut new_wids: Vec<WindowId> = Vec::new();
        match (self.windows.get(wid), self.layout_window_info(wid)) {
            (Some(window), Some(info)) => match self.best_space_for_window(&window.frame_monotonic) {
                Some(space) => {
                    new_wids.push(wid);
                    effects.push(
                        Effect::Layout { event: LayoutEvent::WindowAdded(space, wid, info), from_mouse: false },
                    );
                },
                None => {
                    let mut candidates: Vec<(WindowId, LayoutWindowInfo)> = Vec::new();
                    candidates.push((wid, info));
                    proof {
                        assert(candidates@ =~= v.with_info(seq![wid]));
                    }
                    effects.push(
                        Effect::Layout { event: LayoutEvent::ScratchpadCandidates(candidates), from_mouse: false },
                    );
                },
            },
            _ => {},
        }
        proof {
            assert(views(effects@) =~= v.became_visible(wid).effects);
            assert(new_wids@ =~= (if v.became_visible_on(wid) is Some {
                seq![wid]
            } else {
                Seq::empty()
            }));
        }
        (effects, new_wids)
    }

    pub(super) fn on_window_destroyed(&mut self, wid: WindowId) -> (effects: Vec<Effect>)
        requires
            old(self).wf(),
        ensures
            final(self).wf(),
            final(self)@ == old(self)@.window_destroyed(wid).state,
            views(effects@) == old(self)@.window_destroyed(wid).effects,
    {
        let ghost v = self@;
        let mut effects: Vec<Effect> = Vec::new();
        effects.push(Effect::CancelInteractiveState);
        self.in_drag = false;
        self.resizing_window = None;
        self.windows.remove(wid);
        self.pending_space_moves.remove(wid);
        self.frame_attempts.remove(wid);
        effects.push(Effect::Layout { event: LayoutEvent::WindowRemoved(wid), from_mouse: false });
        proof {
            assert(views(effects@) =~= v.window_destroyed(wid).effects);
        }
        effects
    }

    /// What the layout is told of a window that moved to another screen.
    pub(super) fn moved_effects(&self, wid: WindowId, old_frame: Rect, new_frame: Rect) -> (effects: Vec<Effect>)
        requires
            self.wf(),
            self@.windows.dom().contains(wid),
        ensures
            views(effects@) == self@.tell_moved(wid, old_frame, new_frame),
    {
        let ghost v = self@;
        let mut effects: Vec<Effect> = Vec::new();
        let old_screen = self.best_screen_idx_for_window(&old_frame);
        let new_screen = self.best_screen_idx_for_window(&new_frame);
        match (old_screen, new_screen, self.layout_window_info(wid)) {
            (Some(old_idx), Some(new_idx), Some(info)) => {
                if old_idx != new_idx {
                    effects.push(
                        Effect::Layout {
                            event: LayoutEvent::WindowSpaceChanged {
                                wid,
                                added: self.screens[new_idx].space,
                                removed: self.screens[old_idx].space,
                                info,
                            },
                            from_mouse: false,
                        },
                    );
                }
            },
            _ => {},
        }
        proof {
            assert(views(effects@) =~= v.tell_moved(wid, old_frame, new_frame));
        }
        effects
    }

    pub(super) fn on_frame_changed(
        &mut self,
        wid: WindowId,
        new_frame: Rect,
        last_seen: TransactionId,
        requested: Requested,
        mouse: Option<MouseState>,
        focus: Focus,
    ) -> (effects: Vec<Effect>)
        requires
            old(self).wf(),
            old(self)@.windows.dom().contains(wid),
        ensures
            final(self).wf(),
            final(self)@ == old(self)@.frame_changed(wid, new_frame, last_seen, requested, mouse, focus).state,
            views(effects@) == old(self)@.frame_changed(wid, new_frame, last_seen, requested, mouse, focus).effects,
    {
        let ghost v0 = self@;
        let mut effects: Vec<Effect> = Vec::new();
        if mouse == Some(MouseState::Up) {
            // The button is up, so any resize that was held off on is over, even
            // if the release of the button was never seen.
            self.resizing_window = None;
        }
        let ghost v = self@;
        let known = match self.windows.get(wid) {
            Some(window) => Some((window.last_sent_txid, window.frame_monotonic)),
            None => None,
        };
        let (last_sent_txid, old_frame) = match known {
            Some(k) => k,
            None => {
                return effects;
            },
        };
        if last_seen != last_sent_txid || requested.0 {
            // An event from before the last write is ignored: the layout model
            // would be updated incorrectly. So is one that was asked for:
            // correcting the model could result in feedback loops.
            proof {
                assert(views(effects@) =~= Seq::empty());
            }
            return effects;
        }
        match self.windows.get_mut(wid) {
            Some(window) => {
                window.frame_monotonic = new_frame;
            },
            None => {},
        }
        let ghost moved = self@;
        proof {
            assert(moved.windows =~= v.windows.insert(wid, with_frame(v.windows[wid], new_frame)));
        }
        if old_frame.same_rect(new_frame) {
            proof {
                assert(views(effects@) =~= Seq::empty());
            }
            return effects;
        }
        effects.push(
            Effect::Layout {
                event: LayoutEvent::WindowFrameChanged { wid, frame: new_frame },
                from_mouse: false,
            },
        );
        let mut to_other_screen = self.moved_effects(wid, old_frame, new_frame);
        effects.append(&mut to_other_screen);
        let is_resize = !old_frame.size.same_size(new_frame.size);
        if is_resize {
            let screens = self.managed_frames();
            effects.push(
                Effect::Layout {
                    event: LayoutEvent::WindowResized { wid, old_frame, new_frame, screens },
                    from_mouse: false,
                },
            );
            if mouse == Some(MouseState::Down) {
                self.resizing_window = Some(wid);
            }
        } else if mouse == Some(MouseState::Down) {
            self.in_drag = true;
        }
        effects.push(Effect::Finish { raised_window: focus.raised_window, new_wids: Vec::new(), is_resize });
        proof {
            assert(views(effects@) =~= v0.frame_changed(
                wid,
                new_frame,
                last_seen,
                requested,
                mouse,
                focus,
            ).effects);
        }
        effects
    }

    pub(super) fn on_screens_changed(
        &mut self,
        frames: Vec<Rect>,
        spaces: Vec<Option<SpaceId>>,
        scale_factors: Vec<Number>,
        converter: CoordinateConverter,
        on_screen: WindowsOnScreen,
    ) -> (effects: Vec<Effect>)
        requires
            old(self).wf(),
        ensures
            final(self).wf(),
            final(self)@ == old(self)@.screens_changed(frames@, spaces@, scale_factors@, converter, on_screen).state,
            views(effects@) == old(self)@.screens_changed(
                frames@,
                spaces@,
                scale_factors@,
                converter,
                on_screen,
            ).effects,
    {
        let ghost v = self@;
        let visible_window_order = copy_wsids(&on_screen.visible);
        self.update_complete_window_server_info(on_screen);
        let mut screens: Vec<Screen> = Vec::new();
        let mut i: usize = 0;
        while i < frames.len() && i < spaces.len() && i < scale_factors.len()
            invariant
                i <= frames.len(),
                i <= spaces.len(),
                i <= scale_factors.len(),
                screens@.len() == i,
                forall|k: int|
                    0 <= k < i ==> screens@[k] == (Screen {
                        frame: frames@[k],
                        space: spaces@[k],
                        scale_factor: scale_factors@[k],
                    }),
            decreases frames.len() - i,
        {
            screens.push(Screen { frame: frames[i], space: spaces[i], scale_factor: scale_factors[i] });
            i += 1;
        }
        proof {
            assert(screens@ =~= screens_from(frames@, spaces@, scale_factors@));
        }
        self.screens = screens;
        let mut effects: Vec<Effect> = Vec::new();
        effects.push(Effect::ExposeSpaces { spaces: self.managed_sizes(), visible_window_order });
        effects.push(Effect::UpdateActiveScreen);
        effects.push(Effect::PlaceMovedScratchpads);
        // The group bars are told through here rather than directly, so that
        // this cannot race with other messages to them.
        effects.push(Effect::GroupScreensChanged(spaces, converter));
        proof {
            assert(views(effects@) =~= v.screens_changed(
                frames@,
                spaces@,
                scale_factors@,
                converter,
                on_screen,
            ).effects);
        }
        effects
    }

    /// Asks every app for its visible windows.
    pub(super) fn update_visible_windows(&self) -> (effects: Vec<Effect>)
        requires
            self.wf(),
        ensures
            views(effects@) == self@.ask_visible_windows(),
    {
        let pids = self.apps.keys();
        let mut effects: Vec<Effect> = Vec::new();
        let mut i: usize = 0;
        while i < pids.len()
            invariant
                self.wf(),
                pids@.to_set() == self@.apps.dom(),
                i <= pids.len(),
                effects@.len() == i,
                forall|k: int|
                    0 <= k < i ==> (#[trigger] effects@[k])@ == EffectView::Request(
                        (Sent { handle: self@.apps[pids@[k]].handle, request: Request::GetVisibleWindows }),
                    ),
            decreases pids.len() - i,
        {
            let pid = pids[i];
            proof {
                assert(pids@.to_set().contains(pid));
            }
            match self.apps.get(pid) {
                Some(app) => {
                    effects.push(
                        Effect::Request(Sent { handle: app.handle, request: Request::GetVisibleWindows }),
                    );
                },
                None => {},
            }
            i += 1;
        }
        proof {
            assert(views(effects@) =~= self@.ask_visible_windows());
        }
        effects
    }

    pub(super) fn on_space_changed(
        &mut self,
        spaces: Vec<Option<SpaceId>>,
        on_screen: WindowsOnScreen,
        focus: Focus,
    ) -> (effects: Vec<Effect>)
        requires
            old(self).wf(),
        ensures
            final(self).wf(),
            final(self)@ == old(self)@.space_changed(spaces@, on_screen, focus).state,
            views(effects@) == old(self)@.space_changed(spaces@, on_screen, focus).effects,
    {
        let ghost v = self@;
        let mut effects: Vec<Effect> = Vec::new();
        let visible_window_order = copy_wsids(&on_screen.visible);
        self.update_complete_window_server_info(on_screen);
        if spaces.len() != self.screens.len() {
            proof {
                assert(views(effects@) =~= Seq::empty());
            }
            return effects;
        }
        let ghost seen = self@;
        effects.push(Effect::CancelInteractiveState);
        self.in_drag = false;
        self.resizing_window = None;
        let mut screens: Vec<Screen> = Vec::new();
        let mut i: usize = 0;
        while i < spaces.len()
            invariant
                i <= spaces.len(),
                spaces.len() == self.screens.len(),
                screens@.len() == i,
                forall|k: int|
                    0 <= k < i ==> screens@[k] == (Screen { space: spaces@[k], ..self.screens@[k] }),
            decreases spaces.len() - i,
        {
            let screen = self.screens[i];
            screens.push(Screen { frame: screen.frame, space: spaces[i], scale_factor: screen.scale_factor });
            i += 1;
        }
        proof {
            assert(screens@ =~= screens_showing(seen.screens, spaces@));
        }
        self.screens = screens;
        effects.push(Effect::ExposeSpaces { spaces: self.managed_sizes(), visible_window_order });
        match self.main_window {
            Some(wid) => {
                effects.push(self.focused_effect(wid));
            },
            None => {},
        }
        effects.push(Effect::UpdateActiveScreen);
        effects.push(Effect::PlaceMovedScratchpads);
        let mut requests = self.update_visible_windows();
        effects.append(&mut requests);
        effects.push(
            Effect::Finish { raised_window: focus.raised_window, new_wids: Vec::new(), is_resize: false },
        );
        proof {
            assert(views(effects@) =~= v.space_changed(spaces@, on_screen, focus).effects);
        }
        effects
    }

    pub(super) fn on_mouse_moved(&self, wsid: WindowServerId, key_focus_pid: Option<Pid>, focus: Focus) -> (effects: Vec<
        Effect,
    >)
        requires
            self.wf(),
        ensures
            self@.mouse_moved(wsid, key_focus_pid, focus).state == self@,
            views(effects@) == self@.mouse_moved(wsid, key_focus_pid, focus).effects,
    {
        let ghost v = self@;
        let mut effects: Vec<Effect> = Vec::new();
        proof {
            assert(views(effects@) =~= Seq::empty());
        }
        let wid = match self.window_ids.get(wsid) {
            Some(wid) => *wid,
            None => {
                return effects;
            },
        };
        let to_space = match self.windows.get(wid) {
            Some(window) => match self.best_space_for_window(&window.frame_monotonic) {
                Some(space) => space,
                None => {
                    return effects;
                },
            },
            None => {
                return effects;
            },
        };
        let current_main = match (self.main_window_space(), self.main_window) {
            (Some(space), Some(id)) => Some((space, id)),
            _ => None,
        };
        match (key_focus_pid, current_main) {
            (Some(pid), Some(main)) => {
                if main.1.pid != pid {
                    return effects;
                }
            },
            _ => {},
        }
        effects.push(
            Effect::Layout {
                event: LayoutEvent::MouseMovedOverWindow { over: (to_space, wid), current_main },
                from_mouse: true,
            },
        );
        effects.push(
            Effect::Finish { raised_window: focus.raised_window, new_wids: Vec::new(), is_resize: false },
        );
        proof {
            assert(views(effects@) =~= v.mouse_moved(wsid, key_focus_pid, focus).effects);
        }
        effects
    }

    pub(super) fn on_raise_failed(&self, windows: Vec<WindowId>, sequence_id: u64, quiet: Quiet) -> (effects: Vec<Effect>)
        ensures
            views(effects@) == self@.raise_failed(windows@, sequence_id, quiet).effects,
    {
        let mut effects: Vec<Effect> = Vec::new();
        effects.push(Effect::Raise(RaiseEvent::RaiseRequestFailed { windows, sequence_id }));
        match (quiet, self.main_window) {
            (Quiet::No, Some(wid)) => {
                // The raise didn't move the focus, so the layout selection goes
                // back to the window that has it.
                effects.push(self.focused_effect(wid));
            },
            _ => {},
        }
        proof {
            assert(views(effects@) =~= self@.raise_failed(windows@, sequence_id, quiet).effects);
        }
        effects
    }

    pub(super) fn on_scrolled(&self, delta_x: Number, delta_y: Number, alt_held: bool, focus: Focus) -> (effects: Vec<Effect>)
        ensures
            self@.scrolled(delta_x, delta_y, alt_held, focus).state == self@,
            views(effects@) == self@.scrolled(delta_x, delta_y, alt_held, focus).effects,
    {
        let mut effects: Vec<Effect> = Vec::new();
        if self.settings.scroll_enabled && alt_held {
            match self.active_space() {
                Some((space, frame)) => {
                    let delta = if delta_x.same_value(Number { bits: 0 }) {
                        delta_y
                    } else {
                        delta_x
                    };
                    effects.push(Effect::Scroll { space, delta, frame });
                },
                None => {},
            }
            effects.push(
                Effect::Finish { raised_window: focus.raised_window, new_wids: Vec::new(), is_resize: false },
            );
        }
        proof {
            assert(views(effects@) =~= self@.scrolled(delta_x, delta_y, alt_held, focus).effects);
        }
        effects
    }

    pub(super) fn on_command(&self, command: Command) -> (effects: Vec<Effect>)
        requires
            self.wf(),
        ensures
            views(effects@) == self@.commanded(command).effects,
    {
        let mut effects: Vec<Effect> = Vec::new();
        let ghost given = command;
        match command {
            Command::Layout(command) => {
                let space = match self.main_window_space() {
                    Some(space) => Some(space),
                    None => match self.active_space() {
                        Some((space, _)) => Some(space),
                        None => None,
                    },
                };
                effects.push(Effect::LayoutCommand { space, visible_spaces: self.managed_spaces(), command });
            },
            Command::Metrics(command) => {
                effects.push(Effect::Metrics(command));
            },
            Command::Reactor(ReactorCommand::Debug) => {
                effects.push(Effect::DebugTrees(self.managed_spaces()));
            },
            Command::Reactor(ReactorCommand::Serialize) => {
                effects.push(Effect::PrintLayout);
            },
            Command::Reactor(ReactorCommand::SaveAndExit) => {
                effects.push(Effect::SaveAndExit);
            },
            Command::Reactor(ReactorCommand::ToggleScratchpad { name, launch }) => {
                effects.push(Effect::ToggleScratchpad { name, launch });
            },
        }
        proof {
            assert(views(effects@) =~= self@.commanded(given).effects);
        }
        effects
    }

    /// Handles an event. `focus` tells which windows have the focus after it.
    ///
    /// The effects are performed in order.
    pub fn handle_event(&mut self, event: Event, focus: Focus) -> (effects: Vec<Effect>)
        requires
            old(self).wf(),
            event matches Event::WindowFrameChanged(wid, _, _, _, _) ==> old(self)@.windows.dom().contains(wid),
        ensures
            final(self).wf(),
            final(self)@ == old(self)@.handling(event, focus).state,
            views(effects@) == old(self)@.handling(event, focus).effects,
    {
        self.main_window = focus.main_window;
        let ghost v = self@;
        match event {
            Event::ApplicationLaunched { pid, info, handle, visible_windows, .. } => {
                let effects = self.on_launched(pid, info, handle, visible_windows, focus.app_main_window);
                finished(effects, focus)
            },
            Event::StartupComplete => finished(
                one(Effect::Layout { event: LayoutEvent::AppsRunningUpdated(self.apps.keys()), from_mouse: false }),
                focus,
            ),
            Event::ApplicationTerminated(pid) => finished(self.request_to(pid, Request::Terminate), focus),
            Event::ApplicationThreadTerminated(pid) => {
                let effects = self.on_thread_terminated(pid);
                finished(effects, focus)
            },
            Event::ScratchpadMoveEnded(id) => {
                let effects = self.on_move_ended(id);
                finished(effects, focus)
            },
            Event::ScratchpadShowExpired(id) => finished(one(Effect::CancelScratchpadShow(id)), focus),
            Event::ScreenSpacesChanged(spaces) => {
                self.screen_spaces = spaces;
                finished(nothing(), focus)
            },
            Event::ApplicationHiddenChanged(pid, hidden) => {
                self.on_hidden_changed(pid, hidden);
                finished(nothing(), focus)
            },
            Event::ApplicationActivated(_, _)
            | Event::ApplicationDeactivated(_)
            | Event::ApplicationGloballyActivated(_)
            | Event::ApplicationGloballyDeactivated(_)
            | Event::ApplicationMainWindowChanged(_, _, _) => finished(nothing(), focus),
            Event::WindowsDiscovered { pid, new, .. } => {
                let effects = self.on_windows_discovered(pid, new, focus.app_main_window);
                finished(effects, focus)
            },
            Event::WindowCreated(wid, info, mouse) => {
                self.on_window_created(wid, info, mouse);
                finished(nothing(), focus)
            },
            Event::WindowsOnScreenUpdated { pid, on_screen } => {
                let effects = self.on_screen_updated(pid, on_screen);
                finished(effects, focus)
            },
            Event::WindowBecameVisible(wid) => {
                let (mut effects, new_wids) = self.on_became_visible(wid);
                let ghost shown = views(effects@);
                effects.push(Effect::Finish { raised_window: focus.raised_window, new_wids, is_resize: false });
                proof {
                    assert(views(effects@) =~= v.became_visible(wid).then_finish(focus, new_wids@, false).effects);
                }
                effects
            },
            Event::WindowDestroyed(wid) => {
                let effects = self.on_window_destroyed(wid);
                finished(effects, focus)
            },
            Event::WindowFrameChanged(wid, frame, last_seen, requested, mouse) => self.on_frame_changed(
                wid,
                frame,
                last_seen,
                requested,
                mouse,
                focus,
            ),
            Event::ScreenParametersChanged { frames, spaces, scale_factors, converter, on_screen } => {
                let effects = self.on_screens_changed(frames, spaces, scale_factors, converter, on_screen);
                finished(effects, focus)
            },
            Event::SpaceChanged(spaces, on_screen) => self.on_space_changed(spaces, on_screen, focus),
            Event::LeftMouseDown(point) => {
                let effects = match self.active_space() {
                    Some((space, frame)) => one(Effect::HitTest { space, point, frame }),
                    None => nothing(),
                };
                finished(effects, focus)
            },
            Event::LeftMouseDragged(point) => {
                let effects = match self.active_space() {
                    Some((_, frame)) => one(Effect::Drag { point, frame }),
                    None => nothing(),
                };
                finished(effects, focus)
            },
            Event::MouseUp => {
                let effects = match self.active_space() {
                    Some((space, frame)) => one(Effect::EndInteraction { space, frame }),
                    None => nothing(),
                };
                self.in_drag = false;
                self.resizing_window = None;
                finished(effects, focus)
            },
            Event::MouseMovedOverWindow(wsid, key_focus_pid) => self.on_mouse_moved(wsid, key_focus_pid, focus),
            Event::RaiseCompleted { window_id, sequence_id } => finished(
                one(Effect::Raise(RaiseEvent::RaiseCompleted { window_id, sequence_id })),
                focus,
            ),
            Event::RaiseRequestFailed { windows, sequence_id, quiet } => finished(
                self.on_raise_failed(windows, sequence_id, quiet),
                focus,
            ),
            Event::RaiseTimeout { sequence_id } => finished(
                one(Effect::Raise(RaiseEvent::RaiseTimeout { sequence_id })),
                focus,
            ),
            Event::ScrollWheel { delta_x, delta_y, alt_held } => self.on_scrolled(delta_x, delta_y, alt_held, focus),
            Event::Command(command) => finished(self.on_command(command), focus),
            Event::ConfigChanged(settings) => {
                self.settings = settings;
                finished(one(Effect::ConfigureLayout), focus)
            },
        }
    }
}

fn nothing() -> (effects: Vec<Effect>)
    ensures
        views(effects@) == Seq::<EffectView>::empty(),
{
    let effects: Vec<Effect> = Vec::new();
    proof {
        assert(views(effects@) =~= Seq::empty());
    }
    effects
}

fn one(effect: Effect) -> (effects: Vec<Effect>)
    ensures
        views(effects@) == seq![effect@],
{
    let mut effects: Vec<Effect> = Vec::new();
    effects.push(effect);
    proof {
        assert(views(effects@) =~= seq![effect@]);
    }
    effects
}

/// The effects, and then the end of the event.
fn finished(effects: Vec<Effect>, focus: Focus) -> (all: Vec<Effect>)
    ensures
        views(all@) == views(effects@).push(
            EffectView::Finish { raised_window: focus.raised_window, new_wids: Seq::empty(), is_resize: false },
        ),
{
    let ghost before = views(effects@);
    let mut effects = effects;
    effects.push(Effect::Finish { raised_window: focus.raised_window, new_wids: Vec::new(), is_resize: false });
    proof {
        assert(views(effects@) =~= before.push(
            EffectView::Finish { raised_window: focus.raised_window, new_wids: Seq::empty(), is_resize: false },
        ));
    }
    effects
}

} // verus!
