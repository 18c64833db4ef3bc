//! The windows that are known, and what the layout is told of them.
use vstd::prelude::*;

use crate::apps::WindowInfo;
use crate::effects::{views, Effect, LayoutEvent, LayoutWindowInfo};
use crate::events::WindowsOnScreen;
use crate::ids::{Pid, WindowId, WindowServerId};
use crate::ordered::{in_order, OrdMap};
use crate::reactor_model::{
    found_window, indices, tell_layout, with_infos, with_reported_frames, ReactorView, WindowState,
};
use crate::request::TransactionId;
use crate::sequences::{each, lemma_each_step, lemma_filter_step, lemma_take_all, lemma_to_set_step};
use crate::space::SpaceId;
use super::Reactor;

verus! {

impl Reactor {
    /// Takes note of windows that were found.
    pub(super) fn add_windows(&mut self, found: Vec<(WindowId, WindowInfo)>)
        requires
            old(self).wf(),
        ensures
            final(self).wf(),
            final(self)@ == old(self)@.discovered(found@),
    {
        let ghost all = found@;
        let ghost before = *self;
        for entry in it: found.into_iter()
            invariant
                it.seq() == all,
                self.wf(),
                self@ == before@.discovered(all.take(it.index() as int)),
        {
            let ghost i = it.index() as int;
            proof {
                assert(all.take(i + 1).drop_last() =~= all.take(i));
                assert(all.take(i + 1).last() == entry);
            }
            let (wid, info) = entry;
            match info.sys_id {
                Some(wsid) => {
                    self.window_ids.insert(wsid, wid);
                },
                None => {},
            }
            self.windows.insert(wid, window_state(info));
        }
        proof {
            lemma_take_all(all);
        }
    }

    /// Takes note of a list of all windows on screen, and of their frames.
    pub(super) fn update_complete_window_server_info(&mut self, on_screen: WindowsOnScreen)
        requires
            old(self).wf(),
        ensures
            final(self).wf(),
            final(self)@ == old(self)@.with_all_on_screen(on_screen.visible@, on_screen.info@),
    {
        let ghost before = *self;
        let mut i: usize = 0;
        while i < on_screen.info.len()
            invariant
                self.wf(),
                i <= on_screen.info.len(),
                self.window_ids@ == before.window_ids@,
                self@ == (ReactorView {
                    windows: with_reported_frames(
                        before.windows@,
                        before.window_ids@,
                        on_screen.info@.take(i as int),
                    ),
                    ..before@
                }),
            decreases on_screen.info.len() - i,
        {
            let info = on_screen.info[i];
            proof {
                let now = on_screen.info@.take(i + 1);
                assert(now.drop_last() =~= on_screen.info@.take(i as int));
                assert(now.last() == info);
            }
            if info.layer == 0 {
                let known = match self.window_ids.get(info.id) {
                    Some(wid) => Some(*wid),
                    None => None,
                };
                match known {
                    Some(wid) => {
                        match self.windows.get_mut(wid) {
                            Some(window) => {
                                // This update is taken to come from after the
                                // last write. Typically the window is on a
                                // different space than the one before.
                                window.frame_monotonic = info.frame;
                            },
                            None => {},
                        }
                    },
                    None => {},
                }
            }
            i += 1;
        }
        proof {
            lemma_take_all(on_screen.info@);
        }
        self.update_partial_window_server_info(on_screen);
    }

    /// Takes note of a list of the windows on screen.
    pub(super) fn update_partial_window_server_info(&mut self, on_screen: WindowsOnScreen)
        requires
            old(self).wf(),
        ensures
            final(self).wf(),
            final(self)@ == old(self)@.with_on_screen(on_screen.visible@, on_screen.info@),
    {
        // The list is always complete, also where it came for one app. It
        // replaces the one before, so that no stale entries add up.
        let ghost before = *self;
        let ghost visible = on_screen.visible@;
        let mut on: OrdMap<WindowServerId, ()> = OrdMap::new();
        let mut i: usize = 0;
        proof {
            assert(on@.dom() =~= visible.take(0).to_set());
        }
        while i < on_screen.visible.len()
            invariant
                on.wf(),
                visible == on_screen.visible@,
                i <= visible.len(),
                on@.dom() == visible.take(i as int).to_set(),
            decreases visible.len() - i,
        {
            let wsid = on_screen.visible[i];
            on.insert(wsid, ());
            proof {
                lemma_to_set_step(visible, i as int);
                assert(on@.dom() =~= visible.take(i + 1).to_set());
            }
            i += 1;
        }
        self.visible_windows = on;
        let mut i: usize = 0;
        while i < on_screen.info.len()
            invariant
                self.wf(),
                i <= on_screen.info.len(),
                self@ == (ReactorView {
                    visible_windows: visible.take(visible.len() as int).to_set(),
                    window_server_info: with_infos(
                        before.window_server_info@,
                        on_screen.info@.take(i as int),
                    ),
                    ..before@
                }),
            decreases on_screen.info.len() - i,
        {
            let info = on_screen.info[i];
            proof {
                let now = on_screen.info@.take(i + 1);
                assert(now.drop_last() =~= on_screen.info@.take(i as int));
                assert(now.last() == info);
            }
            self.window_server_info.insert(info.id, info);
            i += 1;
        }
        proof {
            lemma_take_all(on_screen.info@);
            lemma_take_all(visible);
        }
    }

    /// Forgets the moves of the app's windows.
    pub(super) fn drop_moves_of(&mut self, pid: Pid)
        requires
            old(self).wf(),
        ensures
            final(self).wf(),
            final(self)@ == old(self)@.without_moves_of(pid),
    {
        let ghost before = *self;
        let ghost moves = before.pending_space_moves@;
        let wids = self.pending_space_moves.keys();
        let mut i: usize = 0;
        proof {
            assert(moves.remove_keys(wids@.take(0).to_set().filter(|w: WindowId| w.pid == pid)) =~= moves);
        }
        while i < wids.len()
            invariant
                self.wf(),
                i <= wids.len(),
                wids@.to_set() == moves.dom(),
                self@ == (ReactorView {
                    pending_space_moves: moves.remove_keys(
                        wids@.take(i as int).to_set().filter(|w: WindowId| w.pid == pid),
                    ),
                    ..before@
                }),
            decreases wids.len() - i,
        {
            let wid = wids[i];
            let ghost now = self.pending_space_moves@;
            if wid.pid == pid {
                self.pending_space_moves.remove(wid);
            }
            proof {
                lemma_to_set_step(wids@, i as int);
                assert(self.pending_space_moves@ =~= moves.remove_keys(
                    wids@.take(i + 1).to_set().filter(|w: WindowId| w.pid == pid),
                ));
            }
            i += 1;
        }
        proof {
            lemma_take_all(wids@);
        }
    }

    /// The windows of the app that are preferred so much as scratchpads, with
    /// their properties.
    pub(super) fn preferred_infos(&self, pid: Pid, main: Option<WindowId>, preference: u8) -> (infos: Vec<
        (WindowId, LayoutWindowInfo),
    >)
        requires
            self.wf(),
        ensures
            infos@ == self@.with_info(self@.preferred(pid, main, preference as int)),
    {
        let ghost v = self@;
        let ghost p = |w: WindowId| w.pid == pid && v.preference(w, main) == preference as int;
        let wids = self.windows.keys();
        let mut infos: Vec<(WindowId, LayoutWindowInfo)> = Vec::new();
        let mut i: usize = 0;
        proof {
            assert(wids@.take(0).filter(p) =~= Seq::empty()) by {
                reveal(Seq::filter);
            }
        }
        while i < wids.len()
            invariant
                self.wf(),
                v == self@,
                i <= wids.len(),
                wids@.to_set() == v.windows.dom(),
                p == (|w: WindowId| w.pid == pid && v.preference(w, main) == preference as int),
                infos@ == v.with_info(wids@.take(i as int).filter(p)),
            decreases wids.len() - i,
        {
            let wid = wids[i];
            proof {
                lemma_filter_step(wids@, p, i as int);
                assert(wids@.to_set().contains(wid));
            }
            if wid.pid == pid {
                let is_main = match main {
                    Some(m) => m == wid,
                    None => false,
                };
                let here: u8 = if is_main {
                    0
                } else if self.window_is_visible(wid) {
                    1
                } else {
                    2
                };
                if here == preference {
                    match self.layout_window_info(wid) {
                        Some(info) => {
                            infos.push((wid, info));
                        },
                        None => {},
                    }
                }
            }
            proof {
                assert(infos@ =~= v.with_info(wids@.take(i + 1).filter(p)));
            }
            i += 1;
        }
        proof {
            lemma_take_all(wids@);
        }
        infos
    }

    /// The windows that the layout may take as scratchpads, in the order in
    /// which it takes them.
    pub(super) fn scratchpad_candidates(&self, pid: Pid, main: Option<WindowId>) -> (infos: Vec<(WindowId, LayoutWindowInfo)>)
        requires
            self.wf(),
        ensures
            infos@ == self@.with_info(self@.candidates(pid, main)),
    {
        let mut infos = self.preferred_infos(pid, main, 0);
        let mut seen = self.preferred_infos(pid, main, 1);
        let mut unseen = self.preferred_infos(pid, main, 2);
        infos.append(&mut seen);
        infos.append(&mut unseen);
        proof {
            assert(infos@ =~= self@.with_info(self@.candidates(pid, main)));
        }
        infos
    }

    /// The known windows of the app that the window server reports on screen.
    pub(super) fn on_screen_windows(&self, pid: Pid) -> (wids: Vec<WindowId>)
        requires
            self.wf(),
        ensures
            wids@ == in_order(self@.on_screen(pid)),
            wids@.to_set() == self@.on_screen(pid),
    {
        let ghost v = self@;
        let wsids = self.visible_windows.keys();
        let mut on: OrdMap<WindowId, ()> = OrdMap::new();
        let mut i: usize = 0;
        while i < wsids.len()
            invariant
                self.wf(),
                on.wf(),
                v == self@,
                wsids@.to_set() == v.visible_windows,
                i <= wsids.len(),
                forall|w: WindowId| #[trigger]
                    on@.dom().contains(w) <==> w.pid == pid && v.windows.dom().contains(w) && exists|j: int|
                        0 <= j < i && v.window_ids.dom().contains(#[trigger] wsids@[j]) && v.window_ids[wsids@[j]] == w,
            decreases wsids.len() - i,
        {
            let wsid = wsids[i];
            let ghost before = on@;
            match self.window_ids.get(wsid) {
                Some(wid) => {
                    if wid.pid == pid && self.windows.contains(*wid) {
                        on.insert(*wid, ());
                    }
                },
                None => {},
            }
            proof {
                assert forall|w: WindowId| #[trigger] on@.dom().contains(w) <==> w.pid == pid
                    && v.windows.dom().contains(w) && exists|j: int|
                    0 <= j < i + 1 && v.window_ids.dom().contains(#[trigger] wsids@[j]) && v.window_ids[wsids@[j]]
                        == w by {
                    if before.dom().contains(w) {
                        let j = choose|j: int|
                            0 <= j < i && v.window_ids.dom().contains(#[trigger] wsids@[j])
                                && v.window_ids[wsids@[j]] == w;
                        assert(0 <= j < i + 1);
                    }
                    if v.window_ids.dom().contains(wsid) && v.window_ids[wsid] == w {
                        assert(wsids@[i as int] == wsid);
                    }
                }
            }
            i += 1;
        }
        proof {
            let set = v.on_screen(pid);
            assert forall|w: WindowId| on@.dom().contains(w) == set.contains(w) by {
                if on@.dom().contains(w) {
                    let j = choose|j: int|
                        0 <= j < i && v.window_ids.dom().contains(#[trigger] wsids@[j])
                            && v.window_ids[wsids@[j]] == w;
                    assert(wsids@.to_set().contains(wsids@[j]));
                    assert(v.visible_windows.contains(wsids@[j]));
                }
                if set.contains(w) {
                    let wsid = choose|wsid: WindowServerId| #[trigger]
                        v.visible_windows.contains(wsid) && v.window_ids.dom().contains(wsid) && v.window_ids[wsid]
                            == w;
                    assert(wsids@.to_set().contains(wsid));
                    let j = choose|j: int| 0 <= j < wsids@.len() && wsids@[j] == wsid;
                    assert(v.window_ids.dom().contains(wsids@[j]));
                }
            }
            assert(on@.dom() =~= set);
        }
        on.keys()
    }

    /// The windows of `wids` on a space, with their properties.
    pub(super) fn infos_on_space(&self, wids: &Vec<WindowId>, space: SpaceId) -> (infos: Vec<(WindowId, LayoutWindowInfo)>)
        requires
            self.wf(),
            forall|i: int| 0 <= i < wids@.len() ==> self@.windows.dom().contains(#[trigger] wids@[i]),
        ensures
            infos@ == self@.with_info(
                wids@.filter(
                    |w: WindowId| self@.best_space(self@.windows[w].frame_monotonic) == Some(space),
                ),
            ),
    {
        let ghost v = self@;
        let ghost p = |w: WindowId| v.best_space(v.windows[w].frame_monotonic) == Some(space);
        let mut infos: Vec<(WindowId, LayoutWindowInfo)> = Vec::new();
        let mut i: usize = 0;
        proof {
            assert(wids@.take(0).filter(p) =~= Seq::empty()) by {
                reveal(Seq::filter);
            }
        }
        while i < wids.len()
            invariant
                self.wf(),
                v == self@,
                i <= wids.len(),
                forall|i: int| 0 <= i < wids@.len() ==> self@.windows.dom().contains(#[trigger] wids@[i]),
                p == (|w: WindowId| v.best_space(v.windows[w].frame_monotonic) == Some(space)),
                infos@ == v.with_info(wids@.take(i as int).filter(p)),
            decreases wids.len() - i,
        {
            let wid = wids[i];
            proof {
                lemma_filter_step(wids@, p, i as int);
                assert(v.windows.dom().contains(wids@[i as int]));
            }
            match self.windows.get(wid) {
                Some(window) => {
                    let on_space = match self.best_space_for_window(&window.frame_monotonic) {
                        Some(s) => s == space,
                        None => false,
                    };
                    if on_space {
                        match self.layout_window_info(wid) {
                            Some(info) => {
                                infos.push((wid, info));
                            },
                            None => {},
                        }
                    }
                },
                None => {},
            }
            proof {
                assert(infos@ =~= v.with_info(wids@.take(i + 1).filter(p)));
            }
            i += 1;
        }
        proof {
            lemma_take_all(wids@);
        }
        infos
    }

    /// Whether a screen before this one shows the same space.
    pub(super) fn space_shown_before(&self, screen: usize) -> (b: bool)
        requires
            screen < self@.screens.len(),
        ensures
            b == exists|j: int|
                0 <= j < screen && (#[trigger] self@.screens[j]).space == self@.screens[screen as int].space,
    {
        let space = self.screens[screen].space;
        let mut j: usize = 0;
        while j < screen
            invariant
                j <= screen < self.screens.len(),
                space == self.screens@[screen as int].space,
                forall|k: int| 0 <= k < j ==> (#[trigger] self.screens@[k]).space != space,
            decreases screen - j,
        {
            if self.screens[j].space == space {
                proof {
                    assert(self@.screens[j as int].space == space);
                }
                return true;
            }
            j += 1;
        }
        false
    }

    pub(super) fn on_windows_discovered(
        &mut self,
        pid: Pid,
        found: Vec<(WindowId, WindowInfo)>,
        app_main_window: Option<WindowId>,
    ) -> (effects: Vec<Effect>)
        requires
            old(self).wf(),
        ensures
            final(self).wf(),
            final(self)@ == old(self)@.discovered(found@),
            views(effects@) == old(self)@.discovered(found@).tell_discovered(pid, app_main_window),
    {
        // The window server, not accessibility, tells which windows are
        // visible: the accessibility interface reports that there are no
        // visible windows when at a login screen, for instance. So what it
        // reports never removes known windows from the visible ones.
        self.add_windows(found);
        let ghost v = self@;
        let ghost f = |k: int| v.tell_windows_on(pid, k);
        let mut effects: Vec<Effect> = Vec::new();
        let candidates = self.scratchpad_candidates(pid, app_main_window);
        effects.push(Effect::Layout { event: LayoutEvent::ScratchpadCandidates(candidates), from_mouse: false });
        let ghost first = views(effects@);
        let wids = self.on_screen_windows(pid);
        proof {
            assert forall|i: int| 0 <= i < wids@.len() implies v.windows.dom().contains(#[trigger] wids@[i]) by {
                assert(wids@.to_set().contains(wids@[i]));
            }
            assert(first =~= seq![
                tell_layout(
                    crate::effects::LayoutEventView::ScratchpadCandidates(
                        v.with_info(v.candidates(pid, app_main_window)),
                    ),
                ),
            ]);
            assert(indices(v.screens.len()).take(0) =~= Seq::empty());
        }
        let mut k: usize = 0;
        while k < self.screens.len()
            invariant
                self.wf(),
                v == self@,
                k <= v.screens.len(),
                wids@ == in_order(v.on_screen(pid)),
                forall|i: int| 0 <= i < wids@.len() ==> v.windows.dom().contains(#[trigger] wids@[i]),
                f == (|k: int| v.tell_windows_on(pid, k)),
                views(effects@) == first + each(indices(v.screens.len()).take(k as int), f),
            decreases self.screens.len() - k,
        {
            let ghost before = views(effects@);
            proof {
                lemma_each_step(indices(v.screens.len()), f, k as int);
            }
            match self.screens[k].space {
                Some(space) => {
                    let windows = if self.space_shown_before(k) {
                        Vec::new()
                    } else {
                        self.infos_on_space(&wids, space)
                    };
                    proof {
                        assert(windows@ =~= v.with_info(v.windows_on(pid, k as int)));
                    }
                    effects.push(
                        Effect::Layout {
                            event: LayoutEvent::WindowsOnScreenUpdated(space, pid, windows),
                            from_mouse: false,
                        },
                    );
                },
                None => {},
            }
            proof {
                assert(views(effects@) =~= before + f(k as int));
                assert(views(effects@) =~= first + each(indices(v.screens.len()).take(k + 1), f));
            }
            k += 1;
        }
        proof {
            lemma_take_all(indices(v.screens.len()));
        }
        // The main window may have just been added to the layout, which has to
        // know that it is focused.
        let ghost before = views(effects@);
        match self.main_window {
            Some(main_window) => {
                if main_window.pid == pid {
                    effects.push(self.focused_effect(main_window));
                }
            },
            None => {},
        }
        proof {
            assert(views(effects@) =~= v.tell_discovered(pid, app_main_window));
        }
        effects
    }

    pub(super) fn focused_effect(&self, wid: WindowId) -> (effect: Effect)
        ensures
            effect@ == self@.tell_focused(wid),
    {
        Effect::Layout { event: LayoutEvent::WindowFocused(self.managed_spaces(), wid), from_mouse: false }
    }
}

/// The state of a window that was just found.
pub(super) fn window_state(info: WindowInfo) -> (window: WindowState)
    ensures
        window == found_window(info),
{
    WindowState {
        title: info.title,
        frame_monotonic: info.frame,
        is_ax_standard: info.is_standard,
        is_resizable: info.is_resizable,
        ax_role: info.ax_role,
        ax_subrole: info.ax_subrole,
        last_sent_txid: TransactionId(0),
        window_server_id: info.sys_id,
    }
}

} // verus!
