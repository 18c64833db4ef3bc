//! What the layout answers, and what becomes of it.
use vstd::prelude::*;

use crate::effects::{views, Effect, EventResponse, RaiseEvent, RaiseRequest, ResponseContext};
use crate::ids::{Pid, WindowId, WindowServerId};
use crate::ordered::{lemma_rising_len, OrdMap};
use crate::reactor_model::{seq_of, with_overrides, ReactorView};
use crate::request::AppThreadHandle;
use crate::sequences::{
    each, lemma_each_step, lemma_filter_push, lemma_filter_step, lemma_take_all, lemma_to_set_step,
};
use crate::space::SpaceId;
use super::Reactor;

verus! {

impl Reactor {
    /// Whether the window counts when the order of the windows is compared.
    pub(super) fn should_compare_visible_window(&self, wsid: WindowServerId) -> (b: bool)
        requires
            self.wf(),
        ensures
            b == self@.comparable(wsid),
    {
        let frame = match self.window_server_info.get(wsid) {
            Some(info) => {
                if info.layer != 0 {
                    return false;
                }
                info.frame
            },
            None => {
                return false;
            },
        };
        let mut i: usize = 0;
        while i < self.screens.len()
            invariant
                self.wf(),
                self@.window_server_info.dom().contains(wsid),
                self@.window_server_info[wsid].layer == 0,
                frame == self@.window_server_info[wsid].frame,
                i <= self.screens.len(),
                forall|j: int|
                    0 <= j < i && self@.screens[j].space is Some ==> !(#[trigger] self@.overlap(j, frame)).visible,
            decreases self.screens.len() - i,
        {
            let screen = self.screens[i];
            if screen.space.is_some() {
                let overlap = self.measurements.overlap(screen.frame, frame);
                proof {
                    assert(overlap == self@.overlap(i as int, frame));
                }
                if overlap.visible {
                    return true;
                }
            }
            i += 1;
        }
        false
    }

    /// The windows to raise, by the ids of the window server. Each is there
    /// once.
    pub(super) fn desired_wsids(&self, raise: &Vec<WindowId>) -> (wsids: OrdMap<WindowServerId, ()>)
        requires
            self.wf(),
        ensures
            wsids.wf(),
            wsids@.dom() == self@.desired(raise@),
    {
        let ghost v = self@;
        let ghost f = |w: WindowId| seq_of(v.wsid_of(w));
        let mut wsids: OrdMap<WindowServerId, ()> = OrdMap::new();
        let mut i: usize = 0;
        proof {
            assert(wsids@.dom() =~= each(raise@.take(0), f).to_set());
        }
        while i < raise.len()
            invariant
                self.wf(),
                wsids.wf(),
                v == self@,
                i <= raise.len(),
                f == (|w: WindowId| seq_of(v.wsid_of(w))),
                wsids@.dom() == each(raise@.take(i as int), f).to_set(),
            decreases raise.len() - i,
        {
            let wid = raise[i];
            let ghost before = each(raise@.take(i as int), f);
            proof {
                lemma_each_step(raise@, f, i as int);
            }
            let wsid = match self.windows.get(wid) {
                Some(window) => window.window_server_id,
                None => None,
            };
            match wsid {
                Some(wsid) => {
                    wsids.insert(wsid, ());
                    proof {
                        assert(before + f(wid) =~= before.push(wsid));
                        before.lemma_push_to_set_commute(wsid);
                        assert(wsids@.dom() =~= (before + f(wid)).to_set());
                    }
                },
                None => {
                    proof {
                        assert(before + f(wid) =~= before);
                    }
                },
            }
            i += 1;
        }
        proof {
            lemma_take_all(raise@);
        }
        wsids
    }

    /// Whether the windows in front, from `start` on, are those to raise.
    pub(super) fn windows_in_front(&self, raise: &Vec<WindowId>, order: &Vec<WindowServerId>, start: usize) -> (b: bool)
        requires
            self.wf(),
            start <= order@.len(),
        ensures
            b == self@.in_front(raise@, order@.skip(start as int)),
    {
        let ghost v = self@;
        let ghost rest = order@.skip(start as int);
        let ghost p = |w: WindowServerId| v.comparable(w);
        let desired = self.desired_wsids(raise);
        let count = desired.len();
        let ghost want = v.desired(raise@);
        proof {
            desired.lemma_keys();
            lemma_rising_len(desired.key_seq(), want);
            assert(rest.take(0).filter(p) =~= Seq::empty()) by {
                reveal(Seq::filter);
            }
        }
        let mut top: Vec<WindowServerId> = Vec::new();
        let mut i: usize = start;
        while i < order.len() && top.len() < count
            invariant
                self.wf(),
                v == self@,
                rest == order@.skip(start as int),
                start <= i <= order@.len(),
                count == want.len(),
                p == (|w: WindowServerId| v.comparable(w)),
                top@ == rest.take(i - start).filter(p),
                top@.len() <= count,
            decreases order.len() - i,
        {
            let wsid = order[i];
            proof {
                lemma_filter_step(rest, p, i - start);
                assert(rest[i - start] == wsid);
            }
            if self.should_compare_visible_window(wsid) {
                top.push(wsid);
            }
            i += 1;
        }
        proof {
            let all = rest.filter(p);
            if top@.len() == want.len() {
                crate::sequences::lemma_filter_prefix(rest, p, i - start);
                assert(crate::reactions::up_to(all, want.len()) =~= top@);
            } else {
                assert(i == order@.len());
                lemma_take_all(rest);
                assert(crate::reactions::up_to(all, want.len()) =~= top@);
            }
        }
        same_members(&top, &desired)
    }

    /// Whether raising the windows would change nothing.
    pub(super) fn response_is_noop(&self, response: &EventResponse, order: &Vec<WindowServerId>, focus_wsid: Option<
        WindowServerId,
    >) -> (b: bool)
        requires
            self.wf(),
        ensures
            b == self@.is_noop(response.raise_windows@, response.focus_window, order@, focus_wsid),
    {
        match response.focus_window {
            Some(_) => {
                // Attempt to match the focus window with the top visible window.
                let in_front = match focus_wsid {
                    Some(wsid) => order.len() > 0 && order[0] == wsid,
                    None => false,
                };
                if !in_front {
                    return false;
                }
                proof {
                    assert(order@.skip(1) =~= order@.drop_first());
                }
                self.windows_in_front(&response.raise_windows, order, 1)
            },
            None => {
                proof {
                    assert(order@.skip(0) =~= order@);
                }
                self.windows_in_front(&response.raise_windows, order, 0)
            },
        }
    }

    /// Clears the windows of a response that would change nothing. A focus
    /// window stays in it as long as there is something to raise.
    pub fn filter_response(
        &self,
        response: EventResponse,
        visible_window_order: &Vec<WindowServerId>,
        focus_wsid: Option<WindowServerId>,
    ) -> (filtered: EventResponse)
        requires
            self.wf(),
        ensures
            filtered.frame_overrides == response.frame_overrides,
            self@.is_noop(response.raise_windows@, response.focus_window, visible_window_order@, focus_wsid)
                ==> filtered.raise_windows@ == Seq::<WindowId>::empty() && filtered.focus_window is None,
            !self@.is_noop(response.raise_windows@, response.focus_window, visible_window_order@, focus_wsid)
                ==> filtered == response,
    {
        let mut response = response;
        if self.response_is_noop(&response, visible_window_order, focus_wsid) {
            response.focus_window = None;
            response.raise_windows.clear();
        }
        response
    }

    /// The known windows, grouped by their app and space.
    pub(super) fn windows_by_app_and_screen(&self, raise: &Vec<WindowId>) -> (groups: Vec<Vec<WindowId>>)
        requires
            self.wf(),
        ensures
            groups@.map_values(|g: Vec<WindowId>| g@) == self@.grouped(raise@),
    {
        let ghost v = self@;
        let ghost p = |w: WindowId| v.windows.dom().contains(w);
        let mut keys: Vec<(Pid, Option<SpaceId>)> = Vec::new();
        let mut groups: Vec<Vec<WindowId>> = Vec::new();
        let mut i: usize = 0;
        proof {
            assert(raise@.take(0).filter(p) =~= Seq::empty()) by {
                reveal(Seq::filter);
            }
        }
        while i < raise.len()
            invariant
                self.wf(),
                v == self@,
                i <= raise.len(),
                p == (|w: WindowId| v.windows.dom().contains(w)),
                keys@ == v.groups_in(raise@.take(i as int).filter(p)),
                keys@.no_duplicates(),
                groups@.len() == keys@.len(),
                forall|k: int|
                    0 <= k < keys@.len() ==> (#[trigger] groups@[k])@ == raise@.take(i as int).filter(p).filter(
                        |w: WindowId| v.group_of(w) == keys@[k],
                    ),
            decreases raise.len() - i,
        {
            let wid = raise[i];
            let ghost known = raise@.take(i as int).filter(p);
            let ghost keys0 = keys@;
            let ghost groups0 = groups@;
            proof {
                lemma_filter_step(raise@, p, i as int);
            }
            match self.windows.get(wid) {
                Some(window) => {
                    let key = (wid.pid, self.best_space_for_window(&window.frame_monotonic));
                    let at = position_of(&keys, key);
                    proof {
                        assert(known.push(wid).drop_last() =~= known);
                        assert(key == v.group_of(wid));
                    }
                    match at {
                        Some(k) => {
                            groups[k].push(wid);
                        },
                        None => {
                            keys.push(key);
                            let mut group: Vec<WindowId> = Vec::new();
                            group.push(wid);
                            groups.push(group);
                        },
                    }
                    proof {
                        let now = known.push(wid);
                        assert(keys@ == v.groups_in(now));
                        assert forall|k: int| 0 <= k < keys@.len() implies (#[trigger] groups@[k])@ == now.filter(
                            |w: WindowId| v.group_of(w) == keys@[k],
                        ) by {
                            let g = keys@[k];
                            let q = |w: WindowId| v.group_of(w) == g;
                            lemma_filter_push(known, q, wid);
                            if k < keys0.len() {
                                assert(groups0[k]@ == known.filter(q));
                                if g == key {
                                    assert(at == Some(k as usize));
                                }
                            } else {
                                assert(known.filter(q) =~= Seq::empty()) by {
                                    lemma_no_group(v, known, g);
                                }
                            }
                        }
                    }
                },
                None => {},
            }
            i += 1;
        }
        proof {
            lemma_take_all(raise@);
            let known = raise@.filter(p);
            assert(groups@.map_values(|g: Vec<WindowId>| g@) =~= v.grouped(raise@)) by {
                assert forall|k: int| 0 <= k < keys@.len() implies (#[trigger] groups@[k])@ == v.grouped(raise@)[k] by {
                    assert(keys@[k] == v.groups_in(known)[k]);
                }
            }
        }
        groups
    }

    pub(super) fn add_handle(&self, handles: &mut OrdMap<Pid, AppThreadHandle>, pid: Pid)
        requires
            self.wf(),
            old(handles).wf(),
        ensures
            final(handles).wf(),
            final(handles)@ == (if self@.apps.dom().contains(pid) {
                old(handles)@.insert(pid, self@.apps[pid].handle)
            } else {
                old(handles)@
            }),
    {
        match self.apps.get(pid) {
            Some(app) => {
                handles.insert(pid, app.handle);
            },
            None => {},
        }
    }

    /// The handles of the apps of the windows.
    pub(super) fn app_handles(&self, raise: &Vec<WindowId>, focus: Option<WindowId>) -> (handles: OrdMap<
        Pid,
        AppThreadHandle,
    >)
        requires
            self.wf(),
        ensures
            handles.wf(),
            handles@ == self@.handles_of(raise@ + seq_of(focus)),
    {
        let ghost v = self@;
        let mut handles: OrdMap<Pid, AppThreadHandle> = OrdMap::new();
        let mut i: usize = 0;
        proof {
            assert(handles@ =~= v.handles_of(raise@.take(0)));
        }
        while i < raise.len()
            invariant
                self.wf(),
                handles.wf(),
                v == self@,
                i <= raise.len(),
                handles@ == v.handles_of(raise@.take(i as int)),
            decreases raise.len() - i,
        {
            self.add_handle(&mut handles, raise[i].pid);
            proof {
                lemma_handles_step(v, raise@.take(i as int), raise@[i as int]);
                assert(raise@.take(i as int).push(raise@[i as int]) =~= raise@.take(i + 1));
            }
            i += 1;
        }
        proof {
            lemma_take_all(raise@);
        }
        match focus {
            Some(wid) => {
                self.add_handle(&mut handles, wid.pid);
                proof {
                    lemma_handles_step(v, raise@, wid);
                    assert(raise@.push(wid) =~= raise@ + seq_of(focus));
                }
            },
            None => {
                proof {
                    assert(raise@ =~= raise@ + seq_of(focus));
                }
            },
        }
        handles
    }

    pub(super) fn raise_effect(&self, raise: &Vec<WindowId>, focus: Option<WindowId>, from_mouse: bool) -> (effect: Effect)
        requires
            self.wf(),
        ensures
            effect@ == self@.raising(raise@, focus, from_mouse),
    {
        let app_handles = self.app_handles(raise, focus);
        let raise_windows = self.windows_by_app_and_screen(raise);
        let focus_window = match focus {
            Some(wid) => {
                // The mouse is not warped if the event itself is caused by mouse
                // movement.
                let warp = if self.settings.mouse_follows_focus && !from_mouse {
                    match self.windows.get(wid) {
                        Some(window) => Some(window.frame_monotonic),
                        None => None,
                    }
                } else {
                    None
                };
                Some((wid, warp))
            },
            None => None,
        };
        Effect::Raise(RaiseEvent::RaiseRequest(RaiseRequest { raise_windows, focus_window, app_handles }))
    }

    /// Takes in a response of the layout.
    pub fn apply_layout_response(&mut self, response: EventResponse, context: ResponseContext) -> (effects: Vec<
        Effect,
    >)
        requires
            old(self).wf(),
        ensures
            final(self).wf(),
            final(self)@ == old(self)@.responding(response, context).state,
            views(effects@) == old(self)@.responding(response, context).effects,
    {
        let ghost given = response;
        let response = match &context.visible_window_order {
            Some(order) => self.filter_response(response, order, context.focus_wsid),
            None => response,
        };
        let mut effects: Vec<Effect> = Vec::new();
        if response.raise_windows.len() > 0 || response.focus_window.is_some() {
            effects.push(self.raise_effect(&response.raise_windows, response.focus_window, context.from_mouse));
        }
        let ghost before = *self;
        let overrides = response.frame_overrides;
        let mut i: usize = 0;
        while i < overrides.len()
            invariant
                self.wf(),
                i <= overrides.len(),
                self@ == (ReactorView {
                    pending_frame_overrides: with_overrides(
                        before.pending_frame_overrides@,
                        overrides@.take(i as int),
                    ),
                    ..before@
                }),
            decreases overrides.len() - i,
        {
            let (wid, frame) = overrides[i];
            proof {
                let now = overrides@.take(i + 1);
                assert(now.drop_last() =~= overrides@.take(i as int));
                assert(now.last() == overrides@[i as int]);
            }
            self.pending_frame_overrides.insert(wid, frame);
            i += 1;
        }
        proof {
            lemma_take_all(overrides@);
            assert(views(effects@) =~= before@.responding(given, context).effects);
        }
        effects
    }
}

proof fn lemma_handles_step(v: ReactorView, wids: Seq<WindowId>, wid: WindowId)
    ensures
        v.handles_of(wids.push(wid)) == (if v.apps.dom().contains(wid.pid) {
            v.handles_of(wids).insert(wid.pid, v.apps[wid.pid].handle)
        } else {
            v.handles_of(wids)
        }),
{
    let longer = wids.push(wid);
    let a = v.handles_of(longer);
    let b = if v.apps.dom().contains(wid.pid) {
        v.handles_of(wids).insert(wid.pid, v.apps[wid.pid].handle)
    } else {
        v.handles_of(wids)
    };
    assert forall|p: Pid|
        #![trigger a.dom().contains(p)]
        #![trigger b.dom().contains(p)]
        a.dom().contains(p) == b.dom().contains(p) && (a.dom().contains(p) ==> a[p] == b[p]) by {
        if a.dom().contains(p) {
            let i = choose|i: int| 0 <= i < longer.len() && (#[trigger] longer[i]).pid == p;
            if i < wids.len() {
                assert(wids[i].pid == p);
            }
        }
        if b.dom().contains(p) {
            if exists|i: int| 0 <= i < wids.len() && (#[trigger] wids[i]).pid == p {
                let i = choose|i: int| 0 <= i < wids.len() && (#[trigger] wids[i]).pid == p;
                assert(longer[i].pid == p);
            } else {
                assert(longer[wids.len() as int].pid == p);
            }
        }
    }
    assert(a =~= b);
}

/// No window is of a group that does not occur.
proof fn lemma_no_group(v: ReactorView, wids: Seq<WindowId>, group: (Pid, Option<SpaceId>))
    requires
        !v.groups_in(wids).contains(group),
    ensures
        wids.filter(|w: WindowId| v.group_of(w) == group) == Seq::<WindowId>::empty(),
    decreases wids.len(),
{
    let p = |w: WindowId| v.group_of(w) == group;
    reveal(Seq::filter);
    if wids.len() > 0 {
        let before = v.groups_in(wids.drop_last());
        let all = v.groups_in(wids);
        let last = v.group_of(wids.last());
        assert(!before.contains(group)) by {
            if before.contains(group) {
                let i = choose|i: int| 0 <= i < before.len() && before[i] == group;
                assert(all[i] == group);
            }
        }
        assert(last != group) by {
            if last == group {
                if !before.contains(last) {
                    assert(all[before.len() as int] == group);
                }
            }
        }
        lemma_no_group(v, wids.drop_last(), group);
    }
    assert(wids.filter(p) =~= Seq::empty());
}

fn position_of(keys: &Vec<(Pid, Option<SpaceId>)>, key: (Pid, Option<SpaceId>)) -> (p: Option<usize>)
    ensures
        p is Some <==> keys@.contains(key),
        p matches Some(i) ==> i < keys@.len() && keys@[i as int] == key,
{
    let mut i: usize = 0;
    while i < keys.len()
        invariant
            i <= keys.len(),
            forall|j: int| 0 <= j < i ==> keys@[j] != key,
        decreases keys.len() - i,
    {
        if keys[i].0 == key.0 && keys[i].1 == key.1 {
            return Some(i);
        }
        i += 1;
    }
    None
}

/// Whether the members of the list are those of the set.
fn same_members(list: &Vec<WindowServerId>, set: &OrdMap<WindowServerId, ()>) -> (b: bool)
    requires
        set.wf(),
    ensures
        b == (list@.to_set() == set@.dom()),
{
    let mut seen: OrdMap<WindowServerId, ()> = OrdMap::new();
    let mut i: usize = 0;
    proof {
        assert(seen@.dom() =~= list@.take(0).to_set());
    }
    while i < list.len()
        invariant
            set.wf(),
            seen.wf(),
            i <= list.len(),
            seen@.dom() == list@.take(i as int).to_set(),
            seen@.dom().subset_of(set@.dom()),
        decreases list.len() - i,
    {
        let wsid = list[i];
        if !set.contains(wsid) {
            proof {
                assert(list@.to_set().contains(wsid));
            }
            return false;
        }
        seen.insert(wsid, ());
        proof {
            lemma_to_set_step(list@, i as int);
            assert(seen@.dom() =~= list@.take(i + 1).to_set());
        }
        i += 1;
    }
    proof {
        lemma_take_all(list@);
        seen.lemma_keys();
        set.lemma_keys();
        lemma_rising_len(seen.key_seq(), seen@.dom());
        lemma_rising_len(set.key_seq(), set@.dom());
        if seen.key_seq().len() == set.key_seq().len() {
            vstd::set_lib::lemma_subset_equality(seen@.dom(), set@.dom());
        }
    }
    seen.len() == set.len()
}

} // verus!
