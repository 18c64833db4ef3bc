//! Laws about what follows from the responses of the layout.
use vstd::prelude::*;

use crate::effects::{EffectView, EventResponse, RaiseEventView, ResponseContext};
use crate::geometry::{overlap_of, Rect};
use crate::ids::{Pid, WindowId, WindowServerId};
use crate::reactions::up_to;
use crate::reactor_model::{seq_of, with_overrides, ReactorView};
use crate::sequences::{each, lemma_filter_from, lemma_filter_prefix};

verus! {

// ---- Frames ----

/// The frames of a response are kept for the next layout: the last one of each
/// window, in place of what was kept for it, and beside what was kept for
/// others. Nothing else changes.
pub proof fn response_keeps_the_last_frames(
    v: ReactorView,
    response: EventResponse,
    context: ResponseContext,
    wid: WindowId,
    i: int,
)
    requires
        i < response.frame_overrides@.len(),
        i >= 0 ==> response.frame_overrides@[i].0 == wid,
        forall|j: int|
            0 <= j < response.frame_overrides@.len() && j > i ==> (#[trigger] response.frame_overrides@[j]).0 != wid,
    ensures
        ({
            let after = v.responding(response, context).state;
            let kept = after.pending_frame_overrides;
            &&& after == (ReactorView { pending_frame_overrides: kept, ..v })
            &&& i >= 0 ==> kept.dom().contains(wid) && kept[wid] == response.frame_overrides@[i].1
            &&& i < 0 ==> kept.dom().contains(wid) == v.pending_frame_overrides.dom().contains(wid) && kept[wid]
                == v.pending_frame_overrides[wid]
        }),
{
    lemma_overrides(v.pending_frame_overrides, response.frame_overrides@, wid, i);
}

proof fn lemma_overrides(overrides: Map<WindowId, Rect>, newer: Seq<(WindowId, Rect)>, wid: WindowId, i: int)
    requires
        i < newer.len(),
        i >= 0 ==> newer[i].0 == wid,
        forall|j: int| 0 <= j < newer.len() && j > i ==> (#[trigger] newer[j]).0 != wid,
    ensures
        i >= 0 ==> with_overrides(overrides, newer).dom().contains(wid) && with_overrides(overrides, newer)[wid]
            == newer[i].1,
        i < 0 ==> with_overrides(overrides, newer).dom().contains(wid) == overrides.dom().contains(wid)
            && with_overrides(overrides, newer)[wid] == overrides[wid],
    decreases newer.len(),
{
    if newer.len() > 0 && i < newer.len() - 1 {
        let rest = newer.drop_last();
        assert(newer[newer.len() - 1].0 != wid);
        assert forall|j: int| 0 <= j < rest.len() && j > i implies (#[trigger] rest[j]).0 != wid by {
            assert(newer[j].0 != wid);
        }
        lemma_overrides(overrides, rest, wid, i);
    }
}

// ---- Raising ----

/// The windows are of one app and on one space.
pub open spec fn belong_together(v: ReactorView, a: WindowId, b: WindowId) -> bool {
    a.pid == b.pid && v.best_space(v.windows[a].frame_monotonic) == v.best_space(v.windows[b].frame_monotonic)
}

/// A group of windows to raise holds all known ones that belong together with
/// its first, and no others, in the order in which they are to be raised.
pub proof fn group_holds_what_belongs_together(v: ReactorView, raise: Seq<WindowId>, g: int)
    requires
        0 <= g < v.grouped(raise).len(),
    ensures
        ({
            let group = v.grouped(raise)[g];
            &&& group.len() > 0
            &&& group == raise.filter(
                |w: WindowId| v.windows.dom().contains(w) && belong_together(v, w, group[0]),
            )
        }),
{
    let p = |w: WindowId| v.windows.dom().contains(w);
    let known = raise.filter(p);
    let group = v.groups_in(known)[g];
    let q = |w: WindowId| v.group_of(w) == group;
    let wids = v.grouped(raise)[g];
    assert(wids == known.filter(q));
    lemma_group_occurs(v, known, g);
    let i = choose|i: int| 0 <= i < known.len() && v.group_of(#[trigger] known[i]) == group;
    known.lemma_filter_contains(q, i);
    assert(wids.contains(known[i]));
    assert(wids.contains(wids[0]));
    lemma_filter_from(known, q, wids[0]);
    let r = |w: WindowId| v.windows.dom().contains(w) && belong_together(v, w, wids[0]);
    lemma_filter_twice(raise, p, q, r);
}

/// The groups stand in the order in which the first of each is to be raised.
pub proof fn groups_stand_in_the_order_of_their_first(v: ReactorView, raise: Seq<WindowId>, g: int, h: int)
    requires
        0 <= g < h < v.grouped(raise).len(),
    ensures
        ({
            let known = raise.filter(|w: WindowId| v.windows.dom().contains(w));
            exists|i: int|
                0 <= i < known.len() && v.grouped(raise)[g].contains(#[trigger] known[i]) && forall|k: int|
                    0 <= k <= i ==> !v.grouped(raise)[h].contains(#[trigger] known[k])
        }),
{
    let p = |w: WindowId| v.windows.dom().contains(w);
    let known = raise.filter(p);
    let groups = v.groups_in(known);
    let a = |w: WindowId| v.group_of(w) == groups[g];
    let b = |w: WindowId| v.group_of(w) == groups[h];
    assert(v.grouped(raise)[g] == known.filter(a));
    assert(v.grouped(raise)[h] == known.filter(b));
    let i = lemma_group_first(v, known, g, h);
    known.lemma_filter_contains(a, i);
    assert forall|k: int| 0 <= k <= i implies !v.grouped(raise)[h].contains(#[trigger] known[k]) by {
        if known.filter(b).contains(known[k]) {
            lemma_filter_from(known, b, known[k]);
        }
    }
}

/// Every group is that of a window.
proof fn lemma_group_occurs(v: ReactorView, wids: Seq<WindowId>, g: int)
    requires
        0 <= g < v.groups_in(wids).len(),
    ensures
        exists|i: int| 0 <= i < wids.len() && v.group_of(#[trigger] wids[i]) == v.groups_in(wids)[g],
    decreases wids.len(),
{
    if wids.len() > 0 {
        let rest = wids.drop_last();
        if g < v.groups_in(rest).len() {
            lemma_group_occurs(v, rest, g);
            let i = choose|i: int| 0 <= i < rest.len() && v.group_of(#[trigger] rest[i]) == v.groups_in(rest)[g];
            assert(wids[i] == rest[i]);
        } else {
            assert(v.group_of(wids[wids.len() - 1]) == v.groups_in(wids)[g]);
        }
    }
}

/// An earlier group occurs before a later one does.
proof fn lemma_group_first(v: ReactorView, wids: Seq<WindowId>, g: int, h: int) -> (i: int)
    requires
        0 <= g < h < v.groups_in(wids).len(),
    ensures
        0 <= i < wids.len(),
        v.group_of(wids[i]) == v.groups_in(wids)[g],
        forall|k: int| 0 <= k <= i ==> v.group_of(#[trigger] wids[k]) != v.groups_in(wids)[h],
    decreases wids.len(),
{
    let rest = wids.drop_last();
    let before = v.groups_in(rest);
    if h < before.len() {
        let i = lemma_group_first(v, rest, g, h);
        assert(wids[i] == rest[i]);
        assert forall|k: int| 0 <= k <= i implies v.group_of(#[trigger] wids[k]) != v.groups_in(wids)[h] by {
            assert(wids[k] == rest[k]);
        }
        i
    } else {
        let group = v.group_of(wids.last());
        assert(v.groups_in(wids)[h] == group);
        lemma_group_occurs(v, rest, g);
        let i = choose|i: int| 0 <= i < rest.len() && v.group_of(#[trigger] rest[i]) == before[g];
        assert(wids[i] == rest[i]);
        assert forall|k: int| 0 <= k <= i implies v.group_of(#[trigger] wids[k]) != v.groups_in(wids)[h] by {
            assert(wids[k] == rest[k]);
            lemma_group_listed(v, rest, k);
        }
        i
    }
}

/// The group of every window is listed.
proof fn lemma_group_listed(v: ReactorView, wids: Seq<WindowId>, k: int)
    requires
        0 <= k < wids.len(),
    ensures
        v.groups_in(wids).contains(v.group_of(wids[k])),
    decreases wids.len(),
{
    let rest = wids.drop_last();
    let before = v.groups_in(rest);
    let group = v.group_of(wids[k]);
    if k < rest.len() {
        lemma_group_listed(v, rest, k);
        assert(rest[k] == wids[k]);
        let g = choose|g: int| 0 <= g < before.len() && before[g] == group;
        assert(v.groups_in(wids)[g] == group);
    } else if !before.contains(group) {
        assert(v.groups_in(wids)[before.len() as int] == group);
    }
}

/// Two filters are one.
proof fn lemma_filter_twice(
    s: Seq<WindowId>,
    p: spec_fn(WindowId) -> bool,
    q: spec_fn(WindowId) -> bool,
    r: spec_fn(WindowId) -> bool,
)
    requires
        forall|w: WindowId| #[trigger] r(w) <==> p(w) && q(w),
    ensures
        s.filter(p).filter(q) == s.filter(r),
    decreases s.len(),
{
    reveal(Seq::filter);
    if s.len() > 0 {
        let rest = s.drop_last();
        lemma_filter_twice(rest, p, q, r);
        if p(s.last()) {
            assert(s.filter(p).drop_last() =~= rest.filter(p));
        }
        assert(r(s.last()) == (p(s.last()) && q(s.last())));
    } else {
        assert(s.filter(p) =~= s);
        assert(s.filter(r) =~= s);
    }
}

/// A request to raise windows names the one to focus. The mouse follows it to
/// its frame if it is to, unless the mouse brought the focus there or the
/// window is not known. The request has the handle of every known app of its
/// windows, and of no other.
pub proof fn raise_request_has_what_it_needs(
    v: ReactorView,
    raise: Seq<WindowId>,
    focus: Option<WindowId>,
    from_mouse: bool,
    pid: Pid,
)
    ensures
        v.raising(raise, focus, from_mouse) matches EffectView::Raise(
            RaiseEventView::RaiseRequest { raise_windows, focus_window, app_handles },
        ) && {
            let concerned = (exists|i: int| 0 <= i < raise.len() && (#[trigger] raise[i]).pid == pid) || (
            focus matches Some(wid) && wid.pid == pid);
            &&& raise_windows == v.grouped(raise)
            &&& focus is None ==> focus_window is None
            &&& focus matches Some(wid) ==> {
                &&& focus_window matches Some((w, warp)) && w == wid && {
                    &&& v.settings.mouse_follows_focus && !from_mouse && v.windows.dom().contains(wid) ==> warp
                        == Some(v.windows[wid].frame_monotonic)
                    &&& !v.settings.mouse_follows_focus || from_mouse || !v.windows.dom().contains(wid)
                        ==> warp is None
                }
            }
            &&& app_handles.dom().contains(pid) <==> v.apps.dom().contains(pid) && concerned
            &&& app_handles.dom().contains(pid) ==> app_handles[pid] == v.apps[pid].handle
        },
{
    let all = raise + seq_of(focus);
    if exists|i: int| 0 <= i < raise.len() && (#[trigger] raise[i]).pid == pid {
        let i = choose|i: int| 0 <= i < raise.len() && (#[trigger] raise[i]).pid == pid;
        assert(all[i].pid == pid);
    }
    if focus matches Some(wid) && wid.pid == pid {
        assert(all[raise.len() as int].pid == pid);
    }
    if exists|i: int| 0 <= i < all.len() && (#[trigger] all[i]).pid == pid {
        let i = choose|i: int| 0 <= i < all.len() && (#[trigger] all[i]).pid == pid;
        if i < raise.len() {
            assert(raise[i].pid == pid);
        }
    }
}

/// Where the order of the windows is not known, the windows of a response are
/// raised and its window is focused, in one request. A response with none asks
/// for nothing.
pub proof fn response_raises_its_windows(v: ReactorView, response: EventResponse, context: ResponseContext)
    ensures
        ({
            let out = v.responding(response, context).effects;
            let raise = response.raise_windows@;
            let focus = response.focus_window;
            &&& raise.len() == 0 && focus is None ==> out.len() == 0
            &&& context.visible_window_order is None && (raise.len() > 0 || focus is Some) ==> out == seq![
                v.raising(raise, focus, context.from_mouse),
            ]
            &&& out.len() == 0 || out == seq![v.raising(raise, focus, context.from_mouse)]
        }),
{
}

// ---- Windows that are in front already ----

/// The window counts when the order of the windows is compared: it is ordinary,
/// and it is seen on a managed screen.
pub open spec fn counts(v: ReactorView, wsid: WindowServerId) -> bool {
    &&& v.window_server_info.dom().contains(wsid)
    &&& v.window_server_info[wsid].layer == 0
    &&& exists|i: int|
        0 <= i < v.screens.len() && (#[trigger] v.screens[i]).space is Some && overlap_of(
            v.measured,
            v.screens[i].frame,
            v.window_server_info[wsid].frame,
        ).visible
}

/// The window is one of those to raise, by the id that the window server gave
/// it.
pub open spec fn is_to_rise(v: ReactorView, raise: Seq<WindowId>, wsid: WindowServerId) -> bool {
    exists|i: int|
        0 <= i < raise.len() && v.windows.dom().contains(#[trigger] raise[i]) && v.windows[raise[i]].window_server_id
            == Some(wsid)
}

/// All windows to raise are in the order and count, and no other that counts is
/// in front of one of them.
pub open spec fn are_in_front(v: ReactorView, raise: Seq<WindowId>, order: Seq<WindowServerId>) -> bool {
    &&& forall|wsid: WindowServerId| #[trigger]
        is_to_rise(v, raise, wsid) ==> order.contains(wsid) && counts(v, wsid)
    &&& forall|i: int, j: int|
        0 <= i < j < order.len() && counts(v, #[trigger] order[i]) && is_to_rise(v, raise, #[trigger] order[j])
            ==> is_to_rise(v, raise, order[i])
}

/// Nothing is raised exactly if that would change nothing: the window to focus
/// is the first of all, and behind it the windows to raise are in front of the
/// others that count, in any order.
pub proof fn windows_in_front_are_not_raised(
    v: ReactorView,
    response: EventResponse,
    context: ResponseContext,
    order: Vec<WindowServerId>,
)
    requires
        context.visible_window_order == Some(order),
        order@.no_duplicates(),
        response.raise_windows@.len() > 0 || response.focus_window is Some,
    ensures
        ({
            let out = v.responding(response, context).effects;
            let raise = response.raise_windows@;
            &&& response.focus_window is None ==> (out.len() == 0 <==> are_in_front(v, raise, order@))
            &&& response.focus_window is Some ==> (out.len() == 0 <==> order@.len() > 0 && context.focus_wsid == Some(
                order@[0],
            ) && are_in_front(v, raise, order@.drop_first()))
        }),
{
    let raise = response.raise_windows@;
    lemma_in_front(v, raise, order@);
    if order@.len() > 0 {
        let rest = order@.drop_first();
        assert(rest.no_duplicates()) by {
            assert forall|i: int, j: int| 0 <= i < rest.len() && 0 <= j < rest.len() && i != j implies rest[i]
                != rest[j] by {
                assert(rest[i] == order@[i + 1] && rest[j] == order@[j + 1]);
            }
        }
        lemma_in_front(v, raise, rest);
    }
}

proof fn lemma_counts(v: ReactorView, wsid: WindowServerId)
    ensures
        v.comparable(wsid) == counts(v, wsid),
{
    if v.comparable(wsid) {
        let i = choose|i: int|
            0 <= i < v.screens.len() && v.screens[i].space is Some && (#[trigger] v.overlap(
                i,
                v.window_server_info[wsid].frame,
            )).visible;
        assert(v.screens[i].space is Some);
    }
    if counts(v, wsid) {
        let i = choose|i: int|
            0 <= i < v.screens.len() && (#[trigger] v.screens[i]).space is Some && overlap_of(
                v.measured,
                v.screens[i].frame,
                v.window_server_info[wsid].frame,
            ).visible;
        assert(v.overlap(i, v.window_server_info[wsid].frame).visible);
    }
}

proof fn lemma_to_rise(v: ReactorView, raise: Seq<WindowId>, wsid: WindowServerId)
    ensures
        v.desired(raise).contains(wsid) == is_to_rise(v, raise, wsid),
        v.desired(raise).finite(),
    decreases raise.len(),
{
    let f = |w: WindowId| seq_of(v.wsid_of(w));
    let ids = each(raise, f);
    assert(v.desired(raise) == ids.to_set());
    vstd::seq_lib::seq_to_set_is_finite(ids);
    if raise.len() > 0 {
        let rest = raise.drop_last();
        lemma_to_rise(v, rest, wsid);
        let before = each(rest, f);
        let last = f(raise.last());
        assert(ids == before + last);
        if ids.contains(wsid) {
            let k = choose|k: int| 0 <= k < ids.len() && ids[k] == wsid;
            if k < before.len() {
                assert(before[k] == wsid);
                assert(v.desired(rest).contains(wsid));
                let i = choose|i: int|
                    0 <= i < rest.len() && v.windows.dom().contains(#[trigger] rest[i])
                        && v.windows[rest[i]].window_server_id == Some(wsid);
                assert(raise[i] == rest[i]);
            } else {
                assert(last[k - before.len()] == wsid);
                assert(v.windows.dom().contains(raise[raise.len() - 1]));
            }
        }
        if is_to_rise(v, raise, wsid) {
            let i = choose|i: int|
                0 <= i < raise.len() && v.windows.dom().contains(#[trigger] raise[i])
                    && v.windows[raise[i]].window_server_id == Some(wsid);
            if i < rest.len() {
                assert(rest[i] == raise[i]);
                assert(v.desired(rest).contains(wsid));
                let k = choose|k: int| 0 <= k < before.len() && before[k] == wsid;
                assert(ids[k] == wsid);
            } else {
                assert(last[0] == wsid);
                assert(ids[before.len() as int] == wsid);
            }
        }
    }
}

/// Comparing the first windows is looking for another in front.
proof fn lemma_in_front(v: ReactorView, raise: Seq<WindowId>, order: Seq<WindowServerId>)
    requires
        order.no_duplicates(),
    ensures
        v.in_front(raise, order) == are_in_front(v, raise, order),
{
    let p = |w: WindowServerId| v.comparable(w);
    let c = order.filter(p);
    let wanted = v.desired(raise);
    let first = up_to(c, wanted.len());
    assert forall|w: WindowServerId| #[trigger] wanted.contains(w) == is_to_rise(v, raise, w) && wanted.finite() by {
        lemma_to_rise(v, raise, w);
    }
    assert(wanted.finite()) by {
        lemma_to_rise(v, raise, WindowServerId(0));
    }
    lemma_filter_no_duplicates(order, p);
    if v.in_front(raise, order) {
        assert forall|w: WindowServerId| #[trigger] is_to_rise(v, raise, w) implies order.contains(w) && counts(
            v,
            w,
        ) by {
            assert(wanted.contains(w));
            assert(first.to_set().contains(w));
            let k = choose|k: int| 0 <= k < first.len() && first[k] == w;
            assert(c[k] == w);
            assert(c.contains(w));
            lemma_filter_from(order, p, w);
            lemma_counts(v, w);
        }
        assert forall|i: int, j: int|
            0 <= i < j < order.len() && counts(v, #[trigger] order[i]) && is_to_rise(
                v,
                raise,
                #[trigger] order[j],
            ) implies is_to_rise(v, raise, order[i]) by {
            lemma_counts(v, order[i]);
            assert(wanted.contains(order[j]));
            assert(first.to_set().contains(order[j]));
            let l = choose|l: int| 0 <= l < first.len() && first[l] == order[j];
            let k = lemma_filter_keeps_the_order(order, p, i, j, l);
            assert(first[k] == order[i]);
            assert(first.to_set().contains(order[i]));
        }
    }
    if are_in_front(v, raise, order) {
        lemma_front_is_wanted(v, raise, order);
    }
}

/// What is in front of a window that passes, and passes itself, comes first of
/// what passes.
proof fn lemma_filter_keeps_the_order(
    s: Seq<WindowServerId>,
    p: spec_fn(WindowServerId) -> bool,
    i: int,
    j: int,
    l: int,
) -> (k: int)
    requires
        s.no_duplicates(),
        0 <= i < j < s.len(),
        p(s[i]),
        0 <= l < s.filter(p).len(),
        s.filter(p)[l] == s[j],
    ensures
        0 <= k < l,
        s.filter(p)[k] == s[i],
{
    let short = s.take(j);
    lemma_filter_prefix(s, p, j);
    let part = short.filter(p);
    short.lemma_filter_contains(p, i);
    assert(short[i] == s[i]);
    let k = choose|k: int| 0 <= k < part.len() && part[k] == s[i];
    assert(s.filter(p).take(part.len() as int)[k] == part[k]);
    if l < part.len() {
        assert(s.filter(p).take(part.len() as int)[l] == part[l]);
        assert(part.contains(s[j]));
        lemma_filter_from(short, p, s[j]);
        let m = choose|m: int| 0 <= m < short.len() && short[m] == s[j];
        assert(s[m] == s[j]);
    }
    k
}

proof fn lemma_filter_no_duplicates(s: Seq<WindowServerId>, p: spec_fn(WindowServerId) -> bool)
    requires
        s.no_duplicates(),
    ensures
        s.filter(p).no_duplicates(),
    decreases s.len(),
{
    reveal(Seq::filter);
    if s.len() > 0 {
        let rest = s.drop_last();
        lemma_filter_no_duplicates(rest, p);
        let kept = rest.filter(p);
        if p(s.last()) {
            assert forall|i: int, j: int|
                0 <= i < s.filter(p).len() && 0 <= j < s.filter(p).len() && i != j implies s.filter(p)[i] != s.filter(
                p,
            )[j] by {
                if i == kept.len() {
                    lemma_not_last(s, p, j);
                } else if j == kept.len() {
                    lemma_not_last(s, p, i);
                }
            }
        }
    }
}

proof fn lemma_not_last(s: Seq<WindowServerId>, p: spec_fn(WindowServerId) -> bool, i: int)
    requires
        s.len() > 0,
        s.no_duplicates(),
        0 <= i < s.drop_last().filter(p).len(),
    ensures
        s.drop_last().filter(p)[i] != s.last(),
{
    let rest = s.drop_last();
    assert(rest.filter(p).contains(rest.filter(p)[i]));
    lemma_filter_from(rest, p, rest.filter(p)[i]);
    let k = choose|k: int| 0 <= k < rest.len() && rest[k] == rest.filter(p)[i];
    assert(s[k] == rest[k]);
}

/// If no other window is in front, the first are the wanted ones.
proof fn lemma_front_is_wanted(v: ReactorView, raise: Seq<WindowId>, order: Seq<WindowServerId>)
    requires
        order.no_duplicates(),
        are_in_front(v, raise, order),
        v.desired(raise).finite(),
        forall|w: WindowServerId| #[trigger] v.desired(raise).contains(w) == is_to_rise(v, raise, w),
        order.filter(|w: WindowServerId| v.comparable(w)).no_duplicates(),
    ensures
        v.in_front(raise, order),
{
    let p = |w: WindowServerId| v.comparable(w);
    let c = order.filter(p);
    let wanted = v.desired(raise);
    let n = wanted.len();
    // Every wanted window is among those that count.
    assert forall|w: WindowServerId| #[trigger] wanted.contains(w) implies c.contains(w) by {
        assert(is_to_rise(v, raise, w));
        lemma_counts(v, w);
        let i = choose|i: int| 0 <= i < order.len() && order[i] == w;
        order.lemma_filter_contains(p, i);
    }
    // Those in front of a wanted window are wanted.
    assert forall|k: int, l: int| 0 <= k < l < c.len() && wanted.contains(#[trigger] c[l]) implies wanted.contains(
        #[trigger] c[k],
    ) by {
        assert(c.contains(c[k]) && c.contains(c[l]));
        lemma_filter_from(order, p, c[k]);
        lemma_filter_from(order, p, c[l]);
        let i = choose|i: int| 0 <= i < order.len() && order[i] == c[k];
        let j = choose|j: int| 0 <= j < order.len() && order[j] == c[l];
        lemma_counts(v, c[k]);
        if j < i {
            let m = lemma_filter_keeps_the_order(order, p, j, i, k);
            assert(c[m] == c[l]);
        }
        assert(i < j);
        assert(is_to_rise(v, raise, order[j]));
        assert(is_to_rise(v, raise, order[i]));
    }
    lemma_first_are(c, wanted);
    let first = up_to(c, n);
    assert(first.to_set() =~= wanted);
}

/// A set whose members come first in a list without duplicates is what the list
/// begins with.
proof fn lemma_first_are(c: Seq<WindowServerId>, wanted: Set<WindowServerId>)
    requires
        c.no_duplicates(),
        wanted.finite(),
        forall|w: WindowServerId| #[trigger] wanted.contains(w) ==> c.contains(w),
        forall|k: int, l: int| 0 <= k < l < c.len() && wanted.contains(#[trigger] c[l]) ==> wanted.contains(
            #[trigger] c[k],
        ),
    ensures
        wanted.len() <= c.len(),
        c.take(wanted.len() as int).to_set() == wanted,
    decreases c.len(),
{
    if c.len() == 0 {
        assert(wanted =~= Set::empty());
        assert(c.take(0).to_set() =~= wanted);
    } else {
        let x = c[c.len() - 1];
        let rest = c.drop_last();
        assert(rest.no_duplicates());
        if wanted.contains(x) {
            // All are wanted.
            assert forall|w: WindowServerId| c.to_set().contains(w) implies wanted.contains(w) by {
                let k = choose|k: int| 0 <= k < c.len() && c[k] == w;
                if k < c.len() - 1 {
                    assert(wanted.contains(c[k]));
                }
            }
            assert(c.to_set() =~= wanted);
            c.unique_seq_to_set();
            assert(c.take(c.len() as int) =~= c);
        } else {
            assert forall|w: WindowServerId| #[trigger] wanted.contains(w) implies rest.contains(w) by {
                let k = choose|k: int| 0 <= k < c.len() && c[k] == w;
                assert(rest[k] == w);
            }
            assert forall|k: int, l: int|
                0 <= k < l < rest.len() && wanted.contains(#[trigger] rest[l]) implies wanted.contains(
                #[trigger] rest[k],
            ) by {
                assert(c[k] == rest[k] && c[l] == rest[l]);
            }
            lemma_first_are(rest, wanted);
            assert(c.take(wanted.len() as int) =~= rest.take(wanted.len() as int));
        }
    }
}

} // verus!
