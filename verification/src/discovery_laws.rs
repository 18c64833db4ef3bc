//! Laws about what the window server and the apps report of windows.
use vstd::prelude::*;

use crate::apps::WindowInfo;
use crate::effects::{EffectView, LayoutEventView, LayoutWindowInfo};
use crate::event_laws::{managed_before, told};
use crate::events::{Event, WindowServerInfo, WindowsOnScreen};
use crate::geometry::{CoordinateConverter, Rect};
use crate::ids::{Pid, WindowId, WindowServerId};
use crate::number::Number;
use crate::ordered::{in_order, lemma_can_be_ordered, rising, Key};
use crate::reactor_model::{
    indices, with_found, with_infos, with_reported_frames, Focus, ReactorView, WindowState,
};
use crate::sequences::{each, lemma_each_step, lemma_filter_from, lemma_take_all};
use crate::space::SpaceId;

verus! {

/// The report is of this known window, and it is an ordinary one.
pub open spec fn reports(v: ReactorView, info: WindowServerInfo, wid: WindowId) -> bool {
    info.layer == 0 && v.window_ids.dom().contains(info.id) && v.window_ids[info.id] == wid
}

/// The last report of the window is at `i`, or there is none if that is
/// negative.
pub open spec fn last_report(v: ReactorView, infos: Seq<WindowServerInfo>, wid: WindowId, i: int) -> bool {
    &&& i < infos.len()
    &&& i >= 0 ==> reports(v, infos[i], wid)
    &&& forall|j: int| 0 <= j < infos.len() && j > i ==> !reports(v, #[trigger] infos[j], wid)
}

/// The window is at the frame of its last report, if there is one, and nothing
/// else of it has changed.
pub open spec fn at_reported_frame(
    was: WindowState,
    is: WindowState,
    infos: Seq<WindowServerInfo>,
    i: int,
) -> bool {
    is == (WindowState {
        frame_monotonic: if i >= 0 {
            infos[i].frame
        } else {
            was.frame_monotonic
        },
        ..was
    })
}

/// A report of all windows on screen puts each known ordinary window at the
/// frame that it was last reported at, whatever brought the report: a change of
/// the windows on screen, of the screens or of the space.
pub proof fn windows_are_at_their_reported_frames(
    v: ReactorView,
    on_screen: WindowsOnScreen,
    frames: Vec<Rect>,
    spaces: Vec<Option<SpaceId>>,
    scale_factors: Vec<Number>,
    converter: CoordinateConverter,
    focus: Focus,
    wid: WindowId,
    i: int,
)
    requires
        v.windows.dom().contains(wid),
        last_report(v, on_screen.info@, wid, i),
    ensures
        ({
            let a = v.handling(Event::WindowsOnScreenUpdated { pid: None, on_screen }, focus).state;
            let b = v.handling(
                Event::ScreenParametersChanged { frames, spaces, scale_factors, converter, on_screen },
                focus,
            ).state;
            let c = v.handling(Event::SpaceChanged(spaces, on_screen), focus).state;
            &&& a.windows.dom().contains(wid)
            &&& at_reported_frame(v.windows[wid], a.windows[wid], on_screen.info@, i)
            &&& b.windows == a.windows
            &&& c.windows == a.windows
        }),
{
    lemma_reported(v, on_screen.info@, wid, i);
}

proof fn lemma_reported(v: ReactorView, infos: Seq<WindowServerInfo>, wid: WindowId, i: int)
    requires
        v.windows.dom().contains(wid),
        last_report(v, infos, wid, i),
    ensures
        ({
            let after = with_reported_frames(v.windows, v.window_ids, infos);
            &&& after.dom().contains(wid)
            &&& at_reported_frame(v.windows[wid], after[wid], infos, i)
        }),
    decreases infos.len(),
{
    if infos.len() > 0 {
        let rest = infos.drop_last();
        let last = infos.len() - 1;
        if i < last {
            assert(!reports(v, infos[last], wid));
            assert forall|j: int| 0 <= j < rest.len() && j > i implies !reports(v, #[trigger] rest[j], wid) by {
                assert(!reports(v, infos[j], wid));
            }
            lemma_reported(v, rest, wid, i);
        } else {
            lemma_reported_keeps_the_rest(v, rest, wid);
        }
    }
}

/// Reports change nothing of a window but its frame.
proof fn lemma_reported_keeps_the_rest(v: ReactorView, infos: Seq<WindowServerInfo>, wid: WindowId)
    requires
        v.windows.dom().contains(wid),
    ensures
        ({
            let after = with_reported_frames(v.windows, v.window_ids, infos);
            &&& after.dom().contains(wid)
            &&& after[wid] == (WindowState { frame_monotonic: after[wid].frame_monotonic, ..v.windows[wid] })
        }),
    decreases infos.len(),
{
    if infos.len() > 0 {
        lemma_reported_keeps_the_rest(v, infos.drop_last(), wid);
    }
}

/// Of each window the last report of the window server is known, whatever
/// brought it, and the reports of other windows are kept.
pub proof fn last_report_is_known(
    v: ReactorView,
    pid: Option<Pid>,
    on_screen: WindowsOnScreen,
    frames: Vec<Rect>,
    spaces: Vec<Option<SpaceId>>,
    scale_factors: Vec<Number>,
    converter: CoordinateConverter,
    focus: Focus,
    wsid: WindowServerId,
    i: int,
)
    requires
        i < on_screen.info@.len(),
        i >= 0 ==> on_screen.info@[i].id == wsid,
        forall|j: int| 0 <= j < on_screen.info@.len() && j > i ==> (#[trigger] on_screen.info@[j]).id != wsid,
    ensures
        ({
            let a = v.handling(Event::WindowsOnScreenUpdated { pid, on_screen }, focus).state;
            let b = v.handling(
                Event::ScreenParametersChanged { frames, spaces, scale_factors, converter, on_screen },
                focus,
            ).state;
            let c = v.handling(Event::SpaceChanged(spaces, on_screen), focus).state;
            &&& i >= 0 ==> a.window_server_info.dom().contains(wsid) && a.window_server_info[wsid]
                == on_screen.info@[i]
            &&& i < 0 ==> a.window_server_info.dom().contains(wsid) == v.window_server_info.dom().contains(wsid)
                && a.window_server_info[wsid] == v.window_server_info[wsid]
            &&& b.window_server_info == a.window_server_info
            &&& c.window_server_info == a.window_server_info
            &&& a.visible_windows.contains(wsid) == on_screen.visible@.contains(wsid)
            &&& b.visible_windows == a.visible_windows
            &&& c.visible_windows == a.visible_windows
        }),
{
    lemma_infos(v.window_server_info, on_screen.info@, wsid, i);
}

proof fn lemma_infos(
    infos: Map<WindowServerId, WindowServerInfo>,
    newer: Seq<WindowServerInfo>,
    wsid: WindowServerId,
    i: int,
)
    requires
        i < newer.len(),
        i >= 0 ==> newer[i].id == wsid,
        forall|j: int| 0 <= j < newer.len() && j > i ==> (#[trigger] newer[j]).id != wsid,
    ensures
        i >= 0 ==> with_infos(infos, newer).dom().contains(wsid) && with_infos(infos, newer)[wsid] == newer[i],
        i < 0 ==> with_infos(infos, newer).dom().contains(wsid) == infos.dom().contains(wsid) && with_infos(
            infos,
            newer,
        )[wsid] == infos[wsid],
    decreases newer.len(),
{
    if newer.len() > 0 && i < newer.len() - 1 {
        let rest = newer.drop_last();
        assert(newer[newer.len() - 1].id != wsid);
        assert forall|j: int| 0 <= j < rest.len() && j > i implies (#[trigger] rest[j]).id != wsid by {
            assert(newer[j].id != wsid);
        }
        lemma_infos(infos, rest, wsid, i);
    }
}

// ---- Discovery ----

/// The window is a known one of the app, and the window server reports it on
/// screen.
pub open spec fn is_seen(v: ReactorView, pid: Pid, wid: WindowId) -> bool {
    &&& wid.pid == pid
    &&& v.windows.dom().contains(wid)
    &&& exists|wsid: WindowServerId|
        v.visible_windows.contains(wsid) && v.window_ids.dom().contains(wsid) && #[trigger] v.window_ids[wsid] == wid
}

/// This is the first screen that shows its space.
pub open spec fn shows_first(v: ReactorView, screen: int) -> bool {
    forall|j: int| 0 <= j < screen ==> (#[trigger] v.screens[j]).space != v.screens[screen].space
}

/// The list holds the windows of the app that are seen on the screen, and what
/// the layout is to know of them, in the order of the windows. A space that two
/// screens show is listed for the first of them.
pub open spec fn lists_seen(
    v: ReactorView,
    pid: Pid,
    screen: int,
    list: Seq<(WindowId, LayoutWindowInfo)>,
) -> bool {
    &&& forall|i: int| 0 <= i < list.len() ==> (#[trigger] list[i]).1 == v.layout_info(list[i].0)
    &&& forall|i: int, j: int|
        0 <= i < j < list.len() ==> (#[trigger] list[i]).0.rank() < (#[trigger] list[j]).0.rank()
    &&& forall|wid: WindowId|
        (exists|i: int| 0 <= i < list.len() && (#[trigger] list[i]).0 == wid) <==> (#[trigger] is_seen(v, pid, wid)
            && shows_first(v, screen) && v.best_space(v.windows[wid].frame_monotonic) == v.screens[screen].space)
}

/// The layout is told which windows of the app are seen on the screen.
pub open spec fn tells_of_the_screen(v: ReactorView, pid: Pid, screen: int, e: EffectView) -> bool {
    &&& e matches EffectView::Layout { event: LayoutEventView::WindowsOnScreenUpdated(space, p, list), from_mouse }
    &&& !from_mouse
    &&& v.screens[screen].space == Some(space)
    &&& p == pid
    &&& lists_seen(v, pid, screen, list)
}

/// What the layout is told of the windows of an app: which may be scratchpads;
/// for each managed screen, in the order of the screens, which are seen on it;
/// and if the app has the main window, that this has the focus.
pub open spec fn tells_of_the_app(v: ReactorView, pid: Pid, main: Option<WindowId>, out: Seq<EffectView>) -> bool {
    let managed = managed_before(v.screens, v.screens.len() as int) as int;
    let focused = v.main_window matches Some(m) && m.pid == pid;
    &&& out.len() == 1 + managed + (if focused {
        1int
    } else {
        0
    })
    &&& out[0] matches EffectView::Layout {
        event: LayoutEventView::ScratchpadCandidates(list),
        from_mouse,
    } && !from_mouse && lists_candidates(v, pid, main, list)
    &&& forall|k: int|
        0 <= k < v.screens.len() && (#[trigger] v.screens[k]).space is Some ==> tells_of_the_screen(
            v,
            pid,
            k,
            out[1 + managed_before(v.screens, k) as int],
        )
    &&& focused ==> out[1 + managed] == told(
        LayoutEventView::WindowFocused(v.managed_spaces(), v.main_window->0),
    )
}

/// The list holds the known windows of the app, and what the layout is to know
/// of them: the main window first, then those that can be seen, then the
/// others.
pub open spec fn lists_candidates(
    v: ReactorView,
    pid: Pid,
    main: Option<WindowId>,
    list: Seq<(WindowId, LayoutWindowInfo)>,
) -> bool {
    &&& forall|i: int| 0 <= i < list.len() ==> (#[trigger] list[i]).1 == v.layout_info(list[i].0)
    &&& forall|wid: WindowId|
        (exists|i: int| 0 <= i < list.len() && (#[trigger] list[i]).0 == wid) <==> (wid.pid == pid
            && #[trigger] v.windows.dom().contains(wid))
    &&& forall|i: int, j: int|
        0 <= i < j < list.len() ==> comes_before(v, main, (#[trigger] list[i]).0, (#[trigger] list[j]).0)
}

/// The one window comes before the other as a scratchpad.
pub open spec fn comes_before(v: ReactorView, main: Option<WindowId>, a: WindowId, b: WindowId) -> bool {
    &&& Some(b) != main
    &&& Some(a) == main || v.window_visible(a) || !v.window_visible(b)
    &&& Some(a) != main && v.window_visible(a) == v.window_visible(b) ==> a.rank() < b.rank()
}

/// Windows that were found are told to the layout with the rest of what is
/// known of their app.
pub proof fn discovery_tells_of_the_app(
    v: ReactorView,
    pid: Pid,
    new: Vec<(WindowId, WindowInfo)>,
    known_visible: Vec<WindowId>,
    focus: Focus,
)
    requires
        v.windows.dom().finite(),
    ensures
        ({
            let r = v.handling(Event::WindowsDiscovered { pid, new, known_visible }, focus);
            &&& r.effects.len() > 0 && r.effects.last() is Finish
            &&& tells_of_the_app(r.state, pid, focus.app_main_window, r.effects.drop_last())
        }),
{
    let r = v.handling(Event::WindowsDiscovered { pid, new, known_visible }, focus);
    lemma_found_finite(v.windows, new@);
    lemma_tells(r.state, pid, focus.app_main_window);
    assert(r.effects.drop_last() =~= r.state.tell_discovered(pid, focus.app_main_window));
}

/// So are the windows of an app that was launched.
pub proof fn launch_tells_of_the_app(v: ReactorView, event: Event, focus: Focus, pid: Pid)
    requires
        v.windows.dom().finite(),
        event matches Event::ApplicationLaunched { pid: p, .. } && p == pid,
    ensures
        ({
            let r = v.handling(event, focus);
            &&& r.effects.len() > 0 && r.effects.last() is Finish
            &&& tells_of_the_app(r.state, pid, focus.app_main_window, r.effects.drop_last())
        }),
{
    let r = v.handling(event, focus);
    match event {
        Event::ApplicationLaunched { visible_windows, .. } => {
            lemma_found_finite(v.windows, visible_windows@);
        },
        _ => {},
    }
    lemma_tells(r.state, pid, focus.app_main_window);
    assert(r.effects.drop_last() =~= r.state.tell_discovered(pid, focus.app_main_window));
}

proof fn lemma_found_finite(windows: Map<WindowId, WindowState>, found: Seq<(WindowId, WindowInfo)>)
    requires
        windows.dom().finite(),
    ensures
        with_found(windows, found).dom().finite(),
    decreases found.len(),
{
    if found.len() > 0 {
        lemma_found_finite(windows, found.drop_last());
    }
}

proof fn lemma_tells(v: ReactorView, pid: Pid, main: Option<WindowId>)
    requires
        v.windows.dom().finite(),
    ensures
        tells_of_the_app(v, pid, main, v.tell_discovered(pid, main)),
{
    let out = v.tell_discovered(pid, main);
    let f = |k: int| v.tell_windows_on(pid, k);
    let n = v.screens.len();
    let middle = each(indices(n), f);
    lemma_take_all(indices(n));
    lemma_candidates(v, pid, main);
    lemma_middle(v, f, n as int, 0);
    assert(out[0] == told(
        LayoutEventView::ScratchpadCandidates(v.with_info(v.candidates(pid, main))),
    ));
    assert forall|k: int|
        0 <= k < v.screens.len() && (#[trigger] v.screens[k]).space is Some implies tells_of_the_screen(
        v,
        pid,
        k,
        out[1 + managed_before(v.screens, k) as int],
    ) by {
        lemma_middle(v, f, n as int, k);
        let at = managed_before(v.screens, k) as int;
        assert(out[1 + at] == middle[at]);
        assert(f(k) == v.tell_windows_on(pid, k));
        lemma_lists_seen(v, pid, k);
    }
}

/// What is made of the managed screens stands in their order.
proof fn lemma_middle(v: ReactorView, f: spec_fn(int) -> Seq<EffectView>, n: int, i: int)
    requires
        0 <= n <= v.screens.len(),
        forall|k: int| 0 <= k < v.screens.len() ==> (#[trigger] f(k)).len() == if v.screens[k].space is Some {
            1nat
        } else {
            0nat
        },
    ensures
        each(indices(v.screens.len()).take(n), f).len() == managed_before(v.screens, n),
        0 <= i < n && v.screens[i].space is Some ==> managed_before(v.screens, i) < each(
            indices(v.screens.len()).take(n),
            f,
        ).len() && each(indices(v.screens.len()).take(n), f)[managed_before(v.screens, i) as int] == f(i)[0],
    decreases n,
{
    let all = indices(v.screens.len());
    if n > 0 {
        lemma_middle(v, f, n - 1, i);
        lemma_each_step(all, f, n - 1);
        assert(all[n - 1] == n - 1);
        assert(f(n - 1).len() <= 1);
        if i == n - 1 && v.screens[i].space is Some {
            let before = each(all.take(n - 1), f);
            assert(each(all.take(n), f)[before.len() as int] == f(i)[0]);
        }
    } else {
        assert(all.take(n) =~= Seq::empty());
    }
}

/// What passes a filter of a rising sequence is rising.
proof fn lemma_filter_rises(s: Seq<WindowId>, p: spec_fn(WindowId) -> bool)
    requires
        rising(s),
    ensures
        rising(s.filter(p)),
    decreases s.len(),
{
    reveal(Seq::filter);
    if s.len() > 0 {
        let rest = s.drop_last();
        assert(rising(rest)) by {
            assert forall|i: int, j: int| 0 <= i < j < rest.len() implies (#[trigger] rest[i]).rank() < (
            #[trigger] rest[j]).rank() by {
                assert(s[i].rank() < s[j].rank());
            }
        }
        lemma_filter_rises(rest, p);
        let kept = rest.filter(p);
        if p(s.last()) {
            let t = s.filter(p);
            assert(t == kept.push(s.last()));
            assert forall|i: int, j: int| 0 <= i < j < t.len() implies (#[trigger] t[i]).rank() < (
            #[trigger] t[j]).rank() by {
                if j == kept.len() {
                    assert(kept.contains(kept[i]));
                    lemma_filter_from(rest, p, kept[i]);
                    let k = choose|k: int| 0 <= k < rest.len() && rest[k] == kept[i];
                    assert(s[k].rank() < s[s.len() - 1].rank());
                }
            }
        }
    }
}

proof fn lemma_lists_seen(v: ReactorView, pid: Pid, screen: int)
    requires
        v.windows.dom().finite(),
        0 <= screen < v.screens.len(),
    ensures
        lists_seen(v, pid, screen, v.with_info(v.windows_on(pid, screen))),
{
    let seen = v.on_screen(pid);
    let space = v.screens[screen].space;
    let wids = v.windows_on(pid, screen);
    let list = v.with_info(wids);
    assert(seen.subset_of(v.windows.dom()));
    vstd::set_lib::lemma_len_subset(seen, v.windows.dom());
    lemma_can_be_ordered(seen);
    let all = in_order(seen);
    let p = |w: WindowId| v.best_space(v.windows[w].frame_monotonic) == space;
    if shows_first(v, screen) {
        assert(wids == all.filter(p));
        lemma_filter_rises(all, p);
    }
    assert forall|wid: WindowId|
        (exists|i: int| 0 <= i < list.len() && (#[trigger] list[i]).0 == wid) == (#[trigger] is_seen(v, pid, wid)
            && shows_first(v, screen) && v.best_space(v.windows[wid].frame_monotonic)
            == v.screens[screen].space) by {
        assert(is_seen(v, pid, wid) == seen.contains(wid)) by {
            if is_seen(v, pid, wid) {
                let wsid = choose|wsid: WindowServerId|
                    v.visible_windows.contains(wsid) && v.window_ids.dom().contains(wsid)
                        && #[trigger] v.window_ids[wsid] == wid;
                assert(v.visible_windows.contains(wsid));
            }
            if seen.contains(wid) {
                let wsid = choose|wsid: WindowServerId| #[trigger]
                    v.visible_windows.contains(wsid) && v.window_ids.dom().contains(wsid) && v.window_ids[wsid]
                        == wid;
                assert(v.window_ids[wsid] == wid);
            }
        }
        assert(all.to_set().contains(wid) == all.contains(wid));
        if exists|i: int| 0 <= i < list.len() && (#[trigger] list[i]).0 == wid {
            let i = choose|i: int| 0 <= i < list.len() && (#[trigger] list[i]).0 == wid;
            assert(wids[i] == wid);
            assert(all.filter(p).contains(wid));
            lemma_filter_from(all, p, wid);
        }
        if seen.contains(wid) && shows_first(v, screen) && p(wid) {
            let i = choose|i: int| 0 <= i < all.len() && all[i] == wid;
            all.lemma_filter_contains(p, i);
            let k = choose|k: int| 0 <= k < wids.len() && wids[k] == wid;
            assert(list[k].0 == wid);
        }
    }
}

proof fn lemma_candidates(v: ReactorView, pid: Pid, main: Option<WindowId>)
    requires
        v.windows.dom().finite(),
    ensures
        lists_candidates(v, pid, main, v.with_info(v.candidates(pid, main))),
{
    let wids = v.candidates(pid, main);
    let list = v.with_info(wids);
    lemma_can_be_ordered(v.windows.dom());
    let a = v.preferred(pid, main, 0);
    let b = v.preferred(pid, main, 1);
    let c = v.preferred(pid, main, 2);
    lemma_preferred_part(v, pid, main, 0);
    lemma_preferred_part(v, pid, main, 1);
    lemma_preferred_part(v, pid, main, 2);
    assert forall|wid: WindowId|
        (exists|i: int| 0 <= i < list.len() && (#[trigger] list[i]).0 == wid) == (wid.pid == pid
            && #[trigger] v.windows.dom().contains(wid)) by {
        crate::reactor_laws::candidates_are_the_windows_of_the_app(v, pid, main, wid);
        if exists|i: int| 0 <= i < list.len() && (#[trigger] list[i]).0 == wid {
            let i = choose|i: int| 0 <= i < list.len() && (#[trigger] list[i]).0 == wid;
            assert(wids[i] == wid);
        }
        if wids.contains(wid) {
            let i = choose|i: int| 0 <= i < wids.len() && wids[i] == wid;
            assert(list[i].0 == wid);
        }
    }
    assert forall|i: int, j: int| 0 <= i < j < list.len() implies comes_before(
        v,
        main,
        (#[trigger] list[i]).0,
        (#[trigger] list[j]).0,
    ) by {
        lemma_part_of(a, b, c, i);
        lemma_part_of(a, b, c, j);
        assert(wids == a + b + c);
        // Only one window is the main one.
        if j < a.len() {
            assert(a[i].rank() < a[j].rank());
        }
    }
}

/// The element is of the first, the second or the third part.
proof fn lemma_part_of(a: Seq<WindowId>, b: Seq<WindowId>, c: Seq<WindowId>, i: int)
    requires
        0 <= i < (a + b + c).len(),
    ensures
        i < a.len() ==> (a + b + c)[i] == a[i],
        a.len() <= i < a.len() + b.len() ==> (a + b + c)[i] == b[i - a.len()],
        a.len() + b.len() <= i ==> (a + b + c)[i] == c[i - a.len() - b.len()],
{
}

proof fn lemma_preferred_part(v: ReactorView, pid: Pid, main: Option<WindowId>, preference: int)
    requires
        rising(in_order(v.windows.dom())),
    ensures
        rising(v.preferred(pid, main, preference)),
        forall|i: int|
            0 <= i < v.preferred(pid, main, preference).len() ==> v.preference(
                #[trigger] v.preferred(pid, main, preference)[i],
                main,
            ) == preference,
{
    let p = |w: WindowId| w.pid == pid && v.preference(w, main) == preference;
    let all = in_order(v.windows.dom());
    let part = v.preferred(pid, main, preference);
    assert(part == all.filter(p));
    lemma_filter_rises(all, p);
    assert forall|i: int| 0 <= i < part.len() implies v.preference(#[trigger] part[i], main) == preference by {
        assert(part.contains(part[i]));
        lemma_filter_from(all, p, part[i]);
    }
}

// ---- What is kept ----

/// An app that is hidden or shown is known as before but for that, and the
/// other apps are not concerned.
pub proof fn hiding_keeps_what_else_is_known(v: ReactorView, pid: Pid, hidden: bool, focus: Focus, other: Pid)
    requires
        v.apps.dom().contains(pid),
    ensures
        ({
            let after = v.handling(Event::ApplicationHiddenChanged(pid, hidden), focus).state;
            &&& after.apps[pid].info.bundle_id == v.apps[pid].info.bundle_id
            &&& after.apps[pid].info.localized_name == v.apps[pid].info.localized_name
            &&& after.apps[pid].info.is_hidden == hidden
            &&& after.apps[pid].handle == v.apps[pid].handle
            &&& other != pid ==> after.apps.dom().contains(other) == v.apps.dom().contains(other)
                && after.apps[other] == v.apps[other]
        }),
{
}

/// The end of an app's thread concerns no other app and no move of another
/// app's window.
pub proof fn end_of_an_app_concerns_no_other(
    v: ReactorView,
    pid: Pid,
    focus: Focus,
    other: Pid,
    wid: WindowId,
)
    requires
        other != pid,
        wid.pid != pid,
    ensures
        ({
            let after = v.handling(Event::ApplicationThreadTerminated(pid), focus).state;
            &&& after.apps.dom().contains(other) == v.apps.dom().contains(other)
            &&& after.apps[other] == v.apps[other]
            &&& after.pending_space_moves.dom().contains(wid) == v.pending_space_moves.dom().contains(wid)
            &&& v.pending_space_moves.dom().contains(wid) ==> after.pending_space_moves[wid]
                == v.pending_space_moves[wid]
            &&& after.windows == v.windows
        }),
{
}

/// The end of a window concerns no move of another window and no attempt on it.
pub proof fn end_of_a_window_concerns_no_other(v: ReactorView, wid: WindowId, focus: Focus, other: WindowId)
    requires
        other != wid,
    ensures
        ({
            let after = v.handling(Event::WindowDestroyed(wid), focus).state;
            &&& after.pending_space_moves.dom().contains(other) == v.pending_space_moves.dom().contains(other)
            &&& after.pending_space_moves[other] == v.pending_space_moves[other]
            &&& after.frame_attempts.dom().contains(other) == v.frame_attempts.dom().contains(other)
            &&& after.frame_attempts[other] == v.frame_attempts[other]
        }),
{
}

} // verus!
