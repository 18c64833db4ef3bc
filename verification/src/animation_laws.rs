//! What holds of animations as a whole.
use vstd::prelude::*;

use crate::animation::{
    begin_one, begun, carried_over, continuing, end_request, ended, finished, first_with,
    frame_requests, has_window, patched, same_ids, set_frame, sized_frame, written, AnimatedWindow, Animation,
    Message, FRAMES,
};
use crate::animation_manager::{
    active_finished, after_message, after_tick, current_frames, end_scrolling, message_requests, not_scrolling,
    retargeted, scroll_ended, scroll_requests, scrolled, tick_requests, ActiveView, ManagerView, ScrollingWindow,
};
use crate::geometry::Rect;
use crate::ids::WindowId;
use crate::ordered::{in_order, lemma_can_be_ordered, rising};
use crate::request::{Request, Sent};
use crate::sequences::{each, lemma_filter_from, lemma_filter_push};

verus! {

/// No window occurs twice.
pub open spec fn distinct(windows: Seq<AnimatedWindow>) -> bool {
    forall|i: int, j: int| 0 <= i < j < windows.len() ==> (#[trigger] windows[i]).wid != (#[trigger] windows[j]).wid
}

/// How often the window occurs.
pub open spec fn times(windows: Seq<AnimatedWindow>, wid: WindowId) -> int
    decreases windows.len(),
{
    if windows.len() == 0 {
        0
    } else {
        times(windows.drop_last(), wid) + (if windows.last().wid == wid {
            1int
        } else {
            0
        })
    }
}

/// What a request adds to the number of animations begun and not ended.
pub open spec fn opens(s: Sent, wid: WindowId) -> int {
    match s.request {
        Request::BeginWindowAnimation(w) => if w == wid {
            1
        } else {
            0
        },
        Request::EndWindowAnimation(w) => if w == wid {
            -1
        } else {
            0
        },
        _ => 0,
    }
}

/// How many more animations of the window the requests begin than end.
pub open spec fn balance(sent: Seq<Sent>, wid: WindowId) -> int
    decreases sent.len(),
{
    if sent.len() == 0 {
        0
    } else {
        balance(sent.drop_last(), wid) + opens(sent.last(), wid)
    }
}

/// The window takes part in the layout animation or the scroll animation.
pub open spec fn is_begun(v: ManagerView, wid: WindowId) -> bool {
    (v.active matches Some(a) && has_window(a.windows, wid)) || v.scrolling.dom().contains(wid)
}

pub open spec fn one_if(b: bool) -> int {
    if b {
        1
    } else {
        0
    }
}

/// The layout animation and the scroll animation do not run together.
pub open spec fn exclusive(v: ManagerView) -> bool {
    &&& v.active is Some ==> v.scrolling == Map::<WindowId, ScrollingWindow>::empty()
    &&& v.scrolling.dom().finite()
}

/// The layout animation and the scroll animation do not run together, and no
/// window takes part in one of them twice.
pub open spec fn orderly(v: ManagerView) -> bool {
    &&& exclusive(v)
    &&& v.active matches Some(a) ==> distinct(a.windows)
}

/// The windows that a message moves.
pub open spec fn windows_of(message: Message) -> Seq<AnimatedWindow> {
    match message {
        Message::Replace(a) => a@,
        Message::SkipToEnd(a) => a@,
        Message::ScrollFrame(a) => a@,
        Message::ScrollEnd(a) => a@,
        Message::ScrollWindowFrame(_, _) => Seq::empty(),
    }
}

proof fn lemma_balance_add(a: Seq<Sent>, b: Seq<Sent>, wid: WindowId)
    ensures
        balance(a + b, wid) == balance(a, wid) + balance(b, wid),
    decreases b.len(),
{
    if b.len() == 0 {
        assert(a + b =~= a);
    } else {
        lemma_balance_add(a, b.drop_last(), wid);
        assert((a + b).drop_last() =~= a + b.drop_last());
        assert((a + b).last() == b.last());
    }
}

proof fn lemma_balance_one(s: Sent, wid: WindowId)
    ensures
        balance(seq![s], wid) == opens(s, wid),
{
    assert(seq![s].drop_last() =~= Seq::empty());
    assert(balance(Seq::empty(), wid) == 0);
}

proof fn lemma_balance_two(s: Sent, t: Sent, wid: WindowId)
    ensures
        balance(seq![s, t], wid) == opens(s, wid) + opens(t, wid),
{
    assert(seq![s, t].drop_last() =~= seq![s]);
    lemma_balance_one(s, wid);
}

proof fn lemma_times(windows: Seq<AnimatedWindow>, wid: WindowId)
    requires
        distinct(windows),
    ensures
        times(windows, wid) == one_if(has_window(windows, wid)),
    decreases windows.len(),
{
    if windows.len() > 0 {
        let rest = windows.drop_last();
        lemma_times(rest, wid);
        assert(has_window(rest, wid) ==> has_window(windows, wid)) by {
            if has_window(rest, wid) {
                let i = choose|i: int| 0 <= i < rest.len() && (#[trigger] rest[i]).wid == wid;
                assert(windows[i].wid == wid);
            }
        }
        if windows.last().wid == wid {
            assert(windows[windows.len() - 1].wid == wid);
            if has_window(rest, wid) {
                let i = choose|i: int| 0 <= i < rest.len() && (#[trigger] rest[i]).wid == wid;
                assert(windows[i].wid != windows[windows.len() - 1].wid);
            }
        } else if has_window(windows, wid) {
            let i = choose|i: int| 0 <= i < windows.len() && (#[trigger] windows[i]).wid == wid;
            assert(rest[i].wid == wid);
        }
    }
}

proof fn lemma_balance_finished(windows: Seq<AnimatedWindow>, wid: WindowId)
    ensures
        balance(finished(windows), wid) == -times(windows, wid),
    decreases windows.len(),
{
    if windows.len() > 0 {
        let w = windows.last();
        lemma_balance_finished(windows.drop_last(), wid);
        lemma_balance_two(sized_frame(w, w.finish), end_request(w), wid);
        lemma_balance_add(
            finished(windows.drop_last()),
            seq![sized_frame(w, w.finish), end_request(w)],
            wid,
        );
    }
}

proof fn lemma_balance_begun(windows: Seq<AnimatedWindow>, skip: Seq<WindowId>, wid: WindowId)
    ensures
        balance(begun(windows, skip), wid) == (if skip.contains(wid) {
            0
        } else {
            times(windows, wid)
        }),
    decreases windows.len(),
{
    if windows.len() > 0 {
        let w = windows.last();
        lemma_balance_begun(windows.drop_last(), skip, wid);
        let first = if skip.contains(w.wid) {
            Seq::<Sent>::empty()
        } else {
            begin_one(w)
        };
        lemma_balance_add(begun(windows.drop_last(), skip), first, wid);
        lemma_balance_one(crate::animation::begin_request(w), wid);
        lemma_balance_two(
            crate::animation::begin_request(w),
            sized_frame(w, crate::animation::start_in_final_size(w)),
            wid,
        );
    }
}

proof fn lemma_balance_ended(windows: Seq<AnimatedWindow>, wid: WindowId)
    ensures
        balance(ended(windows), wid) == -times(windows, wid),
    decreases windows.len(),
{
    if windows.len() > 0 {
        lemma_balance_ended(windows.drop_last(), wid);
        assert(ended(windows).drop_last() =~= ended(windows.drop_last()));
        assert(ended(windows).last() == end_request(windows.last()));
    }
}

/// Requests that begin and end nothing.
proof fn lemma_balance_none(sent: Seq<Sent>, wid: WindowId)
    requires
        forall|i: int| 0 <= i < sent.len() ==> opens(#[trigger] sent[i], wid) == 0,
    ensures
        balance(sent, wid) == 0,
    decreases sent.len(),
{
    if sent.len() > 0 {
        assert forall|i: int| 0 <= i < sent.drop_last().len() implies opens(#[trigger] sent.drop_last()[i], wid) == 0 by {
            assert(sent.drop_last()[i] == sent[i]);
        }
        lemma_balance_none(sent.drop_last(), wid);
        assert(opens(sent[sent.len() - 1], wid) == 0);
    }
}

proof fn lemma_balance_end_scrolling(scrolling: Map<WindowId, ScrollingWindow>, wids: Seq<WindowId>, wid: WindowId)
    requires
        rising(wids),
    ensures
        balance(each(wids, |w: WindowId| end_scrolling(scrolling, w)), wid) == -one_if(wids.contains(wid)),
    decreases wids.len(),
{
    let f = |w: WindowId| end_scrolling(scrolling, w);
    if wids.len() > 0 {
        let rest = wids.drop_last();
        let last = wids.last();
        assert(rising(rest)) by {
            assert forall|i: int, j: int| 0 <= i < j < rest.len() implies crate::ordered::Key::rank(
                #[trigger] rest[i],
            ) < crate::ordered::Key::rank(#[trigger] rest[j]) by {
                assert(rest[i] == wids[i] && rest[j] == wids[j]);
            }
        }
        lemma_balance_end_scrolling(scrolling, rest, wid);
        let two = end_scrolling(scrolling, last);
        lemma_balance_two(two[0], two[1], wid);
        assert(two =~= seq![two[0], two[1]]);
        lemma_balance_add(each(rest, f), two, wid);
        if rest.contains(wid) {
            let i = choose|i: int| 0 <= i < rest.len() && rest[i] == wid;
            assert(wids[i] == wid);
            assert(crate::ordered::Key::rank(wids[i]) < crate::ordered::Key::rank(wids[wids.len() - 1]));
        }
        if wids.contains(wid) && last != wid {
            let i = choose|i: int| 0 <= i < wids.len() && wids[i] == wid;
            assert(rest[i] == wid);
        }
        if last == wid {
            assert(wids[wids.len() - 1] == wid);
        }
    }
}

proof fn lemma_balance_scroll_ended(scrolling: Map<WindowId, ScrollingWindow>, wid: WindowId)
    requires
        scrolling.dom().finite(),
    ensures
        balance(scroll_ended(scrolling), wid) == -one_if(scrolling.dom().contains(wid)),
{
    lemma_can_be_ordered(scrolling.dom());
    let wids = in_order(scrolling.dom());
    lemma_balance_end_scrolling(scrolling, wids, wid);
    assert(wids.contains(wid) == wids.to_set().contains(wid));
}

proof fn lemma_balance_scroll(scrolling: Map<WindowId, ScrollingWindow>, windows: Seq<AnimatedWindow>, wid: WindowId)
    ensures
        balance(scroll_requests(scrolling, windows), wid) == one_if(scrolled(scrolling, windows).dom().contains(wid))
            - one_if(scrolling.dom().contains(wid)),
        scrolling.dom().contains(wid) ==> scrolled(scrolling, windows).dom().contains(wid),
    decreases windows.len(),
{
    if windows.len() > 0 {
        let w = windows.last();
        let rest = windows.drop_last();
        lemma_balance_scroll(scrolling, rest, wid);
        let begin = if scrolled(scrolling, rest).dom().contains(w.wid) {
            Seq::empty()
        } else {
            seq![Sent { handle: w.handle, request: Request::BeginWindowAnimation(w.wid) }]
        };
        let moved = seq![crate::animation_manager::scroll_request(w)];
        let before = scroll_requests(scrolling, rest);
        lemma_balance_add(before, begin, wid);
        lemma_balance_add(before + begin, moved, wid);
        lemma_balance_one(crate::animation_manager::scroll_request(w), wid);
        lemma_balance_one(Sent { handle: w.handle, request: Request::BeginWindowAnimation(w.wid) }, wid);
    }
}

proof fn lemma_scrolled_finite(scrolling: Map<WindowId, ScrollingWindow>, windows: Seq<AnimatedWindow>)
    requires
        scrolling.dom().finite(),
    ensures
        scrolled(scrolling, windows).dom().finite(),
    decreases windows.len(),
{
    if windows.len() > 0 {
        lemma_scrolled_finite(scrolling, windows.drop_last());
    }
}

proof fn lemma_retargeted(scrolling: Map<WindowId, ScrollingWindow>, windows: Seq<AnimatedWindow>)
    ensures
        retargeted(scrolling, windows).dom() == scrolling.dom(),
    decreases windows.len(),
{
    if windows.len() > 0 {
        lemma_retargeted(scrolling, windows.drop_last());
        assert(retargeted(scrolling, windows).dom() =~= scrolling.dom());
    }
}

/// Other starts leave the windows and their order as they are.
pub proof fn lemma_patched(windows: Seq<AnimatedWindow>, current: Seq<(WindowId, Rect)>)
    ensures
        same_ids(patched(windows, current), windows),
    decreases current.len(),
{
    if current.len() > 0 {
        lemma_patched(windows, current.drop_last());
        let before = patched(windows, current.drop_last());
        let wid = current.last().0;
        if has_window(before, wid) {
            lemma_first(before, wid);
        }
    }
}

/// A window that takes part has a first place.
pub proof fn lemma_first(windows: Seq<AnimatedWindow>, wid: WindowId)
    requires
        has_window(windows, wid),
    ensures
        0 <= first_with(windows, wid) < windows.len(),
        windows[first_with(windows, wid)].wid == wid,
{
    let i = choose|i: int| 0 <= i < windows.len() && (#[trigger] windows[i]).wid == wid;
    lemma_first_upto(windows, wid, i);
}

proof fn lemma_first_upto(windows: Seq<AnimatedWindow>, wid: WindowId, i: int)
    requires
        0 <= i < windows.len(),
        windows[i].wid == wid,
    ensures
        exists|k: int|
            0 <= k < windows.len() && (#[trigger] windows[k]).wid == wid && (forall|j: int|
                0 <= j < k ==> (#[trigger] windows[j]).wid != wid),
    decreases i,
{
    if forall|j: int| 0 <= j < i ==> (#[trigger] windows[j]).wid != wid {
        assert(windows[i].wid == wid);
    } else {
        let j = choose|j: int| 0 <= j < i && (#[trigger] windows[j]).wid == wid;
        lemma_first_upto(windows, wid, j);
    }
}

/// Lists of the same windows hold the same ones.
pub proof fn lemma_same_ids_has(a: Seq<AnimatedWindow>, b: Seq<AnimatedWindow>, wid: WindowId)
    requires
        same_ids(a, b),
    ensures
        has_window(a, wid) == has_window(b, wid),
        distinct(b) ==> distinct(a),
        times(a, wid) == times(b, wid),
    decreases a.len(),
{
    if has_window(a, wid) {
        let i = choose|i: int| 0 <= i < a.len() && (#[trigger] a[i]).wid == wid;
        assert(b[i].wid == wid);
    }
    if has_window(b, wid) {
        let i = choose|i: int| 0 <= i < b.len() && (#[trigger] b[i]).wid == wid;
        assert(a[i].wid == wid);
    }
    if distinct(b) {
        assert forall|i: int, j: int| 0 <= i < j < a.len() implies (#[trigger] a[i]).wid != (#[trigger] a[j]).wid by {
            assert(b[i].wid != b[j].wid);
        }
    }
    if a.len() > 0 {
        assert(same_ids(a.drop_last(), b.drop_last())) by {
            assert forall|i: int| 0 <= i < a.drop_last().len() implies (#[trigger] a.drop_last()[i]).wid
                == b.drop_last()[i].wid by {
                assert(a[i].wid == b[i].wid);
            }
        }
        lemma_same_ids_has(a.drop_last(), b.drop_last(), wid);
        assert(a[a.len() - 1].wid == b[a.len() - 1].wid);
    }
}

proof fn lemma_carried(
    windows: Seq<AnimatedWindow>,
    previous: Seq<AnimatedWindow>,
    current: Seq<(WindowId, Rect)>,
    wid: WindowId,
)
    requires
        distinct(windows),
    ensures
        distinct(carried_over(windows, previous, current)),
        has_window(carried_over(windows, previous, current), wid) == (has_window(windows, wid) || has_window(
            previous,
            wid,
        )),
    decreases previous.len(),
{
    if previous.len() > 0 {
        let rest = previous.drop_last();
        let w = previous.last();
        lemma_carried(windows, rest, current, wid);
        lemma_carried(windows, rest, current, w.wid);
        let before = carried_over(windows, rest, current);
        let after = carried_over(windows, previous, current);
        assert(has_window(previous, wid) == (has_window(rest, wid) || w.wid == wid)) by {
            if has_window(previous, wid) {
                let i = choose|i: int| 0 <= i < previous.len() && (#[trigger] previous[i]).wid == wid;
                if i < rest.len() {
                    assert(rest[i].wid == wid);
                }
            }
            if has_window(rest, wid) {
                let i = choose|i: int| 0 <= i < rest.len() && (#[trigger] rest[i]).wid == wid;
                assert(previous[i].wid == wid);
            }
            if w.wid == wid {
                assert(previous[previous.len() - 1].wid == wid);
            }
        }
        if !has_window(before, w.wid) {
            assert forall|i: int, j: int| 0 <= i < j < after.len() implies (#[trigger] after[i]).wid != (
            #[trigger] after[j]).wid by {
                assert(after[i] == before[i]);
                if j < before.len() {
                    assert(before[i].wid != before[j].wid);
                } else {
                    assert(before[i].wid != w.wid);
                }
            }
            assert(has_window(after, wid) == (has_window(before, wid) || w.wid == wid)) by {
                if has_window(after, wid) {
                    let i = choose|i: int| 0 <= i < after.len() && (#[trigger] after[i]).wid == wid;
                    if i < before.len() {
                        assert(before[i].wid == wid);
                    }
                }
                if has_window(before, wid) {
                    let i = choose|i: int| 0 <= i < before.len() && (#[trigger] before[i]).wid == wid;
                    assert(after[i].wid == wid);
                }
                if w.wid == wid {
                    assert(after[before.len() as int].wid == wid);
                }
            }
        }
    }
}

/// The windows that go on are those of both animations.
pub proof fn lemma_continuing(next: Seq<AnimatedWindow>, a: ActiveView, wid: WindowId)
    ensures
        continuing(next, current_frames(a)).contains(wid) == (has_window(next, wid) && has_window(a.windows, wid)),
{
    let current = current_frames(a);
    let p = |c: (WindowId, Rect)| has_window(next, c.0);
    let kept = current.filter(p);
    let ids = continuing(next, current);
    assert(ids =~= kept.map_values(|c: (WindowId, Rect)| c.0));
    if ids.contains(wid) {
        let i = choose|i: int| 0 <= i < ids.len() && ids[i] == wid;
        assert(kept[i].0 == wid);
        assert(kept.contains(kept[i]));
        crate::sequences::lemma_filter_from(current, p, kept[i]);
        let j = choose|j: int| 0 <= j < current.len() && current[j] == kept[i];
        assert(a.windows[j].wid == wid);
    }
    if has_window(next, wid) && has_window(a.windows, wid) {
        let j = choose|j: int| 0 <= j < a.windows.len() && (#[trigger] a.windows[j]).wid == wid;
        assert(current[j].0 == wid);
        current.lemma_filter_contains(p, j);
        let i = choose|i: int| 0 <= i < kept.len() && kept[i] == current[j];
        assert(ids[i] == wid);
    }
}

// ---- Laws ----

/// The layout animation and the scroll animation never run together, and no
/// window takes part in one twice, as long as no message names a window twice.
pub proof fn animations_stay_orderly(v: ManagerView, message: Message)
    requires
        orderly(v),
        distinct(windows_of(message)),
    ensures
        orderly(after_message(v, message)),
{
    match message {
        Message::Replace(next) => {
            match v.active {
                Some(a) => {
                    let current = current_frames(a);
                    lemma_patched(next@, current);
                    let some = WindowId { pid: 0, idx: 0 };
                    lemma_same_ids_has(patched(next@, current), next@, some);
                    lemma_carried(patched(next@, current), a.windows, current, some);
                },
                None => {},
            }
        },
        Message::ScrollFrame(step) => {
            lemma_scrolled_finite(v.scrolling, step@);
        },
        _ => {},
    }
}

/// A tick keeps the animations orderly.
pub proof fn ticks_stay_orderly(v: ManagerView, at: Seq<Rect>)
    requires
        orderly(v),
    ensures
        orderly(after_tick(v, at)),
{
}

/// Every animation that is begun is ended once, and none is ended that was not
/// begun: a message begins the animation of a window exactly if the window did
/// not take part before and does so after it, and ends it in the other case.
pub proof fn begins_and_ends_balance(v: ManagerView, message: Message, wid: WindowId)
    requires
        orderly(v),
        distinct(windows_of(message)),
    ensures
        balance(message_requests(v, message), wid) == one_if(is_begun(after_message(v, message), wid)) - one_if(
            is_begun(v, wid),
        ),
{
    lemma_balance_scroll_ended(v.scrolling, wid);
    match v.active {
        Some(a) => {
            lemma_balance_finished(a.windows, wid);
            lemma_times(a.windows, wid);
        },
        None => {},
    }
    match message {
        Message::Replace(next) => {
            lemma_times(next@, wid);
            match v.active {
                Some(a) => {
                    let current = current_frames(a);
                    let patch = patched(next@, current);
                    let kept = continuing(next@, current);
                    lemma_patched(next@, current);
                    lemma_same_ids_has(patch, next@, wid);
                    lemma_carried(patch, a.windows, current, wid);
                    lemma_continuing(next@, a, wid);
                    lemma_balance_begun(patch, kept, wid);
                    lemma_balance_add(scroll_ended(v.scrolling), begun(patch, kept), wid);
                },
                None => {
                    lemma_balance_begun(next@, Seq::empty(), wid);
                    lemma_balance_add(scroll_ended(v.scrolling), begun(next@, Seq::empty()), wid);
                },
            }
        },
        Message::SkipToEnd(next) => {
            let a = scroll_ended(v.scrolling);
            let b = active_finished(v.active);
            lemma_balance_none(written(next@), wid);
            lemma_balance_add(a, b, wid);
            lemma_balance_add(a + b, written(next@), wid);
        },
        Message::ScrollFrame(step) => {
            lemma_balance_scroll(v.scrolling, step@, wid);
            lemma_balance_add(active_finished(v.active), scroll_requests(v.scrolling, step@), wid);
        },
        Message::ScrollEnd(last) => {
            let a = active_finished(v.active);
            let b = written(not_scrolling(v.scrolling, last@));
            let c = scroll_ended(retargeted(v.scrolling, last@));
            lemma_retargeted(v.scrolling, last@);
            lemma_balance_none(b, wid);
            lemma_balance_scroll_ended(retargeted(v.scrolling, last@), wid);
            lemma_balance_add(a, b, wid);
            lemma_balance_add(a + b, c, wid);
        },
        Message::ScrollWindowFrame(_, _) => {},
    }
}

/// The layout animation and the scroll animation never run together, whatever
/// the messages and the ticks.
pub proof fn animations_stay_exclusive(v: ManagerView, message: Message, at: Seq<Rect>)
    requires
        exclusive(v),
    ensures
        exclusive(after_message(v, message)),
        exclusive(after_tick(v, at)),
        exclusive(ManagerView { active: None, scrolling: Map::empty() }),
{
    match message {
        Message::ScrollFrame(step) => lemma_scrolled_finite(v.scrolling, step@),
        _ => {},
    }
}

/// A tick ends the animations it completes, and begins none.
pub proof fn ticks_balance(v: ManagerView, at: Seq<Rect>, wid: WindowId)
    requires
        orderly(v),
    ensures
        balance(tick_requests(v, at), wid) == one_if(is_begun(after_tick(v, at), wid)) - one_if(is_begun(v, wid)),
{
    match v.active {
        Some(a) => {
            let frames = frame_requests(a.windows, a.next_frame, at);
            lemma_balance_none(frames, wid);
            lemma_balance_ended(a.windows, wid);
            lemma_times(a.windows, wid);
            lemma_balance_add(frames, ended(a.windows), wid);
            lemma_balance_add(frames, Seq::empty(), wid);
        },
        None => {},
    }
}

/// Replacing an animation drops no window: those that the new one does not
/// mention are carried over.
pub proof fn replacement_keeps_every_window(v: ManagerView, a: ActiveView, next: Animation, wid: WindowId)
    requires
        v.active == Some(a),
        distinct(next@),
        has_window(next@, wid) || has_window(a.windows, wid),
    ensures
        is_begun(after_message(v, Message::Replace(next)), wid),
{
    let current = current_frames(a);
    lemma_patched(next@, current);
    lemma_same_ids_has(patched(next@, current), next@, wid);
    lemma_carried(patched(next@, current), a.windows, current, wid);
}

/// Ending a scroll twice ends nothing again.
pub proof fn second_scroll_end_sends_nothing(v: ManagerView, first: Animation, second: Animation)
    requires
        second@.len() == 0,
    ensures
        message_requests(after_message(v, Message::ScrollEnd(first)), Message::ScrollEnd(second))
            == Seq::<Sent>::empty(),
{
    let after = after_message(v, Message::ScrollEnd(first));
    let none = Map::<WindowId, ScrollingWindow>::empty();
    assert(after.scrolling == none);
    lemma_can_be_ordered(none.dom());
    let wids = in_order(none.dom());
    assert(wids.len() == 0) by {
        if wids.len() > 0 {
            assert(wids.to_set().contains(wids[0]));
        }
    }
    assert(retargeted(none, second@) == none);
    assert(not_scrolling(none, second@) =~= Seq::empty()) by {
        reveal(Seq::filter);
    }
    assert(scroll_ended(none) =~= Seq::empty());
    assert(message_requests(after, Message::ScrollEnd(second)) =~= Seq::empty());
}

/// A scroll end in which the window takes no part is a plain write.
pub proof fn window_that_does_not_scroll_is_written(v: ManagerView, w: AnimatedWindow, last: Animation)
    requires
        v.active is None,
        v.scrolling == Map::<WindowId, ScrollingWindow>::empty(),
        last@ == seq![w],
    ensures
        message_requests(v, Message::ScrollEnd(last)) == seq![
            Sent { handle: w.handle, request: Request::SetWindowFrame(w.wid, w.finish, w.txid) },
        ],
{
    let none = v.scrolling;
    lemma_can_be_ordered(none.dom());
    let wids = in_order(none.dom());
    assert(wids.len() == 0) by {
        if wids.len() > 0 {
            assert(wids.to_set().contains(wids[0]));
        }
    }
    lemma_retargeted(none, last@);
    assert(retargeted(none, last@) =~= none);
    assert(scroll_ended(none) =~= Seq::empty());
    let p = |w: AnimatedWindow| !none.dom().contains(w.wid);
    assert(Seq::<AnimatedWindow>::empty().filter(p) =~= Seq::empty()) by {
        reveal(Seq::filter);
    }
    lemma_filter_push(Seq::<AnimatedWindow>::empty(), p, w);
    assert(Seq::<AnimatedWindow>::empty().push(w) =~= last@);
    assert(not_scrolling(none, last@) =~= seq![w]);
    assert(message_requests(v, Message::ScrollEnd(last)) =~= seq![set_frame(w)]);
}

/// What an app makes of the requests: the frames of its windows, and the last
/// sized frame of each animation, which is applied again at its end.
#[verifier::ext_equal]
pub struct Shown {
    pub frames: Map<WindowId, Rect>,
    pub sized: Map<WindowId, Rect>,
}

/// What an app makes of one more request.
pub open spec fn shown_by(s: Shown, sent: Sent) -> Shown {
    match sent.request {
        Request::SetWindowFrame(wid, frame, _) => Shown { frames: s.frames.insert(wid, frame), ..s },
        Request::AnimationFrame { wid, frame, set_size, .. } => if set_size {
            Shown { frames: s.frames.insert(wid, frame), sized: s.sized.insert(wid, frame) }
        } else if s.frames.dom().contains(wid) {
            Shown {
                frames: s.frames.insert(wid, Rect { origin: frame.origin, size: s.frames[wid].size }),
                ..s
            }
        } else {
            Shown { frames: s.frames.insert(wid, frame), ..s }
        },
        Request::BeginWindowAnimation(wid) => Shown { sized: s.sized.remove(wid), ..s },
        Request::EndWindowAnimation(wid) => if s.sized.dom().contains(wid) {
            Shown { frames: s.frames.insert(wid, s.sized[wid]), sized: s.sized.remove(wid) }
        } else {
            s
        },
        _ => s,
    }
}

/// What an app makes of requests.
pub open spec fn shown(s: Shown, sent: Seq<Sent>) -> Shown
    decreases sent.len(),
{
    if sent.len() == 0 {
        s
    } else {
        shown_by(shown(s, sent.drop_last()), sent.last())
    }
}

proof fn lemma_shown_add(s: Shown, a: Seq<Sent>, b: Seq<Sent>)
    ensures
        shown(s, a + b) == shown(shown(s, a), b),
    decreases b.len(),
{
    if b.len() == 0 {
        assert(a + b =~= a);
    } else {
        lemma_shown_add(s, a, b.drop_last());
        assert((a + b).drop_last() =~= a + b.drop_last());
        assert((a + b).last() == b.last());
    }
}

proof fn lemma_shown_end(s: Shown, scrolling: Map<WindowId, ScrollingWindow>, wids: Seq<WindowId>, wid: WindowId)
    ensures
        ({
            let after = shown(s, each(wids, |w: WindowId| end_scrolling(scrolling, w)));
            &&& wids.contains(wid) ==> after.frames.dom().contains(wid) && after.frames[wid] == scrolling[wid].frame
            &&& !wids.contains(wid) ==> after.frames.dom().contains(wid) == s.frames.dom().contains(wid)
            &&& !wids.contains(wid) ==> after.frames[wid] == s.frames[wid]
        }),
    decreases wids.len(),
{
    let f = |w: WindowId| end_scrolling(scrolling, w);
    if wids.len() > 0 {
        let rest = wids.drop_last();
        let last = wids.last();
        lemma_shown_end(s, scrolling, rest, wid);
        let mid = shown(s, each(rest, f));
        let two = end_scrolling(scrolling, last);
        lemma_shown_add(s, each(rest, f), two);
        assert(two.drop_last() =~= seq![two[0]]);
        assert(seq![two[0]].drop_last() =~= Seq::empty());
        assert(shown(mid, Seq::empty()) == mid);
        assert(shown(mid, seq![two[0]]) == shown_by(mid, two[0]));
        assert(shown(mid, two) == shown_by(shown_by(mid, two[0]), two[1]));
        assert(rest.contains(wid) ==> wids.contains(wid)) by {
            if rest.contains(wid) {
                let i = choose|i: int| 0 <= i < rest.len() && rest[i] == wid;
                assert(wids[i] == wid);
            }
        }
        if last == wid {
            assert(wids[wids.len() - 1] == wid);
        } else if wids.contains(wid) {
            let i = choose|i: int| 0 <= i < wids.len() && wids[i] == wid;
            assert(rest[i] == wid);
        }
    }
}

/// However the windows were shown before, the end of a scroll leaves every
/// window that took part in it at its last target.
pub proof fn scroll_end_leaves_windows_at_their_last_target(
    s: Shown,
    v: ManagerView,
    last: Animation,
    wid: WindowId,
)
    requires
        v.scrolling.dom().finite(),
        v.scrolling.dom().contains(wid),
    ensures
        shown(s, message_requests(v, Message::ScrollEnd(last))).frames.dom().contains(wid),
        shown(s, message_requests(v, Message::ScrollEnd(last))).frames[wid] == retargeted(
            v.scrolling,
            last@,
        )[wid].frame,
        !has_window(last@, wid) ==> retargeted(v.scrolling, last@)[wid] == v.scrolling[wid],
{
    let m = retargeted(v.scrolling, last@);
    lemma_retargeted(v.scrolling, last@);
    lemma_can_be_ordered(m.dom());
    let wids = in_order(m.dom());
    let a = active_finished(v.active) + written(not_scrolling(v.scrolling, last@));
    lemma_shown_add(s, a, scroll_ended(m));
    lemma_shown_end(shown(s, a), m, wids, wid);
    assert(wids.to_set().contains(wid));
    lemma_not_retargeted(v.scrolling, last@, wid);
}

proof fn lemma_not_retargeted(scrolling: Map<WindowId, ScrollingWindow>, windows: Seq<AnimatedWindow>, wid: WindowId)
    ensures
        !has_window(windows, wid) ==> retargeted(scrolling, windows)[wid] == scrolling[wid],
    decreases windows.len(),
{
    if windows.len() > 0 && !has_window(windows, wid) {
        let rest = windows.drop_last();
        assert(!has_window(rest, wid)) by {
            if has_window(rest, wid) {
                let i = choose|i: int| 0 <= i < rest.len() && (#[trigger] rest[i]).wid == wid;
                assert(windows[i].wid == wid);
            }
        }
        assert(windows[windows.len() - 1].wid != wid);
        lemma_not_retargeted(scrolling, rest, wid);
    }
}

/// The window that the request is about.
pub open spec fn about(s: Sent) -> Option<WindowId> {
    match s.request {
        Request::Unminimize(wid) => Some(wid),
        Request::SetWindowFrame(wid, _, _) => Some(wid),
        Request::BeginWindowAnimation(wid) => Some(wid),
        Request::AnimationFrame { wid, .. } => Some(wid),
        Request::EndWindowAnimation(wid) => Some(wid),
        Request::WindowDestroyed(wid) => Some(wid),
        _ => None,
    }
}

/// The requests about the window.
pub open spec fn sent_to(sent: Seq<Sent>, wid: WindowId) -> Seq<Sent> {
    sent.filter(|s: Sent| about(s) == Some(wid))
}

/// What is sent to the window of two lists is what is sent of each.
pub proof fn lemma_sent_add(a: Seq<Sent>, b: Seq<Sent>, wid: WindowId)
    ensures
        sent_to(a + b, wid) == sent_to(a, wid) + sent_to(b, wid),
{
    Seq::filter_distributes_over_add(a, b, |s: Sent| about(s) == Some(wid));
}

/// Two requests about one window are sent to it, or neither is.
pub proof fn lemma_sent_two(s: Sent, t: Sent, wid: WindowId)
    requires
        about(s) == about(t),
    ensures
        sent_to(seq![s, t], wid) == (if about(s) == Some(wid) {
            seq![s, t]
        } else {
            Seq::empty()
        }),
{
    let p = |s: Sent| about(s) == Some(wid);
    let none = Seq::<Sent>::empty();
    assert(none.filter(p) =~= none) by {
        reveal(Seq::filter);
    }
    lemma_filter_push(none, p, s);
    lemma_filter_push(none.push(s), p, t);
    assert(none.push(s).push(t) =~= seq![s, t]);
}

/// Finishing windows sends nothing to another one.
pub proof fn lemma_sent_finished(windows: Seq<AnimatedWindow>, wid: WindowId)
    requires
        !has_window(windows, wid),
    ensures
        sent_to(finished(windows), wid) == Seq::<Sent>::empty(),
    decreases windows.len(),
{
    if windows.len() > 0 {
        let rest = windows.drop_last();
        let w = windows.last();
        assert(!has_window(rest, wid)) by {
            if has_window(rest, wid) {
                let i = choose|i: int| 0 <= i < rest.len() && (#[trigger] rest[i]).wid == wid;
                assert(windows[i].wid == wid);
            }
        }
        assert(windows[windows.len() - 1].wid != wid);
        lemma_sent_finished(rest, wid);
        lemma_sent_two(sized_frame(w, w.finish), end_request(w), wid);
        lemma_sent_add(finished(rest), seq![sized_frame(w, w.finish), end_request(w)], wid);
        assert(finished(windows) == finished(rest) + seq![sized_frame(w, w.finish), end_request(w)]);
    } else {
        assert(sent_to(finished(windows), wid) =~= Seq::empty()) by {
            reveal(Seq::filter);
        }
    }
}

/// Writing windows sends to one what it writes of it.
pub proof fn lemma_sent_written(windows: Seq<AnimatedWindow>, wid: WindowId)
    ensures
        sent_to(written(windows), wid) == written(windows.filter(|w: AnimatedWindow| w.wid == wid)),
    decreases windows.len(),
{
    let p = |w: AnimatedWindow| w.wid == wid;
    let q = |s: Sent| about(s) == Some(wid);
    if windows.len() > 0 {
        let rest = windows.drop_last();
        let w = windows.last();
        lemma_sent_written(rest, wid);
        assert(rest.push(w) =~= windows);
        lemma_filter_push(rest, p, w);
        lemma_filter_push(written(rest), q, set_frame(w));
        assert(written(rest).push(set_frame(w)) =~= written(windows));
        assert(sent_to(written(windows), wid) =~= written(windows.filter(p)));
    } else {
        reveal(Seq::filter);
        assert(sent_to(written(windows), wid) =~= Seq::empty());
        assert(written(windows.filter(p)) =~= Seq::empty());
    }
}

/// Ending the scroll animation of windows ends that of each once.
pub proof fn lemma_sent_ended(scrolling: Map<WindowId, ScrollingWindow>, wids: Seq<WindowId>, wid: WindowId)
    requires
        wids.no_duplicates(),
    ensures
        sent_to(each(wids, |w: WindowId| end_scrolling(scrolling, w)), wid) == (if wids.contains(wid) {
            end_scrolling(scrolling, wid)
        } else {
            Seq::empty()
        }),
    decreases wids.len(),
{
    let f = |w: WindowId| end_scrolling(scrolling, w);
    if wids.len() > 0 {
        let rest = wids.drop_last();
        let last = wids.last();
        lemma_sent_ended(scrolling, rest, wid);
        let two = end_scrolling(scrolling, last);
        lemma_sent_two(two[0], two[1], wid);
        assert(two =~= seq![two[0], two[1]]);
        lemma_sent_add(each(rest, f), two, wid);
        assert(each(wids, f) == each(rest, f) + two);
        if last == wid {
            assert(wids[wids.len() - 1] == wid);
            assert(!rest.contains(wid)) by {
                if rest.contains(wid) {
                    let i = choose|i: int| 0 <= i < rest.len() && rest[i] == wid;
                    assert(wids[i] == wids[wids.len() - 1]);
                }
            }
            assert(sent_to(each(wids, f), wid) =~= two);
        } else {
            assert(rest.contains(wid) == wids.contains(wid)) by {
                if rest.contains(wid) {
                    let i = choose|i: int| 0 <= i < rest.len() && rest[i] == wid;
                    assert(wids[i] == wid);
                }
                if wids.contains(wid) {
                    let i = choose|i: int| 0 <= i < wids.len() && wids[i] == wid;
                    assert(rest[i] == wid);
                }
            }
            assert(sent_to(each(wids, f), wid) =~= sent_to(each(rest, f), wid));
        }
    } else {
        assert(sent_to(each(wids, f), wid) =~= Seq::empty()) by {
            reveal(Seq::filter);
        }
    }
}

proof fn lemma_ended_at(scrolling: Map<WindowId, ScrollingWindow>, wids: Seq<WindowId>, i: int)
    requires
        0 <= i < wids.len(),
    ensures
        ({
            let sent = each(wids, |w: WindowId| end_scrolling(scrolling, w));
            &&& sent.len() == 2 * wids.len()
            &&& sent[2 * i] == end_scrolling(scrolling, wids[i])[0]
            &&& sent[2 * i + 1] == end_scrolling(scrolling, wids[i])[1]
        }),
    decreases wids.len(),
{
    let f = |w: WindowId| end_scrolling(scrolling, w);
    let rest = wids.drop_last();
    assert(each(wids, f) == each(rest, f) + end_scrolling(scrolling, wids.last()));
    if i < rest.len() {
        lemma_ended_at(scrolling, rest, i);
    } else if rest.len() > 0 {
        lemma_ended_at(scrolling, rest, rest.len() - 1);
    }
}

/// The members of a finite set, in order, are distinct.
pub proof fn lemma_in_order_is_distinct(keys: Set<WindowId>)
    requires
        keys.finite(),
    ensures
        in_order(keys).no_duplicates(),
        forall|wid: WindowId| #[trigger] in_order(keys).contains(wid) == keys.contains(wid),
{
    lemma_can_be_ordered(keys);
    let wids = in_order(keys);
    assert(rising(wids));
    assert forall|wid: WindowId| #[trigger] wids.contains(wid) == keys.contains(wid) by {
        assert(wids.contains(wid) == wids.to_set().contains(wid));
    }
}

proof fn lemma_retargeted_to(
    scrolling: Map<WindowId, ScrollingWindow>,
    windows: Seq<AnimatedWindow>,
    i: int,
)
    requires
        distinct(windows),
        0 <= i < windows.len(),
        scrolling.dom().contains(windows[i].wid),
    ensures
        retargeted(scrolling, windows)[windows[i].wid] == (ScrollingWindow {
            frame: windows[i].finish,
            txid: windows[i].txid,
            ..scrolling[windows[i].wid]
        }),
    decreases windows.len(),
{
    let rest = windows.drop_last();
    let w = windows.last();
    lemma_retargeted(scrolling, rest);
    assert(distinct(rest)) by {
        assert forall|a: int, b: int| 0 <= a < b < rest.len() implies (#[trigger] rest[a]).wid != (#[trigger] rest[b]).wid by {
            assert(windows[a].wid != windows[b].wid);
        }
    }
    if i < rest.len() {
        assert(windows[i].wid != windows[windows.len() - 1].wid);
        lemma_retargeted_to(scrolling, rest, i);
    } else {
        assert(!has_window(rest, w.wid)) by {
            if has_window(rest, w.wid) {
                let k = choose|k: int| 0 <= k < rest.len() && (#[trigger] rest[k]).wid == w.wid;
                assert(windows[k].wid != windows[windows.len() - 1].wid);
            }
        }
        lemma_not_retargeted(scrolling, rest, w.wid);
    }
}

proof fn lemma_retargeted_handle(
    scrolling: Map<WindowId, ScrollingWindow>,
    windows: Seq<AnimatedWindow>,
    wid: WindowId,
)
    requires
        scrolling.dom().contains(wid),
    ensures
        retargeted(scrolling, windows)[wid].handle == scrolling[wid].handle,
    decreases windows.len(),
{
    if windows.len() > 0 {
        lemma_retargeted_handle(scrolling, windows.drop_last(), wid);
    }
}

/// What the end of a scroll sends to a window, by its parts.
proof fn lemma_sent_at_scroll_end(v: ManagerView, last: Animation, wid: WindowId)
    requires
        v.scrolling.dom().finite(),
    ensures
        sent_to(message_requests(v, Message::ScrollEnd(last)), wid) == sent_to(active_finished(v.active), wid) + (
        if v.scrolling.dom().contains(wid) {
            end_scrolling(retargeted(v.scrolling, last@), wid)
        } else {
            written(last@.filter(|w: AnimatedWindow| w.wid == wid))
        }),
{
    let m = retargeted(v.scrolling, last@);
    let wids = in_order(m.dom());
    let before = active_finished(v.active);
    let others = not_scrolling(v.scrolling, last@);
    lemma_retargeted(v.scrolling, last@);
    lemma_in_order_is_distinct(m.dom());
    lemma_sent_add(before + written(others), scroll_ended(m), wid);
    lemma_sent_add(before, written(others), wid);
    lemma_sent_written(others, wid);
    lemma_others(v.scrolling, last@, wid);
    lemma_sent_ended(m, wids, wid);
    assert(wids.contains(wid) == v.scrolling.dom().contains(wid));
    let out = sent_to(message_requests(v, Message::ScrollEnd(last)), wid);
    if v.scrolling.dom().contains(wid) {
        assert(written(Seq::<AnimatedWindow>::empty()) =~= Seq::empty());
        assert(out =~= sent_to(before, wid) + end_scrolling(m, wid));
    } else {
        assert(out =~= sent_to(before, wid) + written(last@.filter(|w: AnimatedWindow| w.wid == wid)));
    }
}

/// Of the windows that take no part in the scroll animation, those with the id.
proof fn lemma_others(scrolling: Map<WindowId, ScrollingWindow>, windows: Seq<AnimatedWindow>, wid: WindowId)
    ensures
        not_scrolling(scrolling, windows).filter(|w: AnimatedWindow| w.wid == wid) == (if scrolling.dom().contains(
            wid,
        ) {
            Seq::empty()
        } else {
            windows.filter(|w: AnimatedWindow| w.wid == wid)
        }),
    decreases windows.len(),
{
    let q = |w: AnimatedWindow| !scrolling.dom().contains(w.wid);
    let p = |w: AnimatedWindow| w.wid == wid;
    if windows.len() > 0 {
        let rest = windows.drop_last();
        let w = windows.last();
        lemma_others(scrolling, rest, wid);
        assert(rest.push(w) =~= windows);
        lemma_filter_push(rest, q, w);
        lemma_filter_push(rest.filter(q), p, w);
        lemma_filter_push(rest, p, w);
    } else {
        reveal(Seq::filter);
        assert(windows.filter(q) =~= Seq::empty());
        assert(windows.filter(q).filter(p) =~= Seq::empty());
        assert(windows.filter(p) =~= Seq::empty());
    }
}

/// Where windows are distinct, one has the id.
pub proof fn lemma_only_one(windows: Seq<AnimatedWindow>, i: int)
    requires
        distinct(windows),
        0 <= i < windows.len(),
    ensures
        windows.filter(|w: AnimatedWindow| w.wid == windows[i].wid) == seq![windows[i]],
    decreases windows.len(),
{
    let wid = windows[i].wid;
    let p = |w: AnimatedWindow| w.wid == wid;
    let rest = windows.drop_last();
    let w = windows.last();
    assert(rest.push(w) =~= windows);
    lemma_filter_push(rest, p, w);
    assert(distinct(rest)) by {
        assert forall|a: int, b: int| 0 <= a < b < rest.len() implies (#[trigger] rest[a]).wid != (#[trigger] rest[b]).wid by {
            assert(windows[a].wid != windows[b].wid);
        }
    }
    if i < rest.len() {
        assert(windows[i].wid != windows[windows.len() - 1].wid);
        lemma_only_one(rest, i);
    } else {
        assert(rest.filter(p) =~= Seq::empty()) by {
            if rest.filter(p).len() > 0 {
                let x = rest.filter(p)[0];
                assert(rest.filter(p).contains(x));
                lemma_filter_from(rest, p, x);
                let k = choose|k: int| 0 <= k < rest.len() && rest[k] == x;
                assert(windows[k].wid != windows[windows.len() - 1].wid);
            }
        }
        assert(Seq::empty().push(w) =~= seq![w]);
    }
}

/// The requests that end the scroll animation of a window stand next to each
/// other.
proof fn lemma_end_is_adjacent(v: ManagerView, last: Animation, wid: WindowId) -> (k: int)
    requires
        v.scrolling.dom().finite(),
        v.scrolling.dom().contains(wid),
    ensures
        ({
            let out = message_requests(v, Message::ScrollEnd(last));
            let two = end_scrolling(retargeted(v.scrolling, last@), wid);
            0 <= k < out.len() - 1 && out[k] == two[0] && out[k + 1] == two[1]
        }),
{
    let m = retargeted(v.scrolling, last@);
    let wids = in_order(m.dom());
    lemma_retargeted(v.scrolling, last@);
    lemma_in_order_is_distinct(m.dom());
    assert(wids.contains(wid));
    let i = choose|i: int| 0 <= i < wids.len() && wids[i] == wid;
    lemma_ended_at(m, wids, i);
    let before = active_finished(v.active) + written(not_scrolling(v.scrolling, last@));
    assert(message_requests(v, Message::ScrollEnd(last)) == before + scroll_ended(m));
    before.len() + 2 * i
}

/// The end of a scroll sends every window that takes part in it two requests,
/// next to each other, and nothing else: its last target with its size, and the
/// end of its animation. The last target is the one that comes with the end, if
/// there is one.
pub proof fn scroll_end_ends_each_window_once(v: ManagerView, last: Animation, wid: WindowId)
    requires
        exclusive(v),
        v.scrolling.dom().contains(wid),
    ensures
        ({
            let out = message_requests(v, Message::ScrollEnd(last));
            let target = retargeted(v.scrolling, last@)[wid];
            let frame = Sent {
                handle: v.scrolling[wid].handle,
                request: Request::AnimationFrame { wid, frame: target.frame, set_size: true, txid: target.txid },
            };
            let end = Sent { handle: v.scrolling[wid].handle, request: Request::EndWindowAnimation(wid) };
            &&& sent_to(out, wid) == seq![frame, end]
            &&& exists|k: int| 0 <= k < out.len() - 1 && #[trigger] out[k] == frame && out[k + 1] == end
            &&& distinct(last@) ==> forall|i: int|
                0 <= i < last@.len() && (#[trigger] last@[i]).wid == wid ==> target.frame == last@[i].finish
                    && target.txid == last@[i].txid
            &&& !has_window(last@, wid) ==> target == v.scrolling[wid]
        }),
{
    let m = retargeted(v.scrolling, last@);
    lemma_sent_at_scroll_end(v, last, wid);
    lemma_retargeted_handle(v.scrolling, last@, wid);
    assert(sent_to(active_finished(v.active), wid) =~= Seq::empty()) by {
        reveal(Seq::filter);
    }
    assert(Seq::empty() + end_scrolling(m, wid) =~= end_scrolling(m, wid));
    let k = lemma_end_is_adjacent(v, last, wid);
    if distinct(last@) {
        assert forall|i: int| 0 <= i < last@.len() && (#[trigger] last@[i]).wid == wid implies m[wid].frame
            == last@[i].finish && m[wid].txid == last@[i].txid by {
            lemma_retargeted_to(v.scrolling, last@, i);
        }
    }
    lemma_not_retargeted(v.scrolling, last@, wid);
}

/// The end of a scroll writes every other window that comes with it to its
/// final frame. Only a window of the layout animation, which is finished first,
/// is sent anything else.
pub proof fn scroll_end_writes_the_other_windows(v: ManagerView, last: Animation, wid: WindowId)
    requires
        exclusive(v),
        !v.scrolling.dom().contains(wid),
    ensures
        sent_to(message_requests(v, Message::ScrollEnd(last)), wid) == sent_to(active_finished(v.active), wid)
            + written(last@.filter(|w: AnimatedWindow| w.wid == wid)),
        !is_begun(v, wid) ==> sent_to(active_finished(v.active), wid) == Seq::<Sent>::empty(),
        distinct(last@) ==> forall|i: int|
            0 <= i < last@.len() && (#[trigger] last@[i]).wid == wid ==> written(
                last@.filter(|w: AnimatedWindow| w.wid == wid),
            ) == seq![
                Sent {
                    handle: last@[i].handle,
                    request: Request::SetWindowFrame(wid, last@[i].finish, last@[i].txid),
                },
            ],
{
    lemma_sent_at_scroll_end(v, last, wid);
    match v.active {
        Some(a) => {
            if !has_window(a.windows, wid) {
                lemma_sent_finished(a.windows, wid);
            }
        },
        None => {
            reveal(Seq::filter);
            assert(sent_to(active_finished(v.active), wid) =~= Seq::empty());
        },
    }
    if distinct(last@) {
        assert forall|i: int| 0 <= i < last@.len() && (#[trigger] last@[i]).wid == wid implies written(
            last@.filter(|w: AnimatedWindow| w.wid == wid),
        ) == seq![set_frame(last@[i])] by {
            lemma_only_one(last@, i);
            assert(written(seq![last@[i]]) =~= seq![set_frame(last@[i])]);
        }
    }
}

/// What the manager knows after ticks in which the windows stood at the given
/// places.
pub open spec fn after_ticks(v: ManagerView, at: Seq<Seq<Rect>>) -> ManagerView
    decreases at.len(),
{
    if at.len() == 0 {
        v
    } else {
        after_tick(after_ticks(v, at.drop_last()), at.last())
    }
}

/// An animation ends with its last frame and not before.
pub proof fn animation_ends_after_its_frames(v: ManagerView, at: Seq<Seq<Rect>>)
    requires
        v.active matches Some(a) && a.next_frame == 1,
        at.len() <= FRAMES,
    ensures
        at.len() < FRAMES ==> (after_ticks(v, at).active matches Some(a) && a.next_frame == at.len() + 1 && a.windows
            == v.active->Some_0.windows),
        at.len() == FRAMES ==> after_ticks(v, at).active is None,
    decreases at.len(),
{
    if at.len() > 0 {
        animation_ends_after_its_frames(v, at.drop_last());
    }
}

} // verus!
