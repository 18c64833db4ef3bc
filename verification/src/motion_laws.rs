//! Laws about where animations take each window.
use vstd::prelude::*;

use crate::animation::{
    begin_one, begun, carried_over, continuing, current_or_start, first_with, has_window, patched, start_at,
    AnimatedWindow, Animation, Message,
};
use crate::animation_laws::{
    distinct, exclusive, lemma_continuing, lemma_first, lemma_in_order_is_distinct, lemma_only_one, lemma_patched,
    lemma_same_ids_has, lemma_sent_add, lemma_sent_ended, lemma_sent_finished, lemma_sent_two, lemma_sent_written,
    sent_to,
};
use crate::animation_manager::{
    active_finished, after_message, after_tick, current_frames, message_requests, scroll_ended, tick_requests,
    ActiveView, ManagerView,
};
use crate::geometry::Rect;
use crate::ids::WindowId;
use crate::ordered::in_order;
use crate::request::{Request, Sent};
use crate::sequences::lemma_filter_push;

verus! {

// ---- Frames of an animation ----

/// Before its first frame, a window of an animation stands at its start, and a
/// new one there in its final size. After a frame it stands where that put it:
/// in its final size if it is new or the animation is halfway, and otherwise in
/// the size it started with.
pub proof fn windows_stand_where_they_were_moved(a: ActiveView, i: int)
    requires
        0 <= i < a.windows.len(),
        a.next_frame >= 1,
    ensures
        ({
            let w = a.windows[i];
            let at = current_frames(a)[i].1;
            let done = a.next_frame - 1;
            &&& current_frames(a).len() == a.windows.len()
            &&& current_frames(a)[i].0 == w.wid
            &&& done == 0 ==> at.origin == w.start.origin
            &&& done == 0 ==> at.size == (if w.is_focus {
                w.finish.size
            } else {
                w.start.size
            })
            &&& done > 0 ==> at.origin == a.at[i].origin
            &&& done > 0 && (w.is_focus || done >= 15) ==> at.size == w.finish.size
            &&& done > 0 && !w.is_focus && done < 15 ==> at.size == w.start.size
        }),
{
}

/// A tick moves every window of the animation to its place in the frame, in
/// order, each through its own handle and under its own transaction. Halfway and
/// at the end it also gives the window its final size. After the last frame the
/// animation of every window is ended.
pub proof fn tick_moves_every_window(v: ManagerView, a: ActiveView, at: Seq<Rect>, i: int)
    requires
        v.active == Some(a),
        0 <= i < a.windows.len(),
    ensures
        ({
            let out = tick_requests(v, at);
            let n = a.windows.len() as int;
            let w = a.windows[i];
            let sized = a.next_frame == 15 || a.next_frame == 30;
            &&& out.len() == (if a.next_frame == 30 {
                2 * n
            } else {
                n
            })
            &&& out[i] == (Sent {
                handle: w.handle,
                request: Request::AnimationFrame {
                    wid: w.wid,
                    frame: Rect {
                        origin: at[i].origin,
                        size: if sized {
                            w.finish.size
                        } else {
                            at[i].size
                        },
                    },
                    set_size: sized,
                    txid: w.txid,
                },
            })
            &&& a.next_frame == 30 ==> out[n + i] == (Sent {
                handle: w.handle,
                request: Request::EndWindowAnimation(w.wid),
            })
        }),
{
}

/// A tick goes to the next frame of the same windows and remembers where they
/// stand. After the last frame there is no animation. The scroll animation is
/// not concerned, and without an animation a tick does nothing.
pub proof fn tick_goes_to_the_next_frame(v: ManagerView, at: Seq<Rect>)
    ensures
        ({
            let after = after_tick(v, at);
            &&& after.scrolling == v.scrolling
            &&& v.active is None ==> after.active is None && tick_requests(v, at).len() == 0
            &&& v.active matches Some(a) ==> a.next_frame < 30 ==> (after.active matches Some(b) && b.windows
                == a.windows && b.next_frame == a.next_frame + 1 && b.at == at)
            &&& v.active matches Some(a) ==> a.next_frame == 30 ==> after.active is None
        }),
{
}

// ---- Replacing an animation ----

/// The window of the running animation is the first with its id, and the new
/// one does not mention it.
pub open spec fn is_carried(next: Seq<AnimatedWindow>, running: Seq<AnimatedWindow>, i: int) -> bool {
    &&& forall|j: int| 0 <= j < next.len() ==> (#[trigger] next[j]).wid != running[i].wid
    &&& forall|j: int| 0 <= j < i ==> (#[trigger] running[j]).wid != running[i].wid
}

/// How many of the first windows of the running animation are carried over.
pub open spec fn carried_before(next: Seq<AnimatedWindow>, running: Seq<AnimatedWindow>, n: int) -> nat
    decreases n,
{
    if n <= 0 {
        0
    } else {
        carried_before(next, running, n - 1) + (if is_carried(next, running, n - 1) {
            1nat
        } else {
            0nat
        })
    }
}

/// A window of the running animation that the new one does not mention goes on
/// in the new one: with its finish, handle, transaction and way of taking its
/// size, from where it stands in the running one. Such windows follow those of
/// the new one, in their order, and there are no others.
pub proof fn unmentioned_windows_go_on_from_where_they_stand(v: ManagerView, a: ActiveView, next: Animation, i: int)
    requires
        v.active == Some(a),
        0 <= i < a.windows.len(),
    ensures
        after_message(v, Message::Replace(next)).active matches Some(b) && {
            let k = next@.len() + carried_before(next@, a.windows, i) as int;
            &&& b.next_frame == 1
            &&& b.windows.len() == next@.len() + carried_before(next@, a.windows, a.windows.len() as int)
            &&& is_carried(next@, a.windows, i) ==> {
                &&& k < b.windows.len()
                &&& b.windows[k].wid == a.windows[i].wid
                &&& b.windows[k].start == current_frames(a)[i].1
                &&& b.windows[k].finish == a.windows[i].finish
                &&& b.windows[k].handle == a.windows[i].handle
                &&& b.windows[k].txid == a.windows[i].txid
                &&& b.windows[k].is_focus == a.windows[i].is_focus
            }
        },
{
    let current = current_frames(a);
    let windows = patched(next@, current);
    let n = a.windows.len() as int;
    lemma_patched(next@, current);
    lemma_carried_upto(windows, a.windows, current, n, i);
    lemma_carried_same(windows, next@, a.windows, n);
    lemma_carried_same(windows, next@, a.windows, i);
    lemma_carried_same_one(windows, next@, a.windows, i);
    assert(a.windows.take(n) =~= a.windows);
    if is_carried(next@, a.windows, i) {
        assert forall|j: int| 0 <= j < i implies (#[trigger] current[j]).0 != a.windows[i].wid by {
            assert(a.windows[j].wid != a.windows[i].wid);
        }
        lemma_current_or_start(a.windows[i], current, i);
    }
}

/// A window of the new animation that takes part in the running one starts
/// where it stands there; any other starts where the new one says. Apart from
/// that the windows of the new animation are as it says, and come first.
pub proof fn mentioned_windows_start_from_where_they_stand(
    v: ManagerView,
    a: ActiveView,
    next: Animation,
    j: int,
    i: int,
)
    requires
        v.active == Some(a),
        distinct(next@),
        0 <= j < next@.len(),
        i < a.windows.len(),
        i >= 0 ==> a.windows[i].wid == next@[j].wid,
        forall|l: int| 0 <= l < a.windows.len() && l > i ==> (#[trigger] a.windows[l]).wid != next@[j].wid,
    ensures
        after_message(v, Message::Replace(next)).active matches Some(b) && {
            &&& j < b.windows.len()
            &&& b.windows[j].wid == next@[j].wid
            &&& i >= 0 ==> b.windows[j].start == current_frames(a)[i].1
            &&& i < 0 ==> b.windows[j].start == next@[j].start
            &&& b.windows[j].finish == next@[j].finish
            &&& b.windows[j].handle == next@[j].handle
            &&& b.windows[j].txid == next@[j].txid
            &&& b.windows[j].is_focus == next@[j].is_focus
        },
{
    let current = current_frames(a);
    let windows = patched(next@, current);
    let n = a.windows.len() as int;
    assert forall|l: int| 0 <= l < current.len() && l > i implies (#[trigger] current[l]).0 != next@[j].wid by {
        assert(a.windows[l].wid != next@[j].wid);
    }
    lemma_patched_at(next@, current, j, i);
    lemma_carried_upto(windows, a.windows, current, n, 0);
    assert(a.windows.take(n) =~= a.windows);
}

/// Without a running animation the new one starts as it is, and an empty one
/// starts nothing. A replacement ends the scroll animation.
pub proof fn animation_starts_as_it_is(v: ManagerView, next: Animation)
    ensures
        ({
            let after = after_message(v, Message::Replace(next));
            &&& after.scrolling.dom() == Set::<WindowId>::empty()
            &&& v.active is None && next@.len() == 0 ==> after.active is None
            &&& v.active is None && next@.len() > 0 ==> (after.active matches Some(b) && b.windows == next@
                && b.next_frame == 1)
        }),
{
    assert(after_message(v, Message::Replace(next)).scrolling.dom() =~= Set::empty());
}

proof fn lemma_current_or_start(w: AnimatedWindow, current: Seq<(WindowId, Rect)>, i: int)
    requires
        0 <= i < current.len(),
        current[i].0 == w.wid,
        forall|j: int| 0 <= j < i ==> (#[trigger] current[j]).0 != w.wid,
    ensures
        current_or_start(w, current) == current[i].1,
    decreases i,
{
    if i > 0 {
        assert(current[0].0 != w.wid);
        let rest = current.drop_first();
        assert forall|j: int| 0 <= j < i - 1 implies (#[trigger] rest[j]).0 != w.wid by {
            assert(current[j + 1].0 != w.wid);
        }
        lemma_current_or_start(w, rest, i - 1);
    }
}

proof fn lemma_carried_same_one(
    windows: Seq<AnimatedWindow>,
    next: Seq<AnimatedWindow>,
    running: Seq<AnimatedWindow>,
    i: int,
)
    requires
        crate::animation::same_ids(windows, next),
    ensures
        is_carried(windows, running, i) == is_carried(next, running, i),
{
    if is_carried(windows, running, i) {
        assert forall|j: int| 0 <= j < next.len() implies (#[trigger] next[j]).wid != running[i].wid by {
            assert(windows[j].wid == next[j].wid);
        }
    }
    if is_carried(next, running, i) {
        assert forall|j: int| 0 <= j < windows.len() implies (#[trigger] windows[j]).wid != running[i].wid by {
            assert(windows[j].wid == next[j].wid);
        }
    }
}

proof fn lemma_carried_same(
    windows: Seq<AnimatedWindow>,
    next: Seq<AnimatedWindow>,
    running: Seq<AnimatedWindow>,
    n: int,
)
    requires
        crate::animation::same_ids(windows, next),
    ensures
        carried_before(windows, running, n) == carried_before(next, running, n),
    decreases n,
{
    if n > 0 {
        lemma_carried_same(windows, next, running, n - 1);
        lemma_carried_same_one(windows, next, running, n - 1);
    }
}

/// What the first `n` windows of the running animation add to the new one.
proof fn lemma_carried_upto(
    windows: Seq<AnimatedWindow>,
    running: Seq<AnimatedWindow>,
    current: Seq<(WindowId, Rect)>,
    n: int,
    i: int,
)
    requires
        0 <= n <= running.len(),
    ensures
        ({
            let after = carried_over(windows, running.take(n), current);
            &&& after.len() == windows.len() + carried_before(windows, running, n)
            &&& forall|j: int| 0 <= j < windows.len() ==> #[trigger] after[j] == windows[j]
            &&& forall|wid: WindowId| #[trigger]
                has_window(after, wid) <==> has_window(windows, wid) || exists|j: int|
                    0 <= j < n && (#[trigger] running[j]).wid == wid
            &&& 0 <= i < n && is_carried(windows, running, i) ==> {
                let k = windows.len() + carried_before(windows, running, i) as int;
                k < after.len() && after[k] == (AnimatedWindow {
                    start: current_or_start(running[i], current),
                    ..running[i]
                })
            }
        }),
    decreases n,
{
    if n == 0 {
        assert(running.take(n) =~= Seq::empty());
    } else {
        lemma_carried_upto(windows, running, current, n - 1, i);
        let part = running.take(n);
        let w = running[n - 1];
        assert(part.drop_last() =~= running.take(n - 1));
        assert(part.last() == w);
        let before = carried_over(windows, running.take(n - 1), current);
        let after = carried_over(windows, part, current);
        assert(has_window(before, w.wid) == !is_carried(windows, running, n - 1)) by {
            if has_window(windows, w.wid) {
                let j = choose|j: int| 0 <= j < windows.len() && (#[trigger] windows[j]).wid == w.wid;
                assert(windows[j].wid == w.wid);
            }
            if !is_carried(windows, running, n - 1) {
                if exists|j: int| 0 <= j < windows.len() && (#[trigger] windows[j]).wid == w.wid {
                    assert(has_window(windows, w.wid));
                }
            }
        }
        assert forall|wid: WindowId| #[trigger]
            has_window(after, wid) == (has_window(windows, wid) || exists|j: int|
                0 <= j < n && (#[trigger] running[j]).wid == wid) by {
            if has_window(after, wid) {
                let j = choose|j: int| 0 <= j < after.len() && (#[trigger] after[j]).wid == wid;
                if j < before.len() {
                    assert(before[j].wid == wid);
                    assert(has_window(before, wid));
                } else {
                    assert(running[n - 1].wid == wid);
                }
            }
            if has_window(before, wid) {
                let j = choose|j: int| 0 <= j < before.len() && (#[trigger] before[j]).wid == wid;
                assert(after[j].wid == wid);
            }
            if w.wid == wid && !has_window(before, wid) {
                assert(after[before.len() as int].wid == wid);
            }
        }
    }
}

/// Where a window of the new animation starts: at its last current frame.
proof fn lemma_patched_at(windows: Seq<AnimatedWindow>, current: Seq<(WindowId, Rect)>, j: int, i: int)
    requires
        distinct(windows),
        0 <= j < windows.len(),
        i < current.len(),
        i >= 0 ==> current[i].0 == windows[j].wid,
        forall|l: int| 0 <= l < current.len() && l > i ==> (#[trigger] current[l]).0 != windows[j].wid,
    ensures
        patched(windows, current).len() == windows.len(),
        patched(windows, current)[j] == (AnimatedWindow {
            start: if i >= 0 {
                current[i].1
            } else {
                windows[j].start
            },
            ..windows[j]
        }),
    decreases current.len(),
{
    if current.len() > 0 {
        let rest = current.drop_last();
        let last = current.len() - 1;
        let before = patched(windows, rest);
        lemma_patched(windows, rest);
        lemma_same_ids_has(before, windows, current.last().0);
        assert(before[j].wid == windows[j].wid);
        if has_window(before, current.last().0) {
            lemma_first(before, current.last().0);
        }
        if i < last {
            assert(current[last].0 != windows[j].wid);
            assert forall|l: int| 0 <= l < rest.len() && l > i implies (#[trigger] rest[l]).0 != windows[j].wid by {
                assert(current[l].0 != windows[j].wid);
            }
            lemma_patched_at(windows, rest, j, i);
        } else {
            let k = lemma_last_with(windows, rest, j, last);
            lemma_patched_at(windows, rest, j, k);
            assert(before[j].wid == current.last().0);
            assert(has_window(before, current.last().0));
            let f = first_with(before, current.last().0);
            if f < j {
                assert(before[f].wid != before[j].wid);
            } else if j < f {
                assert(before[j].wid != before[f].wid);
            }
            assert(patched(windows, current) == start_at(before, current.last().0, current.last().1));
        }
    }
}

/// The last current frame of the window among the first `n`, if there is one.
proof fn lemma_last_with(windows: Seq<AnimatedWindow>, current: Seq<(WindowId, Rect)>, j: int, n: int) -> (i: int)
    requires
        0 <= n <= current.len(),
        0 <= j < windows.len(),
    ensures
        i < n,
        i >= 0 ==> current[i].0 == windows[j].wid,
        forall|l: int| 0 <= l < n && l > i ==> (#[trigger] current[l]).0 != windows[j].wid,
    decreases n,
{
    if n == 0 {
        -1
    } else if current[n - 1].0 == windows[j].wid {
        n - 1
    } else {
        lemma_last_with(windows, current, j, n - 1)
    }
}

// ---- Requests ----

/// The requests that end the scroll animation of a window: its last target with
/// its size, and the end.
pub open spec fn scroll_end(v: ManagerView, wid: WindowId) -> Seq<Sent> {
    if v.scrolling.dom().contains(wid) {
        let last = v.scrolling[wid];
        seq![
            Sent {
                handle: last.handle,
                request: Request::AnimationFrame { wid, frame: last.frame, set_size: true, txid: last.txid },
            },
            Sent { handle: last.handle, request: Request::EndWindowAnimation(wid) },
        ]
    } else {
        Seq::empty()
    }
}

/// The requests that finish the animation of a window: its finish with its
/// size, and the end.
pub open spec fn finish(w: AnimatedWindow) -> Seq<Sent> {
    seq![
        Sent {
            handle: w.handle,
            request: Request::AnimationFrame { wid: w.wid, frame: w.finish, set_size: true, txid: w.txid },
        },
        Sent { handle: w.handle, request: Request::EndWindowAnimation(w.wid) },
    ]
}

/// The requests that begin the animation of a window. A new one is put in its
/// final size where it starts.
pub open spec fn begin(w: AnimatedWindow) -> Seq<Sent> {
    let first = Sent { handle: w.handle, request: Request::BeginWindowAnimation(w.wid) };
    if w.is_focus {
        seq![
            first,
            Sent {
                handle: w.handle,
                request: Request::AnimationFrame {
                    wid: w.wid,
                    frame: Rect { origin: w.start.origin, size: w.finish.size },
                    set_size: true,
                    txid: w.txid,
                },
            },
        ]
    } else {
        seq![first]
    }
}

/// What a replacement sends to a window: the end of its scroll animation, if it
/// takes part in one, and then the begin of its new animation, if it takes part
/// in that and in no running one.
pub proof fn replacement_begins_new_windows(v: ManagerView, next: Animation, wid: WindowId, j: int)
    requires
        exclusive(v),
        distinct(next@),
        0 <= j < next@.len() ==> next@[j].wid == wid,
        !(0 <= j < next@.len()) ==> !has_window(next@, wid),
    ensures
        ({
            let out = sent_to(message_requests(v, Message::Replace(next)), wid);
            let runs = v.active matches Some(a) && has_window(a.windows, wid);
            &&& 0 <= j < next@.len() && !runs ==> out == scroll_end(v, wid) + begin(next@[j])
            &&& !(0 <= j < next@.len()) || runs ==> out == scroll_end(v, wid)
        }),
{
    let ended = scroll_ended(v.scrolling);
    lemma_scroll_end(v, wid);
    match v.active {
        Some(a) => {
            let current = current_frames(a);
            let windows = patched(next@, current);
            let skip = continuing(next@, current);
            lemma_patched(next@, current);
            lemma_same_ids_has(windows, next@, wid);
            lemma_continuing(next@, a, wid);
            if 0 <= j < next@.len() && !has_window(a.windows, wid) {
                assert(windows[j].wid == wid);
                assert forall|l: int| 0 <= l < current.len() && l > -1 implies (#[trigger] current[l]).0
                    != next@[j].wid by {
                    assert(a.windows[l].wid != wid);
                }
                lemma_patched_at(next@, current, j, -1);
                lemma_begun(windows, skip, j);
                lemma_sent_add(ended, begun(windows, skip), wid);
            } else {
                if 0 <= j < next@.len() {
                    assert(has_window(next@, wid));
                }
                lemma_not_begun(windows, skip, wid);
                lemma_sent_before_none(ended, begun(windows, skip), wid);
            }
        },
        None => {
            if 0 <= j < next@.len() {
                lemma_begun(next@, Seq::empty(), j);
                lemma_sent_add(ended, begun(next@, Seq::empty()), wid);
            } else {
                lemma_not_begun(next@, Seq::empty(), wid);
                lemma_sent_before_none(ended, begun(next@, Seq::empty()), wid);
            }
        },
    }
}

proof fn lemma_scroll_end(v: ManagerView, wid: WindowId)
    requires
        v.scrolling.dom().finite(),
    ensures
        sent_to(scroll_ended(v.scrolling), wid) == scroll_end(v, wid),
{
    let wids = in_order(v.scrolling.dom());
    lemma_in_order_is_distinct(v.scrolling.dom());
    lemma_sent_ended(v.scrolling, wids, wid);
    assert(wids.contains(wid) == v.scrolling.dom().contains(wid));
    assert(sent_to(scroll_ended(v.scrolling), wid) =~= scroll_end(v, wid));
}

/// One request is sent to the window that it is about.
pub proof fn lemma_sent_one(s: Sent, wid: WindowId)
    ensures
        sent_to(seq![s], wid) == (if crate::animation_laws::about(s) == Some(wid) {
            seq![s]
        } else {
            Seq::empty()
        }),
{
    let p = |s: Sent| crate::animation_laws::about(s) == Some(wid);
    let none = Seq::<Sent>::empty();
    assert(none.filter(p) =~= none) by {
        reveal(Seq::filter);
    }
    lemma_filter_push(none, p, s);
    assert(none.push(s) =~= seq![s]);
}

proof fn lemma_begin_one(w: AnimatedWindow, wid: WindowId)
    ensures
        sent_to(begin_one(w), wid) == (if w.wid == wid {
            begin(w)
        } else {
            Seq::empty()
        }),
{
    let out = begin_one(w);
    assert(out =~= begin(w));
    if w.is_focus {
        lemma_sent_two(out[0], out[1], wid);
        assert(out =~= seq![out[0], out[1]]);
    } else {
        lemma_sent_one(out[0], wid);
        assert(out =~= seq![out[0]]);
    }
}

/// One more window adds its begin, unless it is skipped.
proof fn lemma_begun_step(windows: Seq<AnimatedWindow>, skip: Seq<WindowId>)
    requires
        windows.len() > 0,
    ensures
        begun(windows, skip) == begun(windows.drop_last(), skip) + begin_unless(windows.last(), skip),
{
}

/// Of no requests, none is sent to the window.
pub proof fn lemma_sent_none(wid: WindowId)
    ensures
        sent_to(Seq::<Sent>::empty(), wid) == Seq::<Sent>::empty(),
{
    reveal(Seq::filter);
    assert(sent_to(Seq::<Sent>::empty(), wid) =~= Seq::<Sent>::empty());
}

/// Only the later requests are sent to the window.
pub proof fn lemma_sent_after_none(a: Seq<Sent>, b: Seq<Sent>, wid: WindowId)
    requires
        sent_to(a, wid).len() == 0,
    ensures
        sent_to(a + b, wid) == sent_to(b, wid),
{
    lemma_sent_add(a, b, wid);
    assert(sent_to(a, wid) + sent_to(b, wid) =~= sent_to(b, wid));
}

/// Only the earlier requests are sent to the window.
pub proof fn lemma_sent_before_none(a: Seq<Sent>, b: Seq<Sent>, wid: WindowId)
    requires
        sent_to(b, wid).len() == 0,
    ensures
        sent_to(a + b, wid) == sent_to(a, wid),
{
    lemma_sent_add(a, b, wid);
    assert(sent_to(a, wid) + sent_to(b, wid) =~= sent_to(a, wid));
}

/// Without its last one, distinct windows stay distinct, and the last one is
/// not among the others.
pub proof fn lemma_distinct_rest(windows: Seq<AnimatedWindow>)
    requires
        distinct(windows),
        windows.len() > 0,
    ensures
        distinct(windows.drop_last()),
        !has_window(windows.drop_last(), windows.last().wid),
{
    let rest = windows.drop_last();
    assert forall|a: int, b: int| 0 <= a < b < rest.len() implies (#[trigger] rest[a]).wid != (
    #[trigger] rest[b]).wid by {
        assert(windows[a].wid != windows[b].wid);
    }
    if has_window(rest, windows.last().wid) {
        let k = choose|k: int| 0 <= k < rest.len() && (#[trigger] rest[k]).wid == windows.last().wid;
        assert(windows[k].wid != windows[windows.len() - 1].wid);
    }
}

/// A window that is not among some is not among the first of them.
pub proof fn lemma_not_in_rest(windows: Seq<AnimatedWindow>, wid: WindowId)
    requires
        !has_window(windows, wid),
        windows.len() > 0,
    ensures
        !has_window(windows.drop_last(), wid),
        windows.last().wid != wid,
{
    let rest = windows.drop_last();
    assert(windows[windows.len() - 1].wid != wid);
    if has_window(rest, wid) {
        let k = choose|k: int| 0 <= k < rest.len() && (#[trigger] rest[k]).wid == wid;
        assert(windows[k].wid == wid);
    }
}

/// What one window adds to the requests that begin.
spec fn begin_unless(w: AnimatedWindow, skip: Seq<WindowId>) -> Seq<Sent> {
    if skip.contains(w.wid) {
        Seq::empty()
    } else {
        begin_one(w)
    }
}

/// Nothing is sent to a window that is not begun.
proof fn lemma_not_begun(windows: Seq<AnimatedWindow>, skip: Seq<WindowId>, wid: WindowId)
    requires
        !has_window(windows, wid) || skip.contains(wid),
    ensures
        sent_to(begun(windows, skip), wid).len() == 0,
    decreases windows.len(),
{
    lemma_sent_none(wid);
    if windows.len() == 0 {
        assert(begun(windows, skip) =~= Seq::<Sent>::empty());
    } else {
        let rest = windows.drop_last();
        let w = windows.last();
        if !skip.contains(wid) {
            lemma_not_in_rest(windows, wid);
        }
        lemma_not_begun(rest, skip, wid);
        lemma_begun_step(windows, skip);
        lemma_begin_one(w, wid);
        lemma_sent_before_none(begun(rest, skip), begin_unless(w, skip), wid);
    }
}

/// What is sent to one of the windows that are begun.
proof fn lemma_begun(windows: Seq<AnimatedWindow>, skip: Seq<WindowId>, j: int)
    requires
        distinct(windows),
        0 <= j < windows.len(),
        !skip.contains(windows[j].wid),
    ensures
        sent_to(begun(windows, skip), windows[j].wid) == begin(windows[j]),
    decreases windows.len(),
{
    let wid = windows[j].wid;
    let rest = windows.drop_last();
    let w = windows.last();
    lemma_distinct_rest(windows);
    lemma_begun_step(windows, skip);
    lemma_begin_one(w, wid);
    lemma_sent_none(wid);
    if j == rest.len() {
        lemma_not_begun(rest, skip, wid);
        lemma_sent_after_none(begun(rest, skip), begin_unless(w, skip), wid);
    } else {
        assert(rest[j] == windows[j]);
        lemma_begun(rest, skip, j);
        assert(windows[windows.len() - 1].wid != windows[j].wid);
        lemma_sent_before_none(begun(rest, skip), begin_unless(w, skip), wid);
    }
}

/// What is sent to a window when everything is put at its final frame at once:
/// the end of its scroll animation or the finish of its running animation, if
/// it takes part in one, and then its final frame, if there is one.
pub proof fn skipping_writes_the_final_frame(v: ManagerView, next: Animation, wid: WindowId, i: int, j: int)
    requires
        exclusive(v),
        v.active matches Some(a) ==> distinct(a.windows),
        v.active matches Some(a) ==> if 0 <= i < a.windows.len() {
            a.windows[i].wid == wid
        } else {
            !has_window(a.windows, wid)
        },
        distinct(next@),
        if 0 <= j < next@.len() {
            next@[j].wid == wid
        } else {
            !has_window(next@, wid)
        },
    ensures
        ({
            let out = sent_to(message_requests(v, Message::SkipToEnd(next)), wid);
            let finished = match v.active {
                Some(a) => if 0 <= i < a.windows.len() {
                    finish(a.windows[i])
                } else {
                    Seq::empty()
                },
                None => Seq::empty(),
            };
            let written = if 0 <= j < next@.len() {
                seq![
                    Sent {
                        handle: next@[j].handle,
                        request: Request::SetWindowFrame(wid, next@[j].finish, next@[j].txid),
                    },
                ]
            } else {
                Seq::empty()
            };
            &&& out == scroll_end(v, wid) + finished + written
            &&& after_message(v, Message::SkipToEnd(next)).active is None
            &&& after_message(v, Message::SkipToEnd(next)).scrolling.dom() == Set::<WindowId>::empty()
        }),
{
    let ended = scroll_ended(v.scrolling);
    let done = active_finished(v.active);
    let last = crate::animation::written(next@);
    lemma_scroll_end(v, wid);
    lemma_sent_add(ended + done, last, wid);
    lemma_sent_add(ended, done, wid);
    lemma_active_finish(v, wid, i);
    lemma_sent_written(next@, wid);
    assert(after_message(v, Message::SkipToEnd(next)).scrolling.dom() =~= Set::empty());
    let p = |w: AnimatedWindow| w.wid == wid;
    if 0 <= j < next@.len() {
        lemma_only_one(next@, j);
        assert(crate::animation::written(next@.filter(p)) =~= seq![
            Sent {
                handle: next@[j].handle,
                request: Request::SetWindowFrame(wid, next@[j].finish, next@[j].txid),
            },
        ]);
    } else {
        lemma_none_with(next@, wid);
        assert(crate::animation::written(next@.filter(p)) =~= Seq::empty());
    }
}

proof fn lemma_none_with(windows: Seq<AnimatedWindow>, wid: WindowId)
    requires
        !has_window(windows, wid),
    ensures
        windows.filter(|w: AnimatedWindow| w.wid == wid) == Seq::<AnimatedWindow>::empty(),
{
    let p = |w: AnimatedWindow| w.wid == wid;
    let kept = windows.filter(p);
    if kept.len() > 0 {
        assert(kept.contains(kept[0]));
        crate::sequences::lemma_filter_from(windows, p, kept[0]);
        let k = choose|k: int| 0 <= k < windows.len() && windows[k] == kept[0];
        assert(windows[k].wid == wid);
    }
    assert(kept =~= Seq::empty());
}

/// What finishing the running animation sends to a window.
pub proof fn lemma_active_finish(v: ManagerView, wid: WindowId, i: int)
    requires
        v.active matches Some(a) ==> distinct(a.windows),
        v.active matches Some(a) ==> if 0 <= i < a.windows.len() {
            a.windows[i].wid == wid
        } else {
            !has_window(a.windows, wid)
        },
    ensures
        sent_to(active_finished(v.active), wid) == (match v.active {
            Some(a) => if 0 <= i < a.windows.len() {
                finish(a.windows[i])
            } else {
                Seq::empty()
            },
            None => Seq::empty(),
        }),
{
    match v.active {
        Some(a) => {
            if 0 <= i < a.windows.len() {
                lemma_finish(a.windows, i);
            } else {
                lemma_sent_finished(a.windows, wid);
            }
        },
        None => {
            assert(sent_to(active_finished(v.active), wid) =~= Seq::empty()) by {
                reveal(Seq::filter);
            }
        },
    }
}

/// One more window adds its finish.
proof fn lemma_finish_step(windows: Seq<AnimatedWindow>)
    requires
        windows.len() > 0,
    ensures
        crate::animation::finished(windows) == crate::animation::finished(windows.drop_last()) + finish(
            windows.last(),
        ),
{
}

/// The finish of a window is sent to it alone.
proof fn lemma_finish_one(w: AnimatedWindow, wid: WindowId)
    ensures
        w.wid == wid ==> sent_to(finish(w), wid) == finish(w),
        w.wid != wid ==> sent_to(finish(w), wid).len() == 0,
{
    lemma_sent_two(
        Sent {
            handle: w.handle,
            request: Request::AnimationFrame { wid: w.wid, frame: w.finish, set_size: true, txid: w.txid },
        },
        Sent { handle: w.handle, request: Request::EndWindowAnimation(w.wid) },
        wid,
    );
}

proof fn lemma_finish(windows: Seq<AnimatedWindow>, i: int)
    requires
        distinct(windows),
        0 <= i < windows.len(),
    ensures
        sent_to(crate::animation::finished(windows), windows[i].wid) == finish(windows[i]),
    decreases windows.len(),
{
    let wid = windows[i].wid;
    let rest = windows.drop_last();
    let w = windows.last();
    let early = crate::animation::finished(rest);
    lemma_finish_one(w, wid);
    lemma_finish_step(windows);
    lemma_distinct_rest(windows);
    if i < rest.len() {
        assert(windows[i].wid != windows[windows.len() - 1].wid);
        assert(rest[i] == windows[i]);
        lemma_finish(rest, i);
        lemma_sent_before_none(early, finish(w), wid);
    } else {
        lemma_sent_finished(rest, wid);
        lemma_sent_after_none(early, finish(w), wid);
    }
}

/// Where nothing is on its way, skipping to the end writes the windows in their
/// order, each once and through its own handle.
pub proof fn windows_are_written_in_order(v: ManagerView, next: Animation, i: int)
    requires
        v.active is None,
        v.scrolling.dom() == Set::<WindowId>::empty(),
        0 <= i < next@.len(),
    ensures
        ({
            let out = message_requests(v, Message::SkipToEnd(next));
            &&& out.len() == next@.len()
            &&& out[i] == (Sent {
                handle: next@[i].handle,
                request: Request::SetWindowFrame(next@[i].wid, next@[i].finish, next@[i].txid),
            })
        }),
{
    lemma_nothing_scrolls(v);
}

/// An animation is finished window by window, in the order of its windows: each
/// is put at its finish, and its animation is ended before the next window's.
pub proof fn windows_are_finished_in_order(v: ManagerView, a: ActiveView, next: Animation, i: int)
    requires
        v.active == Some(a),
        v.scrolling.dom() == Set::<WindowId>::empty(),
        0 <= i < a.windows.len(),
    ensures
        ({
            let out = message_requests(v, Message::SkipToEnd(next));
            &&& out.len() == 2 * a.windows.len() + next@.len()
            &&& out[2 * i] == finish(a.windows[i])[0]
            &&& out[2 * i + 1] == finish(a.windows[i])[1]
        }),
{
    lemma_nothing_scrolls(v);
    lemma_finished_at(a.windows, i);
}

proof fn lemma_nothing_scrolls(v: ManagerView)
    requires
        v.scrolling.dom() == Set::<WindowId>::empty(),
    ensures
        scroll_ended(v.scrolling).len() == 0,
{
    let wids = in_order(v.scrolling.dom());
    lemma_in_order_is_distinct(v.scrolling.dom());
    if wids.len() > 0 {
        assert(wids.contains(wids[0]));
    }
}

proof fn lemma_finished_at(windows: Seq<AnimatedWindow>, i: int)
    requires
        0 <= i < windows.len(),
    ensures
        crate::animation::finished(windows).len() == 2 * windows.len(),
        crate::animation::finished(windows)[2 * i] == finish(windows[i])[0],
        crate::animation::finished(windows)[2 * i + 1] == finish(windows[i])[1],
    decreases windows.len(),
{
    let rest = windows.drop_last();
    lemma_finish_step(windows);
    if rest.len() == 0 {
        assert(crate::animation::finished(rest).len() == 0);
    } else if i < rest.len() {
        lemma_finished_at(rest, i);
    } else {
        lemma_finished_at(rest, 0);
    }
}

} // verus!
