//! Laws about what scroll animations send.
use vstd::prelude::*;

use crate::animation::{has_window, AnimatedWindow, Animation, Message};
use crate::animation_laws::{distinct, lemma_sent_add, lemma_sent_two, sent_to};
use crate::animation_manager::{
    active_finished, after_message, message_requests, scroll_requests, scrolled, ManagerView, ScrollingWindow,
};
use crate::geometry::Rect;
use crate::ids::WindowId;
use crate::motion_laws::{
    finish, lemma_active_finish, lemma_distinct_rest, lemma_not_in_rest, lemma_sent_after_none,
    lemma_sent_before_none, lemma_sent_none, lemma_sent_one,
};
use crate::request::{Request, Sent};

verus! {

/// A frame of a scroll animation moves each of its windows straight to its
/// finish, with its size if that changes. A window that takes no part in the
/// scroll animation yet is begun first, and the running animation is finished
/// before. The window ends at that finish unless it gets another.
pub proof fn scroll_frame_moves_each_window(v: ManagerView, step: Animation, i: int, j: int)
    requires
        distinct(step@),
        0 <= j < step@.len(),
        v.active matches Some(a) ==> distinct(a.windows),
        v.active matches Some(a) ==> if 0 <= i < a.windows.len() {
            a.windows[i].wid == step@[j].wid
        } else {
            !has_window(a.windows, step@[j].wid)
        },
    ensures
        ({
            let w = step@[j];
            let out = sent_to(message_requests(v, Message::ScrollFrame(step)), w.wid);
            let after = after_message(v, Message::ScrollFrame(step));
            let finished = match v.active {
                Some(a) => if 0 <= i < a.windows.len() {
                    finish(a.windows[i])
                } else {
                    Seq::empty()
                },
                None => Seq::empty(),
            };
            let moved = Sent {
                handle: w.handle,
                request: Request::AnimationFrame {
                    wid: w.wid,
                    frame: w.finish,
                    set_size: !w.start.size.same(w.finish.size),
                    txid: w.txid,
                },
            };
            let begun = Sent { handle: w.handle, request: Request::BeginWindowAnimation(w.wid) };
            &&& v.scrolling.dom().contains(w.wid) ==> out == finished + seq![moved]
            &&& !v.scrolling.dom().contains(w.wid) ==> out == finished + seq![begun, moved]
            &&& after.active is None
            &&& after.scrolling.dom().contains(w.wid)
            &&& after.scrolling[w.wid] == (ScrollingWindow { handle: w.handle, frame: w.finish, txid: w.txid })
        }),
{
    let w = step@[j];
    lemma_active_finish(v, w.wid, i);
    lemma_sent_add(active_finished(v.active), scroll_requests(v.scrolling, step@), w.wid);
    lemma_scroll_step(v.scrolling, step@, j);
}

/// A window that a scroll frame does not mention takes part in the scroll
/// animation as before, and is sent nothing but the finish of its running
/// animation.
pub proof fn scroll_frame_leaves_other_windows(v: ManagerView, step: Animation, wid: WindowId)
    requires
        !has_window(step@, wid),
    ensures
        ({
            let after = after_message(v, Message::ScrollFrame(step));
            let out = message_requests(v, Message::ScrollFrame(step));
            &&& after.scrolling.dom().contains(wid) == v.scrolling.dom().contains(wid)
            &&& after.scrolling[wid] == v.scrolling[wid]
            &&& sent_to(out, wid).len() == sent_to(active_finished(v.active), wid).len()
        }),
{
    lemma_scrolled_others(v.scrolling, step@, wid);
    lemma_sent_add(active_finished(v.active), scroll_requests(v.scrolling, step@), wid);
    lemma_scroll_others(v.scrolling, step@, wid);
}

proof fn lemma_scroll_others(scrolling: Map<WindowId, ScrollingWindow>, windows: Seq<AnimatedWindow>, wid: WindowId)
    requires
        !has_window(windows, wid),
    ensures
        sent_to(scroll_requests(scrolling, windows), wid).len() == 0,
    decreases windows.len(),
{
    if windows.len() > 0 {
        let rest = windows.drop_last();
        let w = windows.last();
        let scrolls = scrolled(scrolling, rest).dom().contains(w.wid);
        lemma_not_in_rest(windows, wid);
        lemma_scroll_others(scrolling, rest, wid);
        lemma_scroll_parts(scrolling, windows);
        lemma_moves(w, scrolls, wid);
        lemma_sent_before_none(scroll_requests(scrolling, rest), moves_of(w, scrolls), wid);
    } else {
        lemma_sent_none(wid);
        assert(scroll_requests(scrolling, windows) == Seq::<Sent>::empty());
    }
}

proof fn lemma_scrolled_others(scrolling: Map<WindowId, ScrollingWindow>, windows: Seq<AnimatedWindow>, wid: WindowId)
    requires
        !has_window(windows, wid),
    ensures
        scrolled(scrolling, windows).dom().contains(wid) == scrolling.dom().contains(wid),
        scrolled(scrolling, windows)[wid] == scrolling[wid],
    decreases windows.len(),
{
    if windows.len() > 0 {
        lemma_not_in_rest(windows, wid);
        lemma_scrolled_others(scrolling, windows.drop_last(), wid);
    }
}

/// The request that begins the animation of a window.
spec fn first_of(w: AnimatedWindow) -> Sent {
    Sent { handle: w.handle, request: Request::BeginWindowAnimation(w.wid) }
}

/// The request that moves the window in a frame of a scroll animation.
spec fn move_of(w: AnimatedWindow) -> Sent {
    Sent {
        handle: w.handle,
        request: Request::AnimationFrame {
            wid: w.wid,
            frame: w.finish,
            set_size: !w.start.size.same(w.finish.size),
            txid: w.txid,
        },
    }
}

/// The requests for a window in a frame of a scroll animation.
spec fn moves_of(w: AnimatedWindow, scrolls: bool) -> Seq<Sent> {
    if scrolls {
        seq![move_of(w)]
    } else {
        seq![first_of(w), move_of(w)]
    }
}

/// What one more window adds to the requests of a scroll frame.
proof fn lemma_scroll_parts(scrolling: Map<WindowId, ScrollingWindow>, windows: Seq<AnimatedWindow>)
    requires
        windows.len() > 0,
    ensures
        scroll_requests(scrolling, windows) == scroll_requests(scrolling, windows.drop_last()) + moves_of(
            windows.last(),
            scrolled(scrolling, windows.drop_last()).dom().contains(windows.last().wid),
        ),
{
    let w = windows.last();
    let scrolls = scrolled(scrolling, windows.drop_last()).dom().contains(w.wid);
    assert(scroll_requests(scrolling, windows) =~= scroll_requests(scrolling, windows.drop_last()) + moves_of(
        w,
        scrolls,
    ));
}

proof fn lemma_moves(w: AnimatedWindow, scrolls: bool, wid: WindowId)
    ensures
        w.wid == wid ==> sent_to(moves_of(w, scrolls), wid) == moves_of(w, scrolls),
        w.wid != wid ==> sent_to(moves_of(w, scrolls), wid).len() == 0,
{
    if scrolls {
        lemma_sent_one(move_of(w), wid);
    } else {
        lemma_sent_two(first_of(w), move_of(w), wid);
    }
}

proof fn lemma_scroll_step(scrolling: Map<WindowId, ScrollingWindow>, windows: Seq<AnimatedWindow>, j: int)
    requires
        distinct(windows),
        0 <= j < windows.len(),
    ensures
        sent_to(scroll_requests(scrolling, windows), windows[j].wid) == moves_of(
            windows[j],
            scrolling.dom().contains(windows[j].wid),
        ),
        scrolled(scrolling, windows).dom().contains(windows[j].wid),
        scrolled(scrolling, windows)[windows[j].wid] == (ScrollingWindow {
            handle: windows[j].handle,
            frame: windows[j].finish,
            txid: windows[j].txid,
        }),
    decreases windows.len(),
{
    let rest = windows.drop_last();
    let last = windows.last();
    let scrolls = scrolled(scrolling, rest).dom().contains(last.wid);
    let w = windows[j];
    lemma_scroll_parts(scrolling, windows);
    lemma_distinct_rest(windows);
    lemma_moves(last, scrolls, w.wid);
    if j < rest.len() {
        assert(windows[j].wid != windows[windows.len() - 1].wid);
        assert(rest[j] == w);
        lemma_scroll_step(scrolling, rest, j);
        lemma_sent_before_none(scroll_requests(scrolling, rest), moves_of(last, scrolls), w.wid);
    } else {
        lemma_scroll_others(scrolling, rest, w.wid);
        lemma_scrolled_others(scrolling, rest, w.wid);
        lemma_sent_after_none(scroll_requests(scrolling, rest), moves_of(last, scrolls), w.wid);
    }
}

/// A frame accepted from outside is where a window of the scroll animation ends,
/// and nothing else changes or is sent.
pub proof fn outside_frame_is_the_end(v: ManagerView, wid: WindowId, frame: Rect, other: WindowId)
    ensures
        ({
            let after = after_message(v, Message::ScrollWindowFrame(wid, frame));
            &&& message_requests(v, Message::ScrollWindowFrame(wid, frame)).len() == 0
            &&& after.active == v.active
            &&& after.scrolling.dom() == v.scrolling.dom()
            &&& v.scrolling.dom().contains(wid) ==> after.scrolling[wid].frame == frame && after.scrolling[wid].handle
                == v.scrolling[wid].handle && after.scrolling[wid].txid == v.scrolling[wid].txid
            &&& other != wid ==> after.scrolling[other] == v.scrolling[other]
        }),
{
    let after = after_message(v, Message::ScrollWindowFrame(wid, frame));
    assert(after.scrolling.dom() =~= v.scrolling.dom());
}

} // verus!
