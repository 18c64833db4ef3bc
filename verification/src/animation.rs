//! Animations of window frames.
//!
//! An animation moves windows to their frames in steps. The manager runs at
//! most one layout animation at a time and remembers which windows take part
//! in a scroll animation. It decides which requests go to the applications;
//! where a window stands between its start and its finish is computed by the
//! caller.
use vstd::prelude::*;

use crate::geometry::Rect;
use crate::ids::{is_among, WindowId};
use crate::request::{AppThreadHandle, Request, Sent, TransactionId};
use crate::sequences::{each, lemma_each_step, lemma_filter_step, lemma_take_all};

verus! {

/// The number of frames in an animation.
pub const FRAMES: u32 = 30;

/// The time between two frames, in nanoseconds.
pub const INTERVAL: u64 = 10_000_000;

/// A window in an animation.
#[derive(Clone, Copy, Debug, PartialEq, Eq, Structural)]
pub struct AnimatedWindow {
    pub handle: AppThreadHandle,
    pub wid: WindowId,
    pub start: Rect,
    pub finish: Rect,
    /// The window takes its final size at once.
    pub is_focus: bool,
    pub txid: TransactionId,
}

/// Windows that move to their frames together.
pub struct Animation {
    windows: Vec<AnimatedWindow>,
}

impl View for Animation {
    type V = Seq<AnimatedWindow>;

    closed spec fn view(&self) -> Seq<AnimatedWindow> {
        self.windows@
    }
}

/// A message to the animation manager.
pub enum Message {
    Replace(Animation),
    SkipToEnd(Animation),
    /// One frame of a scroll animation, computed by the caller. Each window
    /// moves straight to its `finish` frame.
    ScrollFrame(Animation),
    /// The last frame of a scroll animation. Every window that took part in it
    /// gets a sized frame at its last target, then its animation is ended.
    ScrollEnd(Animation),
    /// The reactor accepted a frame for a window from outside, e.g. a user
    /// resize. If the window takes part in the scroll animation, it ends at
    /// this frame.
    ScrollWindowFrame(WindowId, Rect),
}

impl Message {
    /// The windows that a message moves.
    pub fn into_animation(self) -> (animation: Animation)
        ensures
            animation@ == (match self {
                Message::Replace(a) => a@,
                Message::SkipToEnd(a) => a@,
                Message::ScrollFrame(a) => a@,
                Message::ScrollEnd(a) => a@,
                Message::ScrollWindowFrame(_, _) => Seq::empty(),
            }),
    {
        match self {
            Message::Replace(animation) => animation,
            Message::SkipToEnd(animation) => animation,
            Message::ScrollFrame(animation) => animation,
            Message::ScrollEnd(animation) => animation,
            Message::ScrollWindowFrame(_, _) => Animation::new(),
        }
    }
}

/// The requests that put windows at their final frames without animating them.
pub open spec fn written(windows: Seq<AnimatedWindow>) -> Seq<Sent> {
    windows.map_values(|w: AnimatedWindow| set_frame(w))
}

pub open spec fn set_frame(w: AnimatedWindow) -> Sent {
    Sent { handle: w.handle, request: Request::SetWindowFrame(w.wid, w.finish, w.txid) }
}

pub open spec fn sized_frame(w: AnimatedWindow, frame: Rect) -> Sent {
    Sent {
        handle: w.handle,
        request: Request::AnimationFrame { wid: w.wid, frame, set_size: true, txid: w.txid },
    }
}

pub open spec fn begin_request(w: AnimatedWindow) -> Sent {
    Sent { handle: w.handle, request: Request::BeginWindowAnimation(w.wid) }
}

pub open spec fn end_request(w: AnimatedWindow) -> Sent {
    Sent { handle: w.handle, request: Request::EndWindowAnimation(w.wid) }
}

/// The start of a window in its final size.
pub open spec fn start_in_final_size(w: AnimatedWindow) -> Rect {
    Rect { origin: w.start.origin, size: w.finish.size }
}

/// The requests that begin the animation of a window.
pub open spec fn begin_one(w: AnimatedWindow) -> Seq<Sent> {
    if w.is_focus {
        seq![begin_request(w), sized_frame(w, start_in_final_size(w))]
    } else {
        seq![begin_request(w)]
    }
}

/// The requests that begin the animation of the windows not in `skip`.
pub open spec fn begun(windows: Seq<AnimatedWindow>, skip: Seq<WindowId>) -> Seq<Sent> {
    each(
        windows,
        |w: AnimatedWindow|
            if skip.contains(w.wid) {
                Seq::empty()
            } else {
                begin_one(w)
            },
    )
}

/// The requests that put every window at its final frame and end its animation.
pub open spec fn finished(windows: Seq<AnimatedWindow>) -> Seq<Sent> {
    each(windows, |w: AnimatedWindow| seq![sized_frame(w, w.finish), end_request(w)])
}

/// The requests that end the animation of every window.
pub open spec fn ended(windows: Seq<AnimatedWindow>) -> Seq<Sent> {
    windows.map_values(|w: AnimatedWindow| end_request(w))
}

/// Whether a frame of an animation sets the size of its windows: halfway and
/// at the end.
pub open spec fn sets_size(frame: u32) -> bool {
    frame * 2 == FRAMES || frame == FRAMES
}

/// The request that moves a window to where it stands in a frame.
pub open spec fn frame_request(w: AnimatedWindow, frame: u32, at: Rect) -> Sent {
    let rect = if sets_size(frame) {
        Rect { origin: at.origin, size: w.finish.size }
    } else {
        at
    };
    Sent {
        handle: w.handle,
        request: Request::AnimationFrame {
            wid: w.wid,
            frame: rect,
            set_size: sets_size(frame),
            txid: w.txid,
        },
    }
}

/// The requests of one frame, with the windows at the given places.
pub open spec fn frame_requests(windows: Seq<AnimatedWindow>, frame: u32, at: Seq<Rect>) -> Seq<Sent> {
    Seq::new(windows.len(), |i: int| frame_request(windows[i], frame, at[i]))
}

/// Where a window stands after a frame, if it was moved to `at` in that frame.
pub open spec fn frame_after(w: AnimatedWindow, frame: u32, at: Rect) -> Rect {
    if frame == 0 {
        if w.is_focus {
            start_in_final_size(w)
        } else {
            w.start
        }
    } else if w.is_focus || frame * 2 >= FRAMES {
        Rect { origin: at.origin, size: w.finish.size }
    } else {
        Rect { origin: at.origin, size: w.start.size }
    }
}

/// Whether a window takes part.
pub open spec fn has_window(windows: Seq<AnimatedWindow>, wid: WindowId) -> bool {
    exists|i: int| 0 <= i < windows.len() && (#[trigger] windows[i]).wid == wid
}

/// The first window with the id.
pub open spec fn first_with(windows: Seq<AnimatedWindow>, wid: WindowId) -> int {
    choose|i: int|
        0 <= i < windows.len() && (#[trigger] windows[i]).wid == wid && (forall|j: int|
            0 <= j < i ==> (#[trigger] windows[j]).wid != wid)
}

/// The windows, where the first with the id starts at the frame.
pub open spec fn start_at(windows: Seq<AnimatedWindow>, wid: WindowId, frame: Rect) -> Seq<AnimatedWindow> {
    if has_window(windows, wid) {
        let i = first_with(windows, wid);
        windows.update(i, AnimatedWindow { start: frame, ..windows[i] })
    } else {
        windows
    }
}

/// The windows, where each with a current frame starts there.
pub open spec fn patched(windows: Seq<AnimatedWindow>, current: Seq<(WindowId, Rect)>) -> Seq<AnimatedWindow>
    decreases current.len(),
{
    if current.len() == 0 {
        windows
    } else {
        start_at(patched(windows, current.drop_last()), current.last().0, current.last().1)
    }
}

/// The windows of `current` that take part, in their order there.
pub open spec fn continuing(windows: Seq<AnimatedWindow>, current: Seq<(WindowId, Rect)>) -> Seq<WindowId> {
    current.filter(|c: (WindowId, Rect)| has_window(windows, c.0)).map_values(|c: (WindowId, Rect)| c.0)
}

/// The first current frame of a window, or its start.
pub open spec fn current_or_start(w: AnimatedWindow, current: Seq<(WindowId, Rect)>) -> Rect
    decreases current.len(),
{
    if current.len() == 0 {
        w.start
    } else if current[0].0 == w.wid {
        current[0].1
    } else {
        current_or_start(w, current.drop_first())
    }
}

/// The windows, followed by those of `previous` that are not among them yet.
/// These start at their current frames.
pub open spec fn carried_over(
    windows: Seq<AnimatedWindow>,
    previous: Seq<AnimatedWindow>,
    current: Seq<(WindowId, Rect)>,
) -> Seq<AnimatedWindow>
    decreases previous.len(),
{
    if previous.len() == 0 {
        windows
    } else {
        let before = carried_over(windows, previous.drop_last(), current);
        let w = previous.last();
        if has_window(before, w.wid) {
            before
        } else {
            before.push(AnimatedWindow { start: current_or_start(w, current), ..w })
        }
    }
}

impl Animation {
    pub fn new() -> (a: Animation)
        ensures
            a@ == Seq::<AnimatedWindow>::empty(),
    {
        Animation { windows: Vec::new() }
    }

    pub fn add_window(
        &mut self,
        handle: &AppThreadHandle,
        wid: WindowId,
        start: Rect,
        finish: Rect,
        is_focus: bool,
        txid: TransactionId,
    )
        ensures
            final(self)@ == old(self)@.push(
                (AnimatedWindow { handle: *handle, wid, start, finish, is_focus, txid }),
            ),
    {
        self.windows.push(AnimatedWindow { handle: *handle, wid, start, finish, is_focus, txid });
    }

    /// The windows, in the order they were added.
    pub fn windows(&self) -> (windows: &Vec<AnimatedWindow>)
        ensures
            windows@ == self@,
    {
        &self.windows
    }

    pub fn is_empty(&self) -> (b: bool)
        ensures
            b == (self@.len() == 0),
    {
        self.windows.len() == 0
    }

    /// Puts every window at its final frame at once.
    pub fn skip_to_end(&self) -> (sent: Vec<Sent>)
        ensures
            sent@ == written(self@),
    {
        let mut sent: Vec<Sent> = Vec::new();
        let mut i: usize = 0;
        while i < self.windows.len()
            invariant
                i <= self.windows.len(),
                sent@ == written(self@.take(i as int)),
            decreases self.windows.len() - i,
        {
            let w = self.windows[i];
            sent.push(Sent { handle: w.handle, request: Request::SetWindowFrame(w.wid, w.finish, w.txid) });
            proof {
                assert(sent@ =~= written(self@.take(i + 1)));
            }
            i += 1;
        }
        proof {
            lemma_take_all(self@);
        }
        sent
    }

    pub(crate) fn begin_windows_not_in(&self, skip: &Vec<WindowId>) -> (sent: Vec<Sent>)
        ensures
            sent@ == begun(self@, skip@),
    {
        let ghost f = |w: AnimatedWindow|
            if skip@.contains(w.wid) {
                Seq::<Sent>::empty()
            } else {
                begin_one(w)
            };
        let mut sent: Vec<Sent> = Vec::new();
        let mut i: usize = 0;
        while i < self.windows.len()
            invariant
                i <= self.windows.len(),
                sent@ == each(self@.take(i as int), f),
                f == (|w: AnimatedWindow|
                    if skip@.contains(w.wid) {
                        Seq::<Sent>::empty()
                    } else {
                        begin_one(w)
                    }),
            decreases self.windows.len() - i,
        {
            let w = self.windows[i];
            proof {
                lemma_each_step(self@, f, i as int);
            }
            if !is_among(skip, w.wid) {
                sent.push(Sent { handle: w.handle, request: Request::BeginWindowAnimation(w.wid) });
                if w.is_focus {
                    let frame = Rect { origin: w.start.origin, size: w.finish.size };
                    sent.push(
                        Sent {
                            handle: w.handle,
                            request: Request::AnimationFrame { wid: w.wid, frame, set_size: true, txid: w.txid },
                        },
                    );
                }
            }
            proof {
                assert(sent@ =~= each(self@.take(i as int), f) + f(w));
            }
            i += 1;
        }
        proof {
            lemma_take_all(self@);
        }
        sent
    }

    pub(crate) fn begin(&self) -> (sent: Vec<Sent>)
        ensures
            sent@ == begun(self@, Seq::empty()),
    {
        let none: Vec<WindowId> = Vec::new();
        self.begin_windows_not_in(&none)
    }

    /// Jumps every window to its final frame and ends its animation.
    pub(crate) fn finish_all(&self) -> (sent: Vec<Sent>)
        ensures
            sent@ == finished(self@),
    {
        let ghost f = |w: AnimatedWindow| seq![sized_frame(w, w.finish), end_request(w)];
        let mut sent: Vec<Sent> = Vec::new();
        let mut i: usize = 0;
        while i < self.windows.len()
            invariant
                i <= self.windows.len(),
                sent@ == each(self@.take(i as int), f),
                f == (|w: AnimatedWindow| seq![sized_frame(w, w.finish), end_request(w)]),
            decreases self.windows.len() - i,
        {
            let w = self.windows[i];
            proof {
                lemma_each_step(self@, f, i as int);
            }
            sent.push(
                Sent {
                    handle: w.handle,
                    request: Request::AnimationFrame {
                        wid: w.wid,
                        frame: w.finish,
                        set_size: true,
                        txid: w.txid,
                    },
                },
            );
            sent.push(Sent { handle: w.handle, request: Request::EndWindowAnimation(w.wid) });
            proof {
                assert(sent@ =~= each(self@.take(i as int), f) + f(w));
            }
            i += 1;
        }
        proof {
            lemma_take_all(self@);
        }
        sent
    }

    pub(crate) fn send_frame(&self, frame: u32, at: &Vec<Rect>) -> (sent: Vec<Sent>)
        requires
            at@.len() == self@.len(),
            frame <= FRAMES,
        ensures
            sent@ == frame_requests(self@, frame, at@),
    {
        // The size is not animated, which would be too slow. It is set halfway
        // and again at the end, in case it got clipped during the animation.
        let set_size: bool = frame * 2 == FRAMES || frame == FRAMES;
        let mut sent: Vec<Sent> = Vec::new();
        let mut i: usize = 0;
        while i < self.windows.len()
            invariant
                i <= self.windows.len(),
                at@.len() == self@.len(),
                set_size == sets_size(frame),
                sent@.len() == i,
                forall|k: int| 0 <= k < i ==> sent@[k] == frame_request(self@[k], frame, at@[k]),
            decreases self.windows.len() - i,
        {
            let w = self.windows[i];
            let mut rect = at[i];
            if set_size {
                rect = Rect { origin: rect.origin, size: w.finish.size };
            }
            sent.push(
                Sent {
                    handle: w.handle,
                    request: Request::AnimationFrame { wid: w.wid, frame: rect, set_size, txid: w.txid },
                },
            );
            i += 1;
        }
        proof {
            assert(sent@ =~= frame_requests(self@, frame, at@));
        }
        sent
    }

    pub(crate) fn end(&self) -> (sent: Vec<Sent>)
        ensures
            sent@ == ended(self@),
    {
        let mut sent: Vec<Sent> = Vec::new();
        let mut i: usize = 0;
        while i < self.windows.len()
            invariant
                i <= self.windows.len(),
                sent@ == ended(self@.take(i as int)),
            decreases self.windows.len() - i,
        {
            let w = self.windows[i];
            sent.push(Sent { handle: w.handle, request: Request::EndWindowAnimation(w.wid) });
            proof {
                assert(sent@ =~= ended(self@.take(i + 1)));
            }
            i += 1;
        }
        proof {
            lemma_take_all(self@);
        }
        sent
    }

    /// The place of the first window with the id.
    fn find(&self, wid: WindowId) -> (p: Option<usize>)
        ensures
            p is Some <==> has_window(self@, wid),
            p matches Some(i) ==> i < self@.len() && i == first_with(self@, wid) && self@[i as int].wid == wid,
    {
        let mut i: usize = 0;
        while i < self.windows.len()
            invariant
                i <= self.windows.len(),
                forall|j: int| 0 <= j < i ==> (#[trigger] self@[j]).wid != wid,
            decreases self.windows.len() - i,
        {
            if self.windows[i].wid == wid {
                proof {
                    assert(self@[i as int].wid == wid);
                    let k = first_with(self@, wid);
                    assert(0 <= k < self@.len() && self@[k].wid == wid);
                    assert(k == i);
                }
                return Some(i);
            }
            i += 1;
        }
        None
    }

    /// Makes the first window with the id start at the frame, if there is one.
    fn start_window_at(&mut self, wid: WindowId, frame: Rect) -> (found: bool)
        ensures
            final(self)@ == start_at(old(self)@, wid, frame),
            same_ids(final(self)@, old(self)@),
            found == has_window(old(self)@, wid),
    {
        match self.find(wid) {
            Some(p) => {
                let w = self.windows[p];
                self.windows.set(p, AnimatedWindow { start: frame, ..w });
                true
            },
            None => false,
        }
    }

    /// Makes each window that has a current frame start there, and returns
    /// those windows.
    pub(crate) fn patch_starts_from(&mut self, current: &Vec<(WindowId, Rect)>) -> (kept: Vec<WindowId>)
        ensures
            final(self)@ == patched(old(self)@, current@),
            kept@ == continuing(old(self)@, current@),
    {
        let ghost before = self@;
        let ghost takes_part = |c: (WindowId, Rect)| has_window(before, c.0);
        let ghost id_of = |c: (WindowId, Rect)| c.0;
        let mut kept: Vec<WindowId> = Vec::new();
        let mut i: usize = 0;
        proof {
            assert(current@.take(0).filter(takes_part) =~= Seq::empty()) by {
                reveal(Seq::filter);
            }
        }
        while i < current.len()
            invariant
                i <= current.len(),
                self@ == patched(before, current@.take(i as int)),
                same_ids(self@, before),
                takes_part == (|c: (WindowId, Rect)| has_window(before, c.0)),
                id_of == (|c: (WindowId, Rect)| c.0),
                kept@ == current@.take(i as int).filter(takes_part).map_values(id_of),
            decreases current.len() - i,
        {
            let (wid, frame) = current[i];
            proof {
                let now = current@.take(i + 1);
                assert(now.drop_last() =~= current@.take(i as int));
                assert(now.last() == current@[i as int]);
                lemma_filter_step(current@, takes_part, i as int);
                lemma_same_ids(self@, before, wid);
            }
            if self.start_window_at(wid, frame) {
                kept.push(wid);
            }
            proof {
                assert(kept@ =~= current@.take(i + 1).filter(takes_part).map_values(id_of));
            }
            i += 1;
        }
        proof {
            lemma_take_all(current@);
        }
        kept
    }

    /// Pulls in windows from a previous animation that this one doesn't
    /// mention, so they keep animating from their current position toward
    /// their original destination instead of jumping there. Their animations
    /// are already begun, so they are only adopted.
    pub(crate) fn carry_over(&mut self, previous: &Animation, current: &Vec<(WindowId, Rect)>)
        ensures
            final(self)@ == carried_over(old(self)@, previous@, current@),
    {
        let ghost before = self@;
        let mut i: usize = 0;
        while i < previous.windows.len()
            invariant
                i <= previous.windows.len(),
                self@ == carried_over(before, previous@.take(i as int), current@),
            decreases previous.windows.len() - i,
        {
            let w = previous.windows[i];
            proof {
                let now = previous@.take(i + 1);
                assert(now.drop_last() =~= previous@.take(i as int));
                assert(now.last() == w);
            }
            if self.find(w.wid).is_none() {
                let start = current_frame(&w, current);
                self.windows.push(AnimatedWindow { start, ..w });
            }
            i += 1;
        }
        proof {
            lemma_take_all(previous@);
        }
    }
}

/// The sequences hold the same windows, but for where they start.
pub open spec fn same_ids(a: Seq<AnimatedWindow>, b: Seq<AnimatedWindow>) -> bool {
    a.len() == b.len() && forall|i: int| 0 <= i < a.len() ==> (#[trigger] a[i]).wid == b[i].wid
}

proof fn lemma_same_ids(a: Seq<AnimatedWindow>, b: Seq<AnimatedWindow>, wid: WindowId)
    requires
        same_ids(a, b),
    ensures
        has_window(a, wid) == has_window(b, wid),
{
    if has_window(a, wid) {
        let i = choose|i: int| 0 <= i < a.len() && (#[trigger] a[i]).wid == wid;
        assert(b[i].wid == wid);
    }
    if has_window(b, wid) {
        let i = choose|i: int| 0 <= i < b.len() && (#[trigger] b[i]).wid == wid;
        assert(a[i].wid == wid);
    }
}

fn current_frame(w: &AnimatedWindow, current: &Vec<(WindowId, Rect)>) -> (frame: Rect)
    ensures
        frame == current_or_start(*w, current@),
{
    let mut i: usize = 0;
    proof {
        assert(current@.skip(0) =~= current@);
    }
    while i < current.len()
        invariant
            i <= current.len(),
            current_or_start(*w, current@) == current_or_start(*w, current@.skip(i as int)),
        decreases current.len() - i,
    {
        let (wid, frame) = current[i];
        proof {
            assert(current@.skip(i as int).drop_first() =~= current@.skip(i + 1));
        }
        if wid == w.wid {
            return frame;
        }
        i += 1;
    }
    w.start
}

/// An animation of thirty frames takes 300 ms.
pub proof fn animation_takes_its_time()
    ensures
        FRAMES * INTERVAL == 300_000_000,
{
}

} // verus!
