//! Runs animations: decides what each message and each tick sends.
use vstd::prelude::*;

use crate::animation::{
    begun, carried_over, continuing, ended, finished, frame_after, frame_requests, patched, written,
    AnimatedWindow, Animation, Message, FRAMES, INTERVAL,
};
use crate::geometry::Rect;
use crate::ids::WindowId;
use crate::ordered::{in_order, OrdMap};
use crate::request::{AppThreadHandle, Request, Sent, TransactionId};
use crate::sequences::{each, lemma_each_step, lemma_take_all};

verus! {

/// The last frame sent to a window in a scroll animation.
#[derive(Clone, Copy, Debug, PartialEq, Eq, Structural)]
pub struct ScrollingWindow {
    pub handle: AppThreadHandle,
    pub frame: Rect,
    pub txid: TransactionId,
}

/// An animation on its way.
struct ActiveAnimation {
    animation: Animation,
    next_frame: u32,
    /// Where the windows stood in the last frame, if there was one.
    at: Vec<Rect>,
}

/// Runs the layout animation and the scroll animation.
pub struct AnimationManager {
    active: Option<ActiveAnimation>,
    /// Windows with a scroll animation begun and not yet ended.
    scrolling: OrdMap<WindowId, ScrollingWindow>,
}

/// What a message or a tick leads to.
pub struct Step {
    /// When to tick next, in nanoseconds from now.
    pub delay: Option<u64>,
    /// The requests to send, in order.
    pub sent: Vec<Sent>,
}

/// The layout animation on its way.
#[verifier::ext_equal]
pub struct ActiveView {
    pub windows: Seq<AnimatedWindow>,
    /// The number of the next frame. The first is 1.
    pub next_frame: u32,
    /// Where the windows stood in the last frame, if there was one.
    pub at: Seq<Rect>,
}

/// What the manager knows.
#[verifier::ext_equal]
pub struct ManagerView {
    pub active: Option<ActiveView>,
    pub scrolling: Map<WindowId, ScrollingWindow>,
}

/// The requests that end the scroll animation of a window at its last target.
pub open spec fn end_scrolling(scrolling: Map<WindowId, ScrollingWindow>, wid: WindowId) -> Seq<Sent> {
    let last = scrolling[wid];
    seq![
        Sent {
            handle: last.handle,
            request: Request::AnimationFrame { wid, frame: last.frame, set_size: true, txid: last.txid },
        },
        Sent { handle: last.handle, request: Request::EndWindowAnimation(wid) },
    ]
}

/// The requests that end the scroll animation of every window.
pub open spec fn scroll_ended(scrolling: Map<WindowId, ScrollingWindow>) -> Seq<Sent> {
    each(in_order(scrolling.dom()), |wid: WindowId| end_scrolling(scrolling, wid))
}

/// The requests that finish the layout animation.
pub open spec fn active_finished(active: Option<ActiveView>) -> Seq<Sent> {
    match active {
        Some(a) => finished(a.windows),
        None => Seq::empty(),
    }
}

/// Where the windows of the layout animation stand.
pub open spec fn current_frames(a: ActiveView) -> Seq<(WindowId, Rect)> {
    Seq::new(
        a.windows.len(),
        |i: int| (a.windows[i].wid, frame_after(a.windows[i], (a.next_frame - 1) as u32, a.at[i])),
    )
}

/// A layout animation that has just begun.
pub open spec fn starting(windows: Seq<AnimatedWindow>) -> ActiveView {
    ActiveView { windows, next_frame: 1, at: Seq::empty() }
}

/// The windows taking part in the scroll animation after a frame of it.
pub open spec fn scrolled(
    scrolling: Map<WindowId, ScrollingWindow>,
    windows: Seq<AnimatedWindow>,
) -> Map<WindowId, ScrollingWindow>
    decreases windows.len(),
{
    if windows.len() == 0 {
        scrolling
    } else {
        let w = windows.last();
        scrolled(scrolling, windows.drop_last()).insert(
            w.wid,
            ScrollingWindow { handle: w.handle, frame: w.finish, txid: w.txid },
        )
    }
}

/// The request that moves a window in a frame of a scroll animation.
pub open spec fn scroll_request(w: AnimatedWindow) -> Sent {
    Sent {
        handle: w.handle,
        request: Request::AnimationFrame {
            wid: w.wid,
            frame: w.finish,
            set_size: !w.start.size.same(w.finish.size),
            txid: w.txid,
        },
    }
}

/// The requests of a frame of a scroll animation. A window that does not take
/// part in it yet is begun first.
pub open spec fn scroll_requests(
    scrolling: Map<WindowId, ScrollingWindow>,
    windows: Seq<AnimatedWindow>,
) -> Seq<Sent>
    decreases windows.len(),
{
    if windows.len() == 0 {
        Seq::empty()
    } else {
        let w = windows.last();
        let before = scroll_requests(scrolling, windows.drop_last());
        let begin = if scrolled(scrolling, windows.drop_last()).dom().contains(w.wid) {
            Seq::empty()
        } else {
            seq![Sent { handle: w.handle, request: Request::BeginWindowAnimation(w.wid) }]
        };
        before + begin + seq![scroll_request(w)]
    }
}

/// The scroll animation, where the windows that take part in it end at the
/// given frames.
pub open spec fn retargeted(
    scrolling: Map<WindowId, ScrollingWindow>,
    windows: Seq<AnimatedWindow>,
) -> Map<WindowId, ScrollingWindow>
    decreases windows.len(),
{
    if windows.len() == 0 {
        scrolling
    } else {
        let w = windows.last();
        let before = retargeted(scrolling, windows.drop_last());
        if before.dom().contains(w.wid) {
            before.insert(w.wid, ScrollingWindow { frame: w.finish, txid: w.txid, ..before[w.wid] })
        } else {
            before
        }
    }
}

/// The windows that take no part in the scroll animation.
pub open spec fn not_scrolling(
    scrolling: Map<WindowId, ScrollingWindow>,
    windows: Seq<AnimatedWindow>,
) -> Seq<AnimatedWindow> {
    windows.filter(|w: AnimatedWindow| !scrolling.dom().contains(w.wid))
}

/// What the manager knows after a message.
pub open spec fn after_message(v: ManagerView, message: Message) -> ManagerView {
    match message {
        Message::Replace(next) => ManagerView {
            active: match v.active {
                Some(a) => {
                    let current = current_frames(a);
                    Some(starting(carried_over(patched(next@, current), a.windows, current)))
                },
                None => if next@.len() == 0 {
                    None
                } else {
                    Some(starting(next@))
                },
            },
            scrolling: Map::empty(),
        },
        Message::SkipToEnd(_) => ManagerView { active: None, scrolling: Map::empty() },
        Message::ScrollFrame(step) => ManagerView { active: None, scrolling: scrolled(v.scrolling, step@) },
        Message::ScrollEnd(_) => ManagerView { active: None, scrolling: Map::empty() },
        Message::ScrollWindowFrame(wid, frame) => if v.scrolling.dom().contains(wid) {
            ManagerView {
                scrolling: v.scrolling.insert(wid, ScrollingWindow { frame, ..v.scrolling[wid] }),
                ..v
            }
        } else {
            v
        },
    }
}

/// The requests that a message leads to.
pub open spec fn message_requests(v: ManagerView, message: Message) -> Seq<Sent> {
    match message {
        Message::Replace(next) => scroll_ended(v.scrolling) + (match v.active {
            Some(a) => {
                let current = current_frames(a);
                begun(patched(next@, current), continuing(next@, current))
            },
            None => begun(next@, Seq::empty()),
        }),
        Message::SkipToEnd(next) => scroll_ended(v.scrolling) + active_finished(v.active) + written(next@),
        Message::ScrollFrame(step) => active_finished(v.active) + scroll_requests(v.scrolling, step@),
        Message::ScrollEnd(last) => active_finished(v.active) + written(not_scrolling(v.scrolling, last@))
            + scroll_ended(retargeted(v.scrolling, last@)),
        Message::ScrollWindowFrame(_, _) => Seq::empty(),
    }
}

/// What the manager knows after a tick in which the windows stood at `at`.
pub open spec fn after_tick(v: ManagerView, at: Seq<Rect>) -> ManagerView {
    match v.active {
        Some(a) => ManagerView {
            active: if a.next_frame == FRAMES {
                None
            } else {
                Some(ActiveView { next_frame: (a.next_frame + 1) as u32, at, ..a })
            },
            ..v
        },
        None => v,
    }
}

/// The requests of a tick in which the windows stand at `at`.
pub open spec fn tick_requests(v: ManagerView, at: Seq<Rect>) -> Seq<Sent> {
    match v.active {
        Some(a) => frame_requests(a.windows, a.next_frame, at) + (if a.next_frame == FRAMES {
            ended(a.windows)
        } else {
            Seq::empty()
        }),
        None => Seq::empty(),
    }
}

impl ActiveAnimation {
    spec fn model(&self) -> ActiveView {
        ActiveView { windows: self.animation@, next_frame: self.next_frame, at: self.at@ }
    }

    /// The next frame is one of the animation, and from the second on it is
    /// known where the windows stand.
    spec fn wf(&self) -> bool {
        &&& 1 <= self.next_frame <= FRAMES
        &&& self.next_frame > 1 ==> self.at@.len() == self.animation@.len()
    }

    fn current_frames(&self) -> (frames: Vec<(WindowId, Rect)>)
        requires
            self.wf(),
        ensures
            frames@ == current_frames(self.model()),
    {
        let frame: u32 = self.next_frame - 1;
        let windows = self.animation.windows();
        let mut frames: Vec<(WindowId, Rect)> = Vec::new();
        let mut i: usize = 0;
        while i < windows.len()
            invariant
                self.wf(),
                i <= windows.len(),
                windows@ == self.animation@,
                frame == self.next_frame - 1,
                frames@.len() == i,
                forall|k: int|
                    0 <= k < i ==> frames@[k] == (
                        windows@[k].wid,
                        frame_after(windows@[k], frame, self.at@[k]),
                    ),
            decreases windows.len() - i,
        {
            let w = windows[i];
            let rect = if frame == 0 {
                if w.is_focus {
                    Rect { origin: w.start.origin, size: w.finish.size }
                } else {
                    w.start
                }
            } else if w.is_focus || frame * 2 >= FRAMES {
                Rect { origin: self.at[i].origin, size: w.finish.size }
            } else {
                Rect { origin: self.at[i].origin, size: w.start.size }
            };
            frames.push((w.wid, rect));
            i += 1;
        }
        proof {
            assert(frames@ =~= current_frames(self.model()));
        }
        frames
    }
}

impl View for AnimationManager {
    type V = ManagerView;

    closed spec fn view(&self) -> ManagerView {
        ManagerView {
            active: match self.active {
                Some(a) => Some(a.model()),
                None => None,
            },
            scrolling: self.scrolling@,
        }
    }
}

impl AnimationManager {
    pub closed spec fn wf(&self) -> bool {
        &&& self.scrolling.wf()
        &&& self.active matches Some(a) ==> a.wf()
        &&& self.active is Some ==> self.scrolling@ == Map::<WindowId, ScrollingWindow>::empty()
    }

    /// Finitely many windows take part in the scroll animation, and none while
    /// the layout animation runs.
    pub proof fn known_sets_are_finite(&self)
        requires
            self.wf(),
        ensures
            self@.scrolling.dom().finite(),
            self@.active is Some ==> self@.scrolling == Map::<WindowId, ScrollingWindow>::empty(),
    {
        self.scrolling.lemma_keys();
    }

    pub fn new() -> (m: AnimationManager)
        ensures
            m.wf(),
            m@ == (ManagerView { active: None, scrolling: Map::empty() }),
    {
        AnimationManager { active: None, scrolling: OrdMap::new() }
    }

    /// Whether a layout animation is on its way.
    pub fn is_active(&self) -> (b: bool)
        ensures
            b == (self@.active is Some),
    {
        self.active.is_some()
    }

    /// The number of the next frame of the layout animation.
    pub fn next_frame(&self) -> (frame: Option<u32>)
        ensures
            frame == (match self@.active {
                Some(a) => Some(a.next_frame),
                None => None,
            }),
    {
        match &self.active {
            Some(a) => Some(a.next_frame),
            None => None,
        }
    }

    /// The windows of the layout animation.
    pub fn active_windows(&self) -> (windows: Option<&Vec<AnimatedWindow>>)
        ensures
            windows is Some <==> self@.active is Some,
            windows matches Some(w) ==> w@ == self@.active->Some_0.windows,
    {
        match &self.active {
            Some(a) => Some(a.animation.windows()),
            None => None,
        }
    }

    /// Where the windows of the layout animation stand.
    pub fn current_frames(&self) -> (frames: Option<Vec<(WindowId, Rect)>>)
        requires
            self.wf(),
        ensures
            frames is Some <==> self@.active is Some,
            frames matches Some(f) ==> f@ == current_frames(self@.active->Some_0),
    {
        match &self.active {
            Some(a) => Some(a.current_frames()),
            None => None,
        }
    }

    /// Whether no window takes part in a scroll animation.
    pub fn is_scroll_ended(&self) -> (b: bool)
        requires
            self.wf(),
        ensures
            b == (self@.scrolling == Map::<WindowId, ScrollingWindow>::empty()),
    {
        self.scrolling.is_empty()
    }

    pub fn handle_message(&mut self, message: Message) -> (step: Step)
        requires
            old(self).wf(),
        ensures
            final(self).wf(),
            final(self)@ == after_message(old(self)@, message),
            step.sent@ == message_requests(old(self)@, message),
            step.delay == (if message is Replace && final(self)@.active is Some {
                Some(INTERVAL)
            } else {
                None
            }),
    {
        let mut sent: Vec<Sent> = Vec::new();
        match message {
            Message::Replace(next) => {
                self.end_scroll(&mut sent);
                let delay = self.replace(next, &mut sent);
                Step { delay, sent }
            },
            Message::SkipToEnd(next) => {
                self.end_scroll(&mut sent);
                self.finish_active(&mut sent);
                let mut last = next.skip_to_end();
                sent.append(&mut last);
                Step { delay: None, sent }
            },
            Message::ScrollFrame(step) => {
                self.finish_active(&mut sent);
                self.scroll(&step, &mut sent);
                Step { delay: None, sent }
            },
            Message::ScrollEnd(last) => {
                self.finish_active(&mut sent);
                self.retarget(&last, &mut sent);
                self.end_scroll(&mut sent);
                Step { delay: None, sent }
            },
            Message::ScrollWindowFrame(wid, frame) => {
                match self.scrolling.get_mut(wid) {
                    Some(last) => {
                        last.frame = frame;
                    },
                    None => {},
                }
                Step { delay: None, sent }
            },
        }
    }

    /// Sends the next frame of the layout animation, in which the windows
    /// stand at the given places.
    pub fn tick(&mut self, at: Vec<Rect>) -> (step: Step)
        requires
            old(self).wf(),
            old(self)@.active matches Some(a) ==> at@.len() == a.windows.len(),
        ensures
            final(self).wf(),
            final(self)@ == after_tick(old(self)@, at@),
            step.sent@ == tick_requests(old(self)@, at@),
            step.delay == (if final(self)@.active is Some {
                Some(INTERVAL)
            } else {
                None
            }),
    {
        match self.active.take() {
            Some(mut active) => {
                let mut sent = active.animation.send_frame(active.next_frame, &at);
                if active.next_frame == FRAMES {
                    let mut last = active.animation.end();
                    sent.append(&mut last);
                    Step { delay: None, sent }
                } else {
                    active.next_frame += 1;
                    active.at = at;
                    self.active = Some(active);
                    Step { delay: Some(INTERVAL), sent }
                }
            },
            None => Step { delay: None, sent: Vec::new() },
        }
    }

    /// Finishes every animation, because no more messages will come.
    pub fn shut_down(&mut self) -> (sent: Vec<Sent>)
        requires
            old(self).wf(),
        ensures
            final(self).wf(),
            final(self)@ == (ManagerView { active: None, scrolling: Map::empty() }),
            sent@ == active_finished(old(self)@.active) + scroll_ended(old(self)@.scrolling),
    {
        let mut sent: Vec<Sent> = Vec::new();
        self.finish_active(&mut sent);
        self.end_scroll(&mut sent);
        sent
    }

    fn replace(&mut self, next: Animation, sent: &mut Vec<Sent>) -> (delay: Option<u64>)
        requires
            old(self).wf(),
            old(self)@.scrolling == Map::<WindowId, ScrollingWindow>::empty(),
        ensures
            final(self).wf(),
            final(self)@ == after_message(old(self)@, Message::Replace(next)),
            final(sent)@ == old(sent)@ + (match old(self)@.active {
                Some(a) => {
                    let current = current_frames(a);
                    begun(patched(next@, current), continuing(next@, current))
                },
                None => begun(next@, Seq::empty()),
            }),
            delay == (if final(self)@.active is Some {
                Some(INTERVAL)
            } else {
                None
            }),
    {
        let mut next = next;
        match self.active.take() {
            Some(active) => {
                let current = active.current_frames();
                let kept = next.patch_starts_from(&current);
                let mut first = next.begin_windows_not_in(&kept);
                sent.append(&mut first);
                next.carry_over(&active.animation, &current);
                self.active = Some(ActiveAnimation { animation: next, next_frame: 1, at: Vec::new() });
                Some(INTERVAL)
            },
            None => {
                let mut first = next.begin();
                sent.append(&mut first);
                if next.is_empty() {
                    None
                } else {
                    self.active = Some(ActiveAnimation { animation: next, next_frame: 1, at: Vec::new() });
                    Some(INTERVAL)
                }
            },
        }
    }

    fn finish_active(&mut self, sent: &mut Vec<Sent>)
        requires
            old(self).wf(),
        ensures
            final(self).wf(),
            final(self)@ == (ManagerView { active: None, ..old(self)@ }),
            final(sent)@ == old(sent)@ + active_finished(old(self)@.active),
    {
        match self.active.take() {
            Some(active) => {
                let mut last = active.animation.finish_all();
                sent.append(&mut last);
            },
            None => {},
        }
    }

    fn scroll(&mut self, step: &Animation, sent: &mut Vec<Sent>)
        requires
            old(self).wf(),
            old(self)@.active is None,
        ensures
            final(self).wf(),
            final(self)@ == (ManagerView { scrolling: scrolled(old(self)@.scrolling, step@), ..old(self)@ }),
            final(sent)@ == old(sent)@ + scroll_requests(old(self)@.scrolling, step@),
    {
        let windows = step.windows();
        let ghost before = self@.scrolling;
        let ghost sent0 = sent@;
        let mut i: usize = 0;
        while i < windows.len()
            invariant
                self.wf(),
                self.active is None,
                windows@ == step@,
                i <= windows.len(),
                self.scrolling@ == scrolled(before, step@.take(i as int)),
                sent@ == sent0 + scroll_requests(before, step@.take(i as int)),
            decreases windows.len() - i,
        {
            let w = windows[i];
            proof {
                let now = step@.take(i + 1);
                assert(now.drop_last() =~= step@.take(i as int));
                assert(now.last() == w);
            }
            let last = ScrollingWindow { handle: w.handle, frame: w.finish, txid: w.txid };
            if self.scrolling.insert(w.wid, last).is_none() {
                sent.push(Sent { handle: w.handle, request: Request::BeginWindowAnimation(w.wid) });
            }
            sent.push(
                Sent {
                    handle: w.handle,
                    request: Request::AnimationFrame {
                        wid: w.wid,
                        frame: w.finish,
                        set_size: !w.start.size.same_size(w.finish.size),
                        txid: w.txid,
                    },
                },
            );
            proof {
                assert(sent@ =~= sent0 + scroll_requests(before, step@.take(i + 1)));
            }
            i += 1;
        }
        proof {
            lemma_take_all(step@);
        }
    }

    fn retarget(&mut self, last: &Animation, sent: &mut Vec<Sent>)
        requires
            old(self).wf(),
        ensures
            final(self).wf(),
            final(self)@ == (ManagerView { scrolling: retargeted(old(self)@.scrolling, last@), ..old(self)@ }),
            final(sent)@ == old(sent)@ + written(not_scrolling(old(self)@.scrolling, last@)),
    {
        let windows = last.windows();
        let ghost before = self@.scrolling;
        let ghost sent0 = sent@;
        let ghost p = |w: AnimatedWindow| !before.dom().contains(w.wid);
        let mut i: usize = 0;
        proof {
            assert(last@.take(0).filter(p) =~= Seq::empty()) by {
                reveal(Seq::filter);
            }
            assert(written(Seq::empty()) =~= Seq::empty());
        }
        while i < windows.len()
            invariant
                self.wf(),
                self.active == old(self).active,
                windows@ == last@,
                i <= windows.len(),
                p == (|w: AnimatedWindow| !before.dom().contains(w.wid)),
                self.scrolling@ == retargeted(before, last@.take(i as int)),
                self.scrolling@.dom() == before.dom(),
                sent@ == sent0 + written(last@.take(i as int).filter(p)),
            decreases windows.len() - i,
        {
            let w = windows[i];
            proof {
                let now = last@.take(i + 1);
                assert(now.drop_last() =~= last@.take(i as int));
                assert(now.last() == w);
                crate::sequences::lemma_filter_step(last@, p, i as int);
            }
            match self.scrolling.get_mut(w.wid) {
                Some(target) => {
                    target.frame = w.finish;
                    target.txid = w.txid;
                },
                None => {
                    sent.push(
                        Sent { handle: w.handle, request: Request::SetWindowFrame(w.wid, w.finish, w.txid) },
                    );
                },
            }
            proof {
                assert(self.scrolling@.dom() =~= before.dom());
                assert(sent@ =~= sent0 + written(last@.take(i + 1).filter(p)));
            }
            i += 1;
        }
        proof {
            lemma_take_all(last@);
        }
    }

    /// Ends the scroll animation of every begun window. Each first gets a
    /// sized frame at its last target: ending the animation re-applies the
    /// last sized frame with retries, and without this one that would be a
    /// stale mid-scroll frame.
    fn end_scroll(&mut self, sent: &mut Vec<Sent>)
        requires
            old(self).wf(),
        ensures
            final(self).wf(),
            final(self)@ == (ManagerView { scrolling: Map::empty(), ..old(self)@ }),
            final(sent)@ == old(sent)@ + scroll_ended(old(self)@.scrolling),
    {
        let ghost m = self@.scrolling;
        let ghost sent0 = sent@;
        let ghost f = |wid: WindowId| end_scrolling(m, wid);
        let wids = self.scrolling.keys();
        let mut i: usize = 0;
        while i < wids.len()
            invariant
                self.scrolling.wf(),
                self.scrolling@ == m,
                i <= wids.len(),
                wids@.to_set() == m.dom(),
                f == (|wid: WindowId| end_scrolling(m, wid)),
                sent@ == sent0 + each(wids@.take(i as int), f),
            decreases wids.len() - i,
        {
            let wid = wids[i];
            proof {
                assert(wids@.to_set().contains(wid));
                lemma_each_step(wids@, f, i as int);
            }
            match self.scrolling.get(wid) {
                Some(last) => {
                    sent.push(
                        Sent {
                            handle: last.handle,
                            request: Request::AnimationFrame {
                                wid,
                                frame: last.frame,
                                set_size: true,
                                txid: last.txid,
                            },
                        },
                    );
                    sent.push(Sent { handle: last.handle, request: Request::EndWindowAnimation(wid) });
                },
                None => {},
            }
            proof {
                assert(sent@ =~= sent0 + each(wids@.take(i + 1), f));
            }
            i += 1;
        }
        proof {
            lemma_take_all(wids@);
        }
        self.scrolling = OrdMap::new();
    }
}

} // verus!
