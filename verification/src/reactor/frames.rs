//! Writing frames to windows.
use vstd::prelude::*;

use crate::animation::{Animation, Message};
use crate::geometry::Rect;
use crate::ids::{is_among, WindowId};
use crate::number::{Number, ONE_BITS};
use crate::ordered::OrdMap;
use crate::reactions::{
    attempt_after, lemma_writes_add, lemma_writes_grow, lemma_writing_keeps, lemma_writing_one, writes_to,
};
use crate::reactor_model::{
    laid_out, FRAME_ATTEMPT_RESET, FrameAttempt, MAX_FRAME_ATTEMPTS, ReactorView, RoundedTarget, Screen,
    Target,
};
use crate::request::TransactionId;
use crate::sequences::{lemma_filter_step, lemma_take_all, lemma_to_set_step};
use super::Reactor;

verus! {

impl Reactor {
    /// The screens whose windows are managed, with their spaces. The layout
    /// calculates the frames of each.
    pub fn screens_to_lay_out(&self) -> (screens: Vec<Screen>)
        ensures
            screens@ == self@.screens.filter(|s: Screen| s.space is Some),
    {
        let ghost p = |s: Screen| s.space is Some;
        let mut screens: Vec<Screen> = Vec::new();
        let mut i: usize = 0;
        proof {
            assert(self.screens@.take(0).filter(p) =~= Seq::empty()) by {
                reveal(Seq::filter);
            }
        }
        while i < self.screens.len()
            invariant
                i <= self.screens.len(),
                p == (|s: Screen| s.space is Some),
                screens@ == self.screens@.take(i as int).filter(p),
            decreases self.screens.len() - i,
        {
            let screen = self.screens[i];
            proof {
                lemma_filter_step(self.screens@, p, i as int);
            }
            if screen.space.is_some() {
                screens.push(screen);
            }
            i += 1;
        }
        proof {
            lemma_take_all(self.screens@);
        }
        screens
    }

    /// The frame that the window was last known at.
    pub fn window_frame(&self, wid: WindowId) -> (frame: Option<Rect>)
        requires
            self.wf(),
        ensures
            frame == (if self@.windows.dom().contains(wid) {
                Some(self@.windows[wid].frame_monotonic)
            } else {
                None
            }),
    {
        match self.windows.get(wid) {
            Some(window) => Some(window.frame_monotonic),
            None => None,
        }
    }

    /// The frame that was last written to the window.
    pub fn attempted_frame(&self, wid: WindowId) -> (frame: Option<Rect>)
        requires
            self.wf(),
        ensures
            frame == (if self@.frame_attempts.dom().contains(wid) {
                Some(self@.frame_attempts[wid].target)
            } else {
                None
            }),
    {
        match self.frame_attempts.get(wid) {
            Some(attempt) => Some(attempt.target),
            None => None,
        }
    }

    pub(super) fn scale_for(&self, frame: &Rect) -> (scale: Number)
        requires
            self.wf(),
        ensures
            scale == self@.scale_for(*frame),
    {
        match self.best_screen_idx_for_window(frame) {
            Some(i) => self.screens[i].scale_factor,
            None => Number { bits: ONE_BITS },
        }
    }

    /// Merges the frames of the layout with those that take their place, which
    /// are used up.
    pub fn take_targets(&mut self, laid: Vec<Target>) -> (targets: Vec<Target>)
        requires
            old(self).wf(),
        ensures
            final(self).wf(),
            final(self)@ == (ReactorView { pending_frame_overrides: Map::empty(), ..old(self)@ }),
            targets@ == old(self)@.targets(laid@),
    {
        let ghost v = self@;
        let mut wanted: OrdMap<WindowId, (Rect, Number)> = OrdMap::new();
        let mut i: usize = 0;
        while i < laid.len()
            invariant
                wanted.wf(),
                i <= laid.len(),
                wanted@ == laid_out(laid@.take(i as int)),
            decreases laid.len() - i,
        {
            let t = laid[i];
            proof {
                let now = laid@.take(i + 1);
                assert(now.drop_last() =~= laid@.take(i as int));
                assert(now.last() == t);
            }
            wanted.insert(t.wid, (t.frame, t.scale_factor));
            i += 1;
        }
        proof {
            lemma_take_all(laid@);
        }
        let ghost by_layout = wanted@;
        let ghost overrides = v.pending_frame_overrides;
        let ghost over = |n: Set<WindowId>|
            Map::new(|w: WindowId| n.contains(w), |w: WindowId| (overrides[w], v.scale_for(overrides[w])));
        let wids = self.pending_frame_overrides.keys();
        let mut i: usize = 0;
        proof {
            assert(by_layout.union_prefer_right(over(wids@.take(0).to_set())) =~= by_layout);
        }
        while i < wids.len()
            invariant
                self.wf(),
                wanted.wf(),
                v == self@,
                overrides == v.pending_frame_overrides,
                wids@.to_set() == overrides.dom(),
                i <= wids.len(),
                over == (|n: Set<WindowId>|
                    Map::new(|w: WindowId| n.contains(w), |w: WindowId| (overrides[w], v.scale_for(overrides[w])))),
                wanted@ == by_layout.union_prefer_right(over(wids@.take(i as int).to_set())),
            decreases wids.len() - i,
        {
            let wid = wids[i];
            proof {
                assert(wids@.to_set().contains(wid));
                lemma_to_set_step(wids@, i as int);
            }
            match self.pending_frame_overrides.get(wid) {
                Some(frame) => {
                    let scale = self.scale_for(frame);
                    wanted.insert(wid, (*frame, scale));
                },
                None => {},
            }
            proof {
                assert(wanted@ =~= by_layout.union_prefer_right(over(wids@.take(i + 1).to_set())));
            }
            i += 1;
        }
        proof {
            lemma_take_all(wids@);
            assert(wanted@ =~= v.wanted(laid@));
        }
        self.pending_frame_overrides = OrdMap::new();
        let wids = wanted.keys();
        let mut targets: Vec<Target> = Vec::new();
        let mut i: usize = 0;
        while i < wids.len()
            invariant
                wanted.wf(),
                wids@.to_set() == wanted@.dom(),
                i <= wids.len(),
                targets@.len() == i,
                forall|k: int|
                    0 <= k < i ==> targets@[k] == (Target {
                        wid: wids@[k],
                        frame: wanted@[wids@[k]].0,
                        scale_factor: wanted@[wids@[k]].1,
                    }),
            decreases wids.len() - i,
        {
            let wid = wids[i];
            proof {
                assert(wids@.to_set().contains(wid));
            }
            match wanted.get(wid) {
                Some(w) => {
                    targets.push(Target { wid, frame: w.0, scale_factor: w.1 });
                },
                None => {},
            }
            i += 1;
        }
        proof {
            assert(targets@ =~= v.targets(laid@));
        }
        targets
    }

    /// Writes one frame, if there is reason to.
    pub(super) fn write_frame(&mut self, t: &RoundedTarget, new_wids: &Vec<WindowId>, now: u64, animation: &mut Animation)
        requires
            old(self).wf(),
            old(self)@.writing_one(*t, new_wids@, now).1.len() > 0 ==> old(self)@.windows[t.wid].last_sent_txid.0
                < u32::MAX,
        ensures
            final(self).wf(),
            final(self)@ == old(self)@.writing_one(*t, new_wids@, now).0,
            final(animation)@ == old(animation)@ + old(self)@.writing_one(*t, new_wids@, now).1,
    {
        let ghost v = self@;
        let ghost anim0 = animation@;
        let wid = t.wid;
        let resizing = match self.resizing_window {
            Some(w) => w == wid,
            None => false,
        };
        if resizing || t.same_as_current || !self.windows.contains(wid) {
            // The user is dragging this window's edge, it is where it should
            // be, or it is not available yet.
            proof {
                assert(animation@ =~= anim0 + v.writing_one(*t, new_wids@, now).1);
            }
            return;
        }
        // Some apps move a window back after it was placed, which turns into an
        // event that makes it be placed again. The frame is no longer written
        // once it's clear the app won't keep it.
        let last = match self.frame_attempts.get(wid) {
            Some(last) => Some(*last),
            None => None,
        };
        let attempt = next_attempt(last, t, now);
        self.frame_attempts.insert(wid, attempt);
        proof {
            assert(attempt == v.attempt(*t, now));
        }
        if attempt.count > MAX_FRAME_ATTEMPTS {
            proof {
                assert(animation@ =~= anim0 + v.writing_one(*t, new_wids@, now).1);
            }
            return;
        }
        let handle = match self.apps.get(wid.pid) {
            Some(app) => app.handle,
            None => {
                proof {
                    assert(animation@ =~= anim0 + v.writing_one(*t, new_wids@, now).1);
                }
                return;
            },
        };
        match self.windows.get_mut(wid) {
            Some(window) => {
                let start = window.frame_monotonic;
                let txid = TransactionId(window.last_sent_txid.0 + 1);
                window.last_sent_txid = txid;
                window.frame_monotonic = t.frame;
                let is_new = is_among(new_wids, wid);
                animation.add_window(&handle, wid, start, t.frame, is_new, txid);
            },
            None => {},
        }
        proof {
            assert(animation@ =~= anim0 + v.writing_one(*t, new_wids@, now).1);
        }
    }

    /// How many frames are written to the window.
    fn count_writes(&self, targets: &Vec<RoundedTarget>, new_wids: &Vec<WindowId>, now: u64, wid: WindowId) -> (n:
        usize)
        requires
            self.wf(),
            self@.windows.dom().contains(wid),
        ensures
            n == writes_to(self@.writing(targets@, new_wids@, now).1, wid).len(),
    {
        let ghost v = self@;
        let resizing = match self.resizing_window {
            Some(w) => w == wid,
            None => false,
        };
        let app_known = self.apps.contains(wid.pid);
        let mut last = match self.frame_attempts.get(wid) {
            Some(last) => Some(*last),
            None => None,
        };
        let mut n: usize = 0;
        let mut i: usize = 0;
        proof {
            reveal(Seq::filter);
            assert(targets@.take(0) =~= Seq::empty());
        }
        while i < targets.len()
            invariant
                n <= i <= targets.len(),
                v.windows.dom().contains(wid),
                resizing == (v.resizing_window == Some(wid)),
                app_known == v.apps.dom().contains(wid.pid),
                last == v.writing(targets@.take(i as int), new_wids@, now).0.last_attempt(wid),
                n == writes_to(v.writing(targets@.take(i as int), new_wids@, now).1, wid).len(),
            decreases targets.len() - i,
        {
            let t = targets[i];
            let ghost before = v.writing(targets@.take(i as int), new_wids@, now);
            proof {
                let long = targets@.take(i + 1);
                assert(long.drop_last() =~= targets@.take(i as int));
                assert(long.last() == t);
                lemma_writing_keeps(v, targets@.take(i as int), new_wids@, now);
                lemma_writing_one(before.0, t, new_wids@, now, wid);
                lemma_writes_add(before.1, before.0.writing_one(t, new_wids@, now).1, wid);
            }
            if t.wid == wid && !resizing && !t.same_as_current {
                let attempt = next_attempt(last, &t, now);
                last = Some(attempt);
                if attempt.count <= MAX_FRAME_ATTEMPTS && app_known {
                    n += 1;
                }
            }
            i += 1;
        }
        proof {
            lemma_take_all(targets@);
        }
        n
    }

    /// Whether every window has a transaction id left for each frame that is
    /// written to it.
    pub fn can_write(&self, targets: &Vec<RoundedTarget>, new_wids: &Vec<WindowId>, now: u64) -> (b: bool)
        requires
            self.wf(),
        ensures
            b == self@.can_number(targets@, new_wids@, now),
    {
        let ghost written = self@.writing(targets@, new_wids@, now).1;
        let wids = self.windows.keys();
        proof {
            self.windows.lemma_keys();
        }
        let mut i: usize = 0;
        while i < wids.len()
            invariant
                self.wf(),
                i <= wids.len(),
                wids@.to_set() == self@.windows.dom(),
                written == self@.writing(targets@, new_wids@, now).1,
                forall|k: int|
                    0 <= k < i ==> self@.windows[#[trigger] wids[k]].last_sent_txid.0 + writes_to(
                        written,
                        wids[k],
                    ).len() <= u32::MAX,
            decreases wids.len() - i,
        {
            let wid = wids[i];
            proof {
                assert(wids@.to_set().contains(wid));
            }
            let left = match self.windows.get(wid) {
                Some(window) => u32::MAX - window.last_sent_txid.0,
                None => u32::MAX,
            };
            let count = self.count_writes(targets, new_wids, now, wid);
            if (left as u64) < count as u64 {
                return false;
            }
            i += 1;
        }
        proof {
            assert forall|w: WindowId| #[trigger] self@.windows.dom().contains(w) implies self@.windows[w].last_sent_txid.0
                + writes_to(written, w).len() <= u32::MAX by {
                assert(wids@.to_set().contains(w));
                let k = choose|k: int| 0 <= k < wids.len() && wids@[k] == w;
                assert(wids[k] == w);
            }
        }
        true
    }

    /// Writes the frames that windows should have, and returns the animation
    /// that moves them there. `now` is the time in nanoseconds, and `new_wids`
    /// are the windows that take their final size at once.
    pub fn update_layout(&mut self, targets: &Vec<RoundedTarget>, new_wids: &Vec<WindowId>, now: u64) -> (animation:
        Animation)
        requires
            old(self).wf(),
            old(self)@.can_number(targets@, new_wids@, now),
        ensures
            final(self).wf(),
            final(self)@ == old(self)@.writing(targets@, new_wids@, now).0,
            animation@ == old(self)@.writing(targets@, new_wids@, now).1,
    {
        let ghost v = self@;
        let mut animation = Animation::new();
        let mut i: usize = 0;
        while i < targets.len()
            invariant
                self.wf(),
                v == old(self)@,
                v.can_number(targets@, new_wids@, now),
                i <= targets.len(),
                self@ == v.writing(targets@.take(i as int), new_wids@, now).0,
                animation@ == v.writing(targets@.take(i as int), new_wids@, now).1,
                forall|w: WindowId| #[trigger]
                    v.windows.dom().contains(w) ==> self@.windows[w].last_sent_txid.0 <= v.windows[w].last_sent_txid.0
                        + writes_to(animation@, w).len(),
            decreases targets.len() - i,
        {
            let ghost t = targets@[i as int];
            let ghost before = self@;
            let ghost written = animation@;
            let ghost one = before.writing_one(t, new_wids@, now);
            proof {
                let long = targets@.take(i + 1);
                assert(long.drop_last() =~= targets@.take(i as int));
                assert(long.last() == t);
                lemma_writing_keeps(v, targets@.take(i as int), new_wids@, now);
                lemma_writing_one(before, t, new_wids@, now, t.wid);
                lemma_writes_add(written, one.1, t.wid);
                lemma_writes_grow(v, targets@, new_wids@, now, t.wid, i + 1);
            }
            self.write_frame(&targets[i], new_wids, now, &mut animation);
            proof {
                assert forall|w: WindowId| #[trigger] v.windows.dom().contains(w) implies self@.windows[w].last_sent_txid.0
                    <= v.windows[w].last_sent_txid.0 + writes_to(animation@, w).len() by {
                    lemma_writing_one(before, t, new_wids@, now, w);
                    lemma_writes_add(written, one.1, w);
                }
            }
            i += 1;
        }
        proof {
            lemma_take_all(targets@);
        }
        animation
    }

    /// The message that starts an animation. Nothing is animated on top of what
    /// the user does with the mouse, or of a scroll animation.
    pub fn animation_message(&self, animation: Animation, skip_anim: bool, scrolling: bool) -> (message: Message)
        ensures
            message == (if skip_anim || !self@.settings.animate || scrolling {
                Message::SkipToEnd(animation)
            } else {
                Message::Replace(animation)
            }),
    {
        if skip_anim || !self.settings.animate || scrolling {
            Message::SkipToEnd(animation)
        } else {
            Message::Replace(animation)
        }
    }
}

/// The attempt to write the frame, counted with those before it.
fn next_attempt(last: Option<FrameAttempt>, t: &RoundedTarget, now: u64) -> (attempt: FrameAttempt)
    ensures
        attempt == attempt_after(last, *t, now),
{
    match last {
        Some(last) => if t.same_as_attempt && (now <= last.last || now - last.last <= FRAME_ATTEMPT_RESET) {
            FrameAttempt {
                target: last.target,
                count: if last.count == u32::MAX {
                    u32::MAX
                } else {
                    last.count + 1
                },
                last: now,
            }
        } else {
            FrameAttempt { target: t.frame, count: 1, last: now }
        },
        None => FrameAttempt { target: t.frame, count: 1, last: now },
    }
}

} // verus!
