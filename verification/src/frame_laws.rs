//! Laws about which frames are written to windows.
use vstd::prelude::*;

use crate::animation::AnimatedWindow;
use crate::ids::WindowId;
use crate::ordered::{in_order, lemma_can_be_ordered, Key};
use crate::reactions::{lemma_writes_add, lemma_writing_keeps, lemma_writing_one, writes_to};
use crate::reactor_model::{laid_out, ReactorView, RoundedTarget, Target, WindowState};

verus! {

/// The same frame is wanted again, within two seconds of the last attempt to
/// write it.
pub open spec fn tries_again(v: ReactorView, t: RoundedTarget, now: u64) -> bool {
    &&& v.frame_attempts.dom().contains(t.wid)
    &&& t.same_as_attempt
    &&& now - v.frame_attempts[t.wid].last <= 2_000_000_000
}

/// The window is to get another frame: it is known, the user is not resizing
/// it, and it is not at the frame yet.
pub open spec fn should_move(v: ReactorView, t: RoundedTarget) -> bool {
    v.windows.dom().contains(t.wid) && v.resizing_window != Some(t.wid) && !t.same_as_current
}

/// A frame is written to a window that should move, unless its app is not known
/// or the frame was tried five times in a row before. The animated window
/// starts at the frame that it was last known at and ends at the target. It is
/// that of the target, goes to the handle of its app under the next transaction,
/// and takes its size at once exactly if it is among the new ones.
pub proof fn written_window_moves_from_where_it_was(
    v: ReactorView,
    t: RoundedTarget,
    new_wids: Seq<WindowId>,
    now: u64,
)
    requires
        v.windows[t.wid].last_sent_txid.0 < u32::MAX,
    ensures
        ({
            let written = v.writing_one(t, new_wids, now).1;
            let given_up = tries_again(v, t, now) && v.frame_attempts[t.wid].count >= 5;
            &&& written.len() <= 1
            &&& written.len() == 1 <==> should_move(v, t) && v.apps.dom().contains(t.wid.pid) && !given_up
            &&& written.len() == 1 ==> {
                &&& written[0].wid == t.wid
                &&& written[0].start == v.windows[t.wid].frame_monotonic
                &&& written[0].finish == t.frame
                &&& written[0].handle == v.apps[t.wid.pid].handle
                &&& written[0].is_focus <==> new_wids.contains(t.wid)
                &&& written[0].txid.0 == v.windows[t.wid].last_sent_txid.0 + 1
            }
        }),
{
}

/// Writing a frame changes the frame and the transaction of that window, and
/// nothing else that is known of it or of the others. A frame that is not
/// written changes no window.
pub proof fn writing_changes_only_the_window(
    v: ReactorView,
    t: RoundedTarget,
    new_wids: Seq<WindowId>,
    now: u64,
    other: WindowId,
)
    requires
        v.windows[t.wid].last_sent_txid.0 < u32::MAX,
    ensures
        ({
            let (after, written) = v.writing_one(t, new_wids, now);
            &&& after == (ReactorView { windows: after.windows, frame_attempts: after.frame_attempts, ..v })
            &&& after.windows.dom() == v.windows.dom()
            &&& other != t.wid ==> after.windows[other] == v.windows[other]
            &&& other != t.wid ==> after.frame_attempts.dom().contains(other)
                == v.frame_attempts.dom().contains(other) && after.frame_attempts[other] == v.frame_attempts[other]
            &&& written.len() == 0 ==> after.windows == v.windows
            &&& written.len() == 1 ==> after.windows[t.wid] == (WindowState {
                frame_monotonic: t.frame,
                last_sent_txid: written[0].txid,
                ..v.windows[t.wid]
            })
        }),
{
    let after = v.writing_one(t, new_wids, now).0;
    assert(after.windows.dom() =~= v.windows.dom());
}

/// Every attempt on a window that should move is counted, at its time. Another
/// frame, or one after a pause, is the first attempt of its own; otherwise it
/// is one more of the same frame.
pub proof fn attempts_are_counted(v: ReactorView, t: RoundedTarget, new_wids: Seq<WindowId>, now: u64)
    ensures
        ({
            let after = v.writing_one(t, new_wids, now).0;
            let was = v.frame_attempts[t.wid];
            let is = after.frame_attempts[t.wid];
            &&& should_move(v, t) ==> {
                &&& after.frame_attempts.dom().contains(t.wid)
                &&& is.last == now
                &&& !tries_again(v, t, now) ==> is.count == 1 && is.target == t.frame
                &&& tries_again(v, t, now) ==> is.target == was.target
                &&& tries_again(v, t, now) && was.count < u32::MAX ==> is.count == was.count + 1
                &&& tries_again(v, t, now) && was.count == u32::MAX ==> is.count == u32::MAX
            }
            &&& !should_move(v, t) ==> after.frame_attempts == v.frame_attempts
        }),
{
}

/// What is written to a window in one layout forms a chain: the first write
/// starts at the frame that the window was last known at and each later one
/// where the one before it ends, under consecutive transactions. The window is
/// then at the end of the chain.
pub open spec fn forms_a_chain(
    before: ReactorView,
    after: ReactorView,
    new_wids: Seq<WindowId>,
    wid: WindowId,
    writes: Seq<AnimatedWindow>,
) -> bool {
    let was = before.windows[wid];
    &&& forall|i: int|
        0 <= i < writes.len() ==> {
            let w = #[trigger] writes[i];
            &&& w.wid == wid
            &&& i == 0 ==> w.start == was.frame_monotonic
            &&& i > 0 ==> w.start == writes[i - 1].finish
            &&& w.txid.0 == was.last_sent_txid.0 + i + 1
            &&& before.apps.dom().contains(wid.pid)
            &&& w.handle == before.apps[wid.pid].handle
            &&& w.is_focus <==> new_wids.contains(wid)
        }
    &&& writes.len() == 0 ==> after.windows[wid] == was
    &&& writes.len() > 0 ==> after.windows[wid] == (WindowState {
        frame_monotonic: writes.last().finish,
        last_sent_txid: writes.last().txid,
        ..was
    })
}

/// The writes to each window form a chain that starts where it was.
pub proof fn writes_to_a_window_form_a_chain(
    v: ReactorView,
    targets: Seq<RoundedTarget>,
    new_wids: Seq<WindowId>,
    now: u64,
    wid: WindowId,
)
    requires
        v.windows.dom().contains(wid),
        v.windows[wid].last_sent_txid.0 + writes_to(v.writing(targets, new_wids, now).1, wid).len() <= u32::MAX,
    ensures
        forms_a_chain(
            v,
            v.writing(targets, new_wids, now).0,
            new_wids,
            wid,
            writes_to(v.writing(targets, new_wids, now).1, wid),
        ),
    decreases targets.len(),
{
    let all = v.writing(targets, new_wids, now);
    if targets.len() == 0 {
        reveal(Seq::filter);
        assert(writes_to(all.1, wid) =~= Seq::empty());
    } else {
        let rest = targets.drop_last();
        let t = targets.last();
        let before = v.writing(rest, new_wids, now);
        let one = before.0.writing_one(t, new_wids, now);
        lemma_writing_keeps(v, rest, new_wids, now);
        lemma_writing_one(before.0, t, new_wids, now, wid);
        lemma_writes_add(before.1, one.1, wid);
        let early = writes_to(before.1, wid);
        let late = writes_to(one.1, wid);
        assert(writes_to(all.1, wid) == early + late);
        writes_to_a_window_form_a_chain(v, rest, new_wids, now, wid);
        let writes = early + late;
        if late.len() == 0 {
            assert(writes =~= early);
        } else {
            assert(late == one.1);
            assert(late.len() == 1);
            assert(writes.last() == late[0]);
            assert forall|i: int| 0 <= i < writes.len() implies {
                let w = #[trigger] writes[i];
                &&& w.wid == wid
                &&& i == 0 ==> w.start == v.windows[wid].frame_monotonic
                &&& i > 0 ==> w.start == writes[i - 1].finish
                &&& w.txid.0 == v.windows[wid].last_sent_txid.0 + i + 1
                &&& v.apps.dom().contains(wid.pid)
                &&& w.handle == v.apps[wid.pid].handle
                &&& w.is_focus <==> new_wids.contains(wid)
            } by {
                if i < early.len() {
                    assert(writes[i] == early[i]);
                } else {
                    assert(writes[i] == late[0]);
                    if i > 0 {
                        assert(writes[i - 1] == early[i - 1]);
                    }
                }
            }
        }
    }
}

/// The writes are those of targets, in the order of the targets.
pub open spec fn in_order_of(written: Seq<AnimatedWindow>, targets: Seq<RoundedTarget>, at: Seq<int>) -> bool {
    &&& at.len() == written.len()
    &&& forall|k: int|
        0 <= k < at.len() ==> 0 <= #[trigger] at[k] < targets.len() && written[k].wid == targets[at[k]].wid
            && written[k].finish == targets[at[k]].frame
    &&& forall|k: int, l: int| 0 <= k < l < at.len() ==> #[trigger] at[k] < #[trigger] at[l]
}

/// Each window is animated to the frame of a target of its own, and the windows
/// stand in the order of their targets.
pub proof fn writes_follow_the_targets(
    v: ReactorView,
    targets: Seq<RoundedTarget>,
    new_wids: Seq<WindowId>,
    now: u64,
)
    ensures
        exists|at: Seq<int>| in_order_of(v.writing(targets, new_wids, now).1, targets, at),
    decreases targets.len(),
{
    let all = v.writing(targets, new_wids, now).1;
    if targets.len() == 0 {
        assert(in_order_of(all, targets, Seq::<int>::empty()));
    } else {
        let rest = targets.drop_last();
        writes_follow_the_targets(v, rest, new_wids, now);
        let before = v.writing(rest, new_wids, now);
        let one = before.0.writing_one(targets.last(), new_wids, now).1;
        let at = choose|at: Seq<int>| in_order_of(before.1, rest, at);
        if one.len() == 0 {
            assert(all =~= before.1);
            assert(in_order_of(all, targets, at));
        } else {
            let longer = at.push(targets.len() - 1);
            assert(all =~= before.1.push(one[0]));
            assert(in_order_of(all, targets, longer));
        }
    }
}

// ---- Targets ----

/// The last target of the window is at `i`.
pub open spec fn last_for(laid: Seq<Target>, wid: WindowId, i: int) -> bool {
    &&& 0 <= i < laid.len()
    &&& laid[i].wid == wid
    &&& forall|j: int| i < j < laid.len() ==> (#[trigger] laid[j]).wid != wid
}

/// Every window with a frame of the layout or one that takes its place gets one
/// target, in the order of the windows.
pub proof fn every_window_has_one_target(v: ReactorView, laid: Seq<Target>, wid: WindowId)
    requires
        v.pending_frame_overrides.dom().finite(),
    ensures
        ({
            let targets = v.targets(laid);
            &&& (exists|i: int| 0 <= i < targets.len() && (#[trigger] targets[i]).wid == wid) <==> (
            v.pending_frame_overrides.dom().contains(wid) || exists|i: int|
                0 <= i < laid.len() && (#[trigger] laid[i]).wid == wid)
            &&& forall|i: int, j: int|
                0 <= i < j < targets.len() ==> (#[trigger] targets[i]).wid.rank() < (#[trigger] targets[j]).wid.rank()
        }),
{
    let wanted = v.wanted(laid);
    lemma_laid_out(laid, wid);
    lemma_wanted_finite(v, laid);
    lemma_can_be_ordered(wanted.dom());
    let wids = in_order(wanted.dom());
    let targets = v.targets(laid);
    assert(wids.to_set().contains(wid) == wids.contains(wid));
    assert(wanted.dom().contains(wid) == (v.pending_frame_overrides.dom().contains(wid) || laid_out(
        laid,
    ).dom().contains(wid)));
    if exists|i: int| 0 <= i < targets.len() && (#[trigger] targets[i]).wid == wid {
        let i = choose|i: int| 0 <= i < targets.len() && (#[trigger] targets[i]).wid == wid;
        assert(wids[i] == wid);
    }
    if wids.contains(wid) {
        let i = choose|i: int| 0 <= i < wids.len() && wids[i] == wid;
        assert(targets[i].wid == wid);
    }
    if exists|i: int| 0 <= i < laid.len() && (#[trigger] laid[i]).wid == wid {
        let i = choose|i: int| 0 <= i < laid.len() && (#[trigger] laid[i]).wid == wid;
        assert(laid[i].wid == wid);
    }
}

/// A frame that takes the place of the layout's is the target of its window, in
/// the scale of the best screen of that frame, or unscaled if it has none. A
/// window without one has the last frame that the layout gave it, in its scale.
pub proof fn target_is_the_override_or_the_last_frame(v: ReactorView, laid: Seq<Target>, k: int, i: int)
    requires
        v.pending_frame_overrides.dom().finite(),
        0 <= k < v.targets(laid).len(),
        last_for(laid, v.targets(laid)[k].wid, i) || v.pending_frame_overrides.dom().contains(
            v.targets(laid)[k].wid,
        ),
    ensures
        ({
            let t = v.targets(laid)[k];
            let overrides = v.pending_frame_overrides;
            &&& overrides.dom().contains(t.wid) ==> {
                &&& t.frame == overrides[t.wid]
                &&& v.best_screen(t.frame) matches Some(s) ==> t.scale_factor == v.screens[s].scale_factor
                &&& v.best_screen(t.frame) is None ==> t.scale_factor.bits == 0x3FF0_0000_0000_0000
            }
            &&& !overrides.dom().contains(t.wid) ==> t.frame == laid[i].frame && t.scale_factor
                == laid[i].scale_factor
        }),
{
    let t = v.targets(laid)[k];
    if !v.pending_frame_overrides.dom().contains(t.wid) {
        lemma_laid_out_last(laid, t.wid, i);
    }
}

proof fn lemma_wanted_finite(v: ReactorView, laid: Seq<Target>)
    requires
        v.pending_frame_overrides.dom().finite(),
    ensures
        v.wanted(laid).dom().finite(),
{
    lemma_laid_out_finite(laid);
    assert(v.wanted(laid).dom() =~= laid_out(laid).dom().union(v.pending_frame_overrides.dom()));
}

proof fn lemma_laid_out_finite(laid: Seq<Target>)
    ensures
        laid_out(laid).dom().finite(),
    decreases laid.len(),
{
    if laid.len() > 0 {
        lemma_laid_out_finite(laid.drop_last());
    }
}

proof fn lemma_laid_out(laid: Seq<Target>, wid: WindowId)
    ensures
        laid_out(laid).dom().contains(wid) <==> exists|i: int| 0 <= i < laid.len() && (#[trigger] laid[i]).wid == wid,
    decreases laid.len(),
{
    if laid.len() > 0 {
        let rest = laid.drop_last();
        lemma_laid_out(rest, wid);
        if exists|i: int| 0 <= i < rest.len() && (#[trigger] rest[i]).wid == wid {
            let i = choose|i: int| 0 <= i < rest.len() && (#[trigger] rest[i]).wid == wid;
            assert(laid[i].wid == wid);
        }
        if exists|i: int| 0 <= i < laid.len() && (#[trigger] laid[i]).wid == wid {
            let i = choose|i: int| 0 <= i < laid.len() && (#[trigger] laid[i]).wid == wid;
            if i < rest.len() {
                assert(rest[i].wid == wid);
            }
        }
        assert(laid[laid.len() - 1] == laid.last());
    }
}

proof fn lemma_laid_out_last(laid: Seq<Target>, wid: WindowId, i: int)
    requires
        last_for(laid, wid, i),
    ensures
        laid_out(laid).dom().contains(wid),
        laid_out(laid)[wid] == (laid[i].frame, laid[i].scale_factor),
    decreases laid.len(),
{
    if i < laid.len() - 1 {
        let rest = laid.drop_last();
        assert(laid[laid.len() - 1].wid != wid);
        assert forall|j: int| i < j < rest.len() implies (#[trigger] rest[j]).wid != wid by {
            assert(laid[j].wid != wid);
        }
        lemma_laid_out_last(rest, wid, i);
    }
}

/// Frames can be written exactly if the transactions of every known window go
/// far enough for what is written to it.
pub proof fn transactions_must_not_run_out(
    v: ReactorView,
    targets: Seq<RoundedTarget>,
    new_wids: Seq<WindowId>,
    now: u64,
)
    ensures
        v.can_number(targets, new_wids, now) <==> forall|wid: WindowId| #[trigger]
            v.windows.dom().contains(wid) ==> v.windows[wid].last_sent_txid.0 + v.writing(
                targets,
                new_wids,
                now,
            ).1.filter(|w: AnimatedWindow| w.wid == wid).len() <= 0xFFFF_FFFF,
{
    if v.can_number(targets, new_wids, now) {
        assert forall|wid: WindowId| #[trigger] v.windows.dom().contains(wid) implies v.windows[wid].last_sent_txid.0
            + v.writing(targets, new_wids, now).1.filter(|w: AnimatedWindow| w.wid == wid).len() <= 0xFFFF_FFFF by {
            assert(writes_to(v.writing(targets, new_wids, now).1, wid) == v.writing(targets, new_wids, now).1.filter(
                |w: AnimatedWindow| w.wid == wid,
            ));
        }
    } else {
        let wid = choose|wid: WindowId| #[trigger]
            v.windows.dom().contains(wid) && v.windows[wid].last_sent_txid.0 + writes_to(
                v.writing(targets, new_wids, now).1,
                wid,
            ).len() > u32::MAX;
        assert(v.windows.dom().contains(wid));
    }
}

} // verus!
