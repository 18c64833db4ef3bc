//! Actions of the reactor that change the system outside the app threads.
//!
//! Everything that affects later decisions comes back to the reactor as a
//! recorded event.
use vstd::prelude::*;

use crate::events::{Event, SpaceMoveId};
use crate::ids::{Pid, WindowId, WindowServerId};
use crate::launch::{checked, validate_bundle_id, LaunchError};
use crate::ordered::Key;
use crate::scratchpad::PendingShowId;
use crate::space::{SpaceId, SpaceMoveError};
use crate::text::{before, comes_before, same_text, text_is_ordered, text_order_is_transitive};

verus! {

/// How long a scratchpad window may take to appear after its app is launched
/// before it is no longer shown automatically. In nanoseconds.
pub const SCRATCHPAD_SHOW_TIMEOUT: u64 = 30_000_000_000;

/// How long a moved window may take to appear on screen before it is shown
/// wherever it is. In nanoseconds.
pub const SPACE_MOVE_TIMEOUT: u64 = 1_000_000_000;

pub trait SystemActions {
    /// Starts the app of the scratchpad `name`, whose show is pending as
    /// `show`. [`Event::ScratchpadShowExpired`] follows when the launch fails
    /// or the timeout passes.
    fn launch_app(&mut self, name: &str, bundle_id: &str, show: PendingShowId) -> (r: Result<(), LaunchError>);

    /// Starts moving a window to a space. Its visible windows are checked
    /// again afterwards, and [`Event::ScratchpadMoveEnded`] follows after a
    /// timeout. On error nothing was started.
    fn move_window_to_space(
        &mut self,
        wid: WindowId,
        wsid: WindowServerId,
        space: SpaceId,
        id: SpaceMoveId,
    ) -> (r: Result<(), SpaceMoveError>);
}

/// Performs no actions. Checks the bundle id like a live system.
pub struct NoSystem;

impl SystemActions for NoSystem {
    fn launch_app(&mut self, name: &str, bundle_id: &str, show: PendingShowId) -> (r: Result<(), LaunchError>)
        ensures
            checked(bundle_id@, r),
    {
        validate_bundle_id(bundle_id)
    }

    fn move_window_to_space(
        &mut self,
        wid: WindowId,
        wsid: WindowServerId,
        space: SpaceId,
        id: SpaceMoveId,
    ) -> (r: Result<(), SpaceMoveError>)
        ensures
            r is Ok,
    {
        Ok(())
    }
}

/// What a delayed event is about.
#[derive(Debug, PartialEq, Eq)]
pub enum DelayKey {
    /// The show of a scratchpad, by its name.
    ScratchpadShow(String),
    /// The move of a window.
    SpaceMove(WindowId),
}

/// What a delayed event is about, as a value.
#[verifier::ext_equal]
pub enum DelayKeyView {
    ScratchpadShow(Seq<char>),
    SpaceMove(WindowId),
}

impl View for DelayKey {
    type V = DelayKeyView;

    open spec fn view(&self) -> DelayKeyView {
        match *self {
            DelayKey::ScratchpadShow(name) => DelayKeyView::ScratchpadShow(name@),
            DelayKey::SpaceMove(wid) => DelayKeyView::SpaceMove(wid),
        }
    }
}

impl DelayKeyView {
    /// Shows come before moves, shows in the order of their names and moves in
    /// the order of their windows.
    pub open spec fn precedes(self, other: DelayKeyView) -> bool {
        match (self, other) {
            (DelayKeyView::ScratchpadShow(a), DelayKeyView::ScratchpadShow(b)) => before(a, b),
            (DelayKeyView::ScratchpadShow(_), DelayKeyView::SpaceMove(_)) => true,
            (DelayKeyView::SpaceMove(_), DelayKeyView::ScratchpadShow(_)) => false,
            (DelayKeyView::SpaceMove(a), DelayKeyView::SpaceMove(b)) => a.rank() < b.rank(),
        }
    }
}

proof fn lemma_keys_are_ordered(a: DelayKeyView, b: DelayKeyView)
    ensures
        !(a.precedes(b) && b.precedes(a)),
        a == b || a.precedes(b) || b.precedes(a),
        a == b ==> !a.precedes(b),
{
    match (a, b) {
        (DelayKeyView::ScratchpadShow(x), DelayKeyView::ScratchpadShow(y)) => {
            text_is_ordered(x, y);
        },
        (DelayKeyView::SpaceMove(x), DelayKeyView::SpaceMove(y)) => {
            if x.rank() == y.rank() {
                WindowId::rank_is_injective(x, y);
            }
        },
        _ => {},
    }
}

proof fn lemma_key_order_is_transitive(a: DelayKeyView, b: DelayKeyView, c: DelayKeyView)
    requires
        a.precedes(b),
        b.precedes(c),
    ensures
        a.precedes(c),
{
    match (a, b, c) {
        (
            DelayKeyView::ScratchpadShow(x),
            DelayKeyView::ScratchpadShow(y),
            DelayKeyView::ScratchpadShow(z),
        ) => {
            text_order_is_transitive(x, y, z);
        },
        _ => {},
    }
}

impl DelayKey {
    fn is_before(&self, other: &DelayKey) -> (b: bool)
        ensures
            b == self@.precedes(other@),
    {
        match (self, other) {
            (DelayKey::ScratchpadShow(a), DelayKey::ScratchpadShow(b)) => comes_before(a.as_str(), b.as_str()),
            (DelayKey::ScratchpadShow(_), DelayKey::SpaceMove(_)) => true,
            (DelayKey::SpaceMove(_), DelayKey::ScratchpadShow(_)) => false,
            (DelayKey::SpaceMove(a), DelayKey::SpaceMove(b)) => a.rank_of() < b.rank_of(),
        }
    }

    fn is_same(&self, other: &DelayKey) -> (b: bool)
        ensures
            b == (self@ == other@),
    {
        match (self, other) {
            (DelayKey::ScratchpadShow(a), DelayKey::ScratchpadShow(b)) => same_text(a.as_str(), b.as_str()),
            (DelayKey::SpaceMove(a), DelayKey::SpaceMove(b)) => *a == *b,
            _ => false,
        }
    }
}

/// An event to send to the reactor after a delay.
#[derive(Debug)]
pub struct DelayedEvent {
    /// A later event with the same key replaces this one.
    pub key: DelayKey,
    /// In nanoseconds.
    pub delay: u64,
    pub event: Event,
}

/// What follows once a window is being moved.
#[derive(Debug)]
pub struct MoveStarted {
    /// The app whose visible windows are checked again.
    pub recheck: Pid,
    pub delayed: DelayedEvent,
}

/// The show of a scratchpad expires once its timeout passes, if its app could
/// be launched. `launched` is how that went.
pub fn launch_started(name: &str, show: PendingShowId, launched: Result<(), LaunchError>) -> (r: Result<
    DelayedEvent,
    LaunchError,
>)
    ensures
        launched matches Err(err) ==> r == Err::<DelayedEvent, LaunchError>(err),
        launched is Ok ==> {
            &&& r matches Ok(delayed)
            &&& delayed.key@ == DelayKeyView::ScratchpadShow(name@)
            &&& delayed.delay == SCRATCHPAD_SHOW_TIMEOUT
            &&& delayed.event == Event::ScratchpadShowExpired(show)
        },
{
    match launched {
        Ok(_) => Ok(
            DelayedEvent {
                key: DelayKey::ScratchpadShow(name.to_owned()),
                delay: SCRATCHPAD_SHOW_TIMEOUT,
                event: Event::ScratchpadShowExpired(show),
            },
        ),
        Err(err) => Err(err),
    }
}

/// The `open` of a scratchpad's app has finished. If it failed, the show has
/// expired at once.
pub fn launch_finished(show: PendingShowId, launched: bool) -> (event: Option<Event>)
    ensures
        event == (if launched {
            None
        } else {
            Some(Event::ScratchpadShowExpired(show))
        }),
{
    if launched {
        None
    } else {
        Some(Event::ScratchpadShowExpired(show))
    }
}

/// Whether the window may be moved. Its window server id comes from the app, so
/// it may name a window of another app; `owner` is the pid that owns the window
/// according to the window server.
pub fn may_move(wid: WindowId, owner: Option<Pid>) -> (r: Result<(), SpaceMoveError>)
    ensures
        r == (if owner == Some(wid.pid) {
            Ok::<(), SpaceMoveError>(())
        } else {
            Err(SpaceMoveError::NotOwned)
        }),
{
    match owner {
        Some(pid) => if pid == wid.pid {
            Ok(())
        } else {
            Err(SpaceMoveError::NotOwned)
        },
        None => Err(SpaceMoveError::NotOwned),
    }
}

/// A move that was started is followed by a check of the visible windows, and
/// ends after a timeout. `moved` is how starting it went.
pub fn move_started(wid: WindowId, id: SpaceMoveId, moved: Result<(), SpaceMoveError>) -> (r: Result<
    MoveStarted,
    SpaceMoveError,
>)
    ensures
        moved matches Err(err) ==> r == Err::<MoveStarted, SpaceMoveError>(err),
        moved is Ok ==> {
            &&& r matches Ok(started)
            &&& started.recheck == wid.pid
            &&& started.delayed.key@ == DelayKeyView::SpaceMove(wid)
            &&& started.delayed.delay == SPACE_MOVE_TIMEOUT
            &&& started.delayed.event == Event::ScratchpadMoveEnded(id)
        },
{
    match moved {
        Ok(_) => Ok(
            MoveStarted {
                recheck: wid.pid,
                delayed: DelayedEvent {
                    key: DelayKey::SpaceMove(wid),
                    delay: SPACE_MOVE_TIMEOUT,
                    event: Event::ScratchpadMoveEnded(id),
                },
            },
        ),
        Err(err) => Err(err),
    }
}

struct Entry {
    key: DelayKey,
    at: u64,
    event: Event,
}

/// A pending delayed event: what it is about, when it is due and the event.
pub struct EntryView {
    pub key: DelayKeyView,
    pub at: u64,
    pub event: Event,
}

/// The entries are those of the map, in the order of their keys.
pub open spec fn lists(entries: Seq<EntryView>, m: Map<DelayKeyView, (u64, Event)>) -> bool {
    &&& forall|i: int, j: int|
        0 <= i < j < entries.len() ==> (#[trigger] entries[i]).key.precedes((#[trigger] entries[j]).key)
    &&& forall|i: int|
        0 <= i < entries.len() ==> m.dom().contains((#[trigger] entries[i]).key) && m[entries[i].key] == (
            entries[i].at,
            entries[i].event,
        )
    &&& forall|k: DelayKeyView| #[trigger]
        m.dom().contains(k) ==> exists|i: int| 0 <= i < entries.len() && (#[trigger] entries[i]).key == k
}

/// The events that are due, in the order of the entries.
pub open spec fn due_events(entries: Seq<EntryView>, now: u64) -> Seq<Event> {
    entries.filter(|e: EntryView| e.at <= now).map_values(|e: EntryView| e.event)
}

/// The delayed events without those that are due.
pub open spec fn not_due(m: Map<DelayKeyView, (u64, Event)>, now: u64) -> Map<DelayKeyView, (u64, Event)> {
    m.remove_keys(m.dom().filter(|k: DelayKeyView| m[k].0 <= now))
}

/// Pending delayed events, at most one per key.
pub struct Deadlines {
    entries: Vec<Entry>,
}

impl View for Deadlines {
    type V = Map<DelayKeyView, (u64, Event)>;

    closed spec fn view(&self) -> Map<DelayKeyView, (u64, Event)> {
        Map::new(
            |k: DelayKeyView| exists|i: int| 0 <= i < self.entries.len() && (#[trigger] self.entries[i]).key@ == k,
            |k: DelayKeyView|
                {
                    let i = choose|i: int| 0 <= i < self.entries.len() && (#[trigger] self.entries[i]).key@ == k;
                    (self.entries[i].at, self.entries[i].event)
                },
        )
    }
}

impl Default for Deadlines {
    fn default() -> (d: Deadlines)
        ensures
            d.wf(),
            d@ == Map::<DelayKeyView, (u64, Event)>::empty(),
    {
        let d = Deadlines { entries: Vec::new() };
        proof {
            assert(d@ =~= Map::<DelayKeyView, (u64, Event)>::empty());
        }
        d
    }
}

impl Deadlines {
    /// The entries stand in the order of their keys.
    pub closed spec fn wf(&self) -> bool {
        forall|i: int, j: int|
            0 <= i < j < self.entries.len() ==> (#[trigger] self.entries[i]).key@.precedes(
                (#[trigger] self.entries[j]).key@,
            )
    }

    spec fn listed(&self) -> Seq<EntryView> {
        self.entries@.map_values(|e: Entry| EntryView { key: e.key@, at: e.at, event: e.event })
    }

    proof fn lemma_entry(&self, i: int)
        requires
            self.wf(),
            0 <= i < self.entries.len(),
        ensures
            self@.dom().contains(self.entries[i].key@),
            self@[self.entries[i].key@] == (self.entries[i].at, self.entries[i].event),
    {
        let k = self.entries[i].key@;
        let j = choose|j: int| 0 <= j < self.entries.len() && (#[trigger] self.entries[j]).key@ == k;
        lemma_keys_are_ordered(self.entries[i].key@, self.entries[j].key@);
        if i < j {
            assert(self.entries[i].key@.precedes(self.entries[j].key@));
        } else if j < i {
            assert(self.entries[j].key@.precedes(self.entries[i].key@));
        }
    }

    proof fn lemma_listed(&self)
        requires
            self.wf(),
        ensures
            lists(self.listed(), self@),
    {
        let s = self.listed();
        assert forall|i: int, j: int| 0 <= i < j < s.len() implies (#[trigger] s[i]).key.precedes(
            (#[trigger] s[j]).key,
        ) by {
            assert(self.entries[i].key@.precedes(self.entries[j].key@));
        }
        assert forall|i: int| 0 <= i < s.len() implies self@.dom().contains((#[trigger] s[i]).key)
            && self@[s[i].key] == (s[i].at, s[i].event) by {
            self.lemma_entry(i);
        }
        assert forall|k: DelayKeyView| #[trigger] self@.dom().contains(k) implies exists|i: int|
            0 <= i < s.len() && (#[trigger] s[i]).key == k by {
            let i = choose|i: int| 0 <= i < self.entries.len() && (#[trigger] self.entries[i]).key@ == k;
            assert(s[i].key == k);
        }
    }

    /// The number of entries whose key comes before `key`.
    fn position(&self, key: &DelayKey) -> (p: usize)
        requires
            self.wf(),
        ensures
            p <= self.entries.len(),
            forall|i: int| 0 <= i < p ==> (#[trigger] self.entries[i]).key@.precedes(key@),
            forall|i: int| p <= i < self.entries.len() ==> !(#[trigger] self.entries[i]).key@.precedes(key@),
    {
        let mut p: usize = 0;
        while p < self.entries.len() && self.entries[p].key.is_before(key)
            invariant
                p <= self.entries.len(),
                forall|i: int| 0 <= i < p ==> (#[trigger] self.entries[i]).key@.precedes(key@),
            decreases self.entries.len() - p,
        {
            p += 1;
        }
        proof {
            assert forall|i: int| p <= i < self.entries.len() implies !(#[trigger] self.entries[i]).key@.precedes(
                key@,
            ) by {
                if i > p && self.entries[i].key@.precedes(key@) {
                    let first = self.entries[p as int].key@;
                    assert(first.precedes(self.entries[i].key@));
                    lemma_key_order_is_transitive(first, self.entries[i].key@, key@);
                }
            }
        }
        p
    }

    /// Adds an event, in place of an earlier one with the same key.
    pub fn insert(&mut self, now: u64, delayed: DelayedEvent)
        requires
            old(self).wf(),
            now + delayed.delay <= u64::MAX,
        ensures
            final(self).wf(),
            final(self)@ == old(self)@.insert(delayed.key@, ((now + delayed.delay) as u64, delayed.event)),
    {
        let ghost key = delayed.key@;
        let at: u64 = now + delayed.delay;
        let p = self.position(&delayed.key);
        if p < self.entries.len() && self.entries[p].key.is_same(&delayed.key) {
            self.entries.remove(p);
            proof {
                self.lemma_removed(*old(self), p as int);
            }
        } else {
            proof {
                assert forall|k: DelayKeyView| self@.dom().contains(k) implies k != key by {
                    let i = choose|i: int| 0 <= i < self.entries.len() && (#[trigger] self.entries[i]).key@ == k;
                    lemma_keys_are_ordered(self.entries[i].key@, key);
                    if i > p {
                        assert(self.entries[p as int].key@.precedes(self.entries[i].key@));
                    }
                }
                assert(self@ =~= old(self)@.remove(key));
            }
        }
        let ghost gap = *self;
        proof {
            assert(gap@ == old(self)@.remove(key));
            assert forall|i: int| 0 <= i < p implies (#[trigger] gap.entries[i]).key@.precedes(key) by {
                assert(gap.entries[i] == old(self).entries[i]);
            }
            assert forall|i: int| p <= i < gap.entries.len() implies key.precedes((#[trigger] gap.entries[i]).key@) by {
                lemma_keys_are_ordered(gap.entries[i].key@, key);
                gap.lemma_entry(i);
                let i0 = if gap.entries.len() == old(self).entries.len() { i } else { i + 1 };
                assert(gap.entries[i] == old(self).entries[i0]);
                assert(!old(self).entries[i0].key@.precedes(key));
            }
        }
        self.entries.insert(p, Entry { key: delayed.key, at, event: delayed.event });
        proof {
            let b = *self;
            assert forall|i: int, j: int| 0 <= i < j < b.entries.len() implies (#[trigger] b.entries[i]).key@.precedes(
                (#[trigger] b.entries[j]).key@,
            ) by {
                let i0 = if i < p { i } else { i - 1 };
                let j0 = if j < p { j } else { j - 1 };
                assert(i != p ==> b.entries[i] == gap.entries[i0]);
                assert(j != p ==> b.entries[j] == gap.entries[j0]);
            }
            let m = old(self)@.insert(key, (at, delayed.event));
            b.lemma_entry(p as int);
            assert forall|x: DelayKeyView|
                #![trigger m.dom().contains(x)]
                #![trigger b@.dom().contains(x)]
                m.dom().contains(x) == b@.dom().contains(x) && (m.dom().contains(x) ==> m[x] == b@[x]) by {
                if m.dom().contains(x) && x != key {
                    assert(gap@.dom().contains(x));
                    let i = choose|i: int| 0 <= i < gap.entries.len() && (#[trigger] gap.entries[i]).key@ == x;
                    gap.lemma_entry(i);
                    let i1 = if i < p { i } else { i + 1 };
                    assert(b.entries[i1] == gap.entries[i]);
                    b.lemma_entry(i1);
                }
                if b@.dom().contains(x) && x != key {
                    let i = choose|i: int| 0 <= i < b.entries.len() && (#[trigger] b.entries[i]).key@ == x;
                    assert(i != p);
                    let i0 = if i < p { i } else { i - 1 };
                    assert(b.entries[i] == gap.entries[i0]);
                    gap.lemma_entry(i0);
                }
            }
            assert(m =~= b@);
        }
    }

    proof fn lemma_removed(&self, a: Deadlines, p: int)
        requires
            a.wf(),
            0 <= p < a.entries.len(),
            self.entries@ == a.entries@.remove(p),
        ensures
            self.wf(),
            self@ == a@.remove(a.entries[p].key@),
    {
        let b = *self;
        let key = a.entries[p].key@;
        assert forall|i: int, j: int| 0 <= i < j < b.entries.len() implies (#[trigger] b.entries[i]).key@.precedes(
            (#[trigger] b.entries[j]).key@,
        ) by {
            let i0 = if i < p { i } else { i + 1 };
            let j0 = if j < p { j } else { j + 1 };
            assert(b.entries[i] == a.entries[i0]);
            assert(b.entries[j] == a.entries[j0]);
        }
        let m = a@.remove(key);
        assert forall|x: DelayKeyView|
            #![trigger m.dom().contains(x)]
            #![trigger b@.dom().contains(x)]
            m.dom().contains(x) == b@.dom().contains(x) && (m.dom().contains(x) ==> m[x] == b@[x]) by {
            if m.dom().contains(x) {
                let i = choose|i: int| 0 <= i < a.entries.len() && (#[trigger] a.entries[i]).key@ == x;
                a.lemma_entry(i);
                assert(i != p);
                let i1 = if i < p { i } else { i - 1 };
                assert(b.entries[i1] == a.entries[i]);
                b.lemma_entry(i1);
            }
            if b@.dom().contains(x) {
                let i = choose|i: int| 0 <= i < b.entries.len() && (#[trigger] b.entries[i]).key@ == x;
                let i0 = if i < p { i } else { i + 1 };
                assert(b.entries[i] == a.entries[i0]);
                a.lemma_entry(i0);
                lemma_keys_are_ordered(a.entries[i0].key@, key);
                if i0 < p {
                    assert(a.entries[i0].key@.precedes(a.entries[p].key@));
                } else {
                    assert(a.entries[p].key@.precedes(a.entries[i0].key@));
                }
            }
        }
        assert(m =~= b@);
    }

    /// When the next event is due.
    pub fn next(&self) -> (at: Option<u64>)
        requires
            self.wf(),
        ensures
            at is None <==> self@ == Map::<DelayKeyView, (u64, Event)>::empty(),
            at matches Some(t) ==> {
                &&& exists|k: DelayKeyView| #[trigger] self@.dom().contains(k) && self@[k].0 == t
                &&& forall|k: DelayKeyView| #[trigger] self@.dom().contains(k) ==> t <= self@[k].0
            },
    {
        if self.entries.len() == 0 {
            proof {
                assert(self@ =~= Map::<DelayKeyView, (u64, Event)>::empty());
            }
            return None;
        }
        let mut least: u64 = self.entries[0].at;
        let ghost mut which: int = 0;
        let mut i: usize = 1;
        while i < self.entries.len()
            invariant
                self.wf(),
                1 <= i <= self.entries.len(),
                0 <= which < i,
                self.entries[which].at == least,
                forall|j: int| 0 <= j < i ==> least <= (#[trigger] self.entries[j]).at,
            decreases self.entries.len() - i,
        {
            if self.entries[i].at < least {
                least = self.entries[i].at;
                proof {
                    which = i as int;
                }
            }
            i += 1;
        }
        proof {
            self.lemma_entry(which);
            assert forall|k: DelayKeyView| #[trigger] self@.dom().contains(k) implies least <= self@[k].0 by {
                let j = choose|j: int| 0 <= j < self.entries.len() && (#[trigger] self.entries[j]).key@ == k;
                self.lemma_entry(j);
            }
        }
        Some(least)
    }

    /// Takes out the events that are due, in the order of their keys.
    pub fn take_due(&mut self, now: u64) -> (events: Vec<Event>)
        requires
            old(self).wf(),
        ensures
            final(self).wf(),
            final(self)@ == not_due(old(self)@, now),
            exists|entries: Seq<EntryView>| #[trigger]
                lists(entries, old(self)@) && events@ == due_events(entries, now),
    {
        let ghost all = self.listed();
        let ghost p = |e: EntryView| e.at <= now;
        let ghost event_of = |e: EntryView| e.event;
        let ghost m = self@;
        proof {
            self.lemma_listed();
            assert(all.take(0).filter(p) =~= Seq::empty()) by {
                reveal(Seq::filter);
            }
            assert(all.skip(0) =~= all);
        }
        let mut events: Vec<Event> = Vec::new();
        let mut i: usize = 0;
        let ghost mut done: int = 0;
        while i < self.entries.len()
            invariant
                self.wf(),
                p == (|e: EntryView| e.at <= now),
                event_of == (|e: EntryView| e.event),
                lists(all, m),
                i <= self.entries.len(),
                0 <= done <= all.len(),
                self.listed().skip(i as int) == all.skip(done),
                events@ == all.take(done).filter(p).map_values(event_of),
                forall|k: int| 0 <= k < i ==> (#[trigger] self.entries[k]).at > now,
                forall|k: DelayKeyView| #[trigger]
                    self@.dom().contains(k) ==> m.dom().contains(k) && self@[k] == m[k],
                forall|k: DelayKeyView| #[trigger]
                    m.dom().contains(k) && m[k].0 > now ==> self@.dom().contains(k),
            decreases self.entries.len() - i,
        {
            let ghost before = *self;
            proof {
                assert(self.listed().skip(i as int).len() == self.entries.len() - i);
                assert(all.skip(done).len() == all.len() - done);
                assert(self.listed().skip(i as int)[0] == all.skip(done)[0]);
                assert(self.listed()[i as int] == all[done]);
                assert(all[done].at == self.entries[i as int].at);
                assert(all[done].event == self.entries[i as int].event);
                crate::sequences::lemma_filter_step(all, p, done);
                self.lemma_entry(i as int);
            }
            let ghost passed = all.take(done).filter(p);
            if self.entries[i].at <= now {
                let e = self.entries.remove(i);
                proof {
                    self.lemma_removed(before, i as int);
                    assert(self.listed().skip(i as int) =~= before.listed().skip(i as int).skip(1));
                    assert(passed.push(all[done]).map_values(event_of) =~= passed.map_values(event_of).push(
                        all[done].event,
                    ));
                }
                events.push(e.event);
            } else {
                proof {
                    assert(self.listed().skip(i + 1) =~= before.listed().skip(i as int).skip(1));
                }
                i += 1;
            }
            proof {
                assert(all.skip(done).skip(1) =~= all.skip(done + 1));
                done = done + 1;
            }
        }
        proof {
            assert(all.skip(done).len() == 0);
            assert(all.take(done) =~= all);
            assert forall|k: DelayKeyView|
                #![trigger self@.dom().contains(k)]
                #![trigger not_due(m, now).dom().contains(k)]
                self@.dom().contains(k) == not_due(m, now).dom().contains(k) by {
                if self@.dom().contains(k) {
                    let j = choose|j: int| 0 <= j < self.entries.len() && (#[trigger] self.entries[j]).key@ == k;
                    self.lemma_entry(j);
                    assert(self.entries[j].at > now);
                    assert(m.dom().contains(k));
                }
            }
            assert(self@ =~= not_due(m, now));
            assert(lists(all, m) && events@ == due_events(all, now));
        }
        events
    }
}

// ---- Laws ----

/// A later event for a key replaces an earlier one, whichever is due first:
/// there is one deadline per key.
pub proof fn later_event_replaces_an_earlier_one(
    m: Map<DelayKeyView, (u64, Event)>,
    key: DelayKeyView,
    first: (u64, Event),
    second: (u64, Event),
)
    ensures
        m.insert(key, first).insert(key, second) == m.insert(key, second),
{
    assert(m.insert(key, first).insert(key, second) =~= m.insert(key, second));
}

/// Events about different things do not replace each other.
pub proof fn other_keys_are_kept(
    m: Map<DelayKeyView, (u64, Event)>,
    key: DelayKeyView,
    other: DelayKeyView,
    entry: (u64, Event),
)
    requires
        m.dom().contains(other),
        other != key,
    ensures
        m.insert(key, entry).dom().contains(other),
        m.insert(key, entry)[other] == m[other],
{
}

/// Once the due events are taken, nothing is due, and what was not due is kept.
pub proof fn nothing_due_is_left(m: Map<DelayKeyView, (u64, Event)>, now: u64)
    ensures
        forall|k: DelayKeyView| #[trigger] not_due(m, now).dom().contains(k) ==> not_due(m, now)[k].0 > now,
        forall|k: DelayKeyView| #[trigger]
            m.dom().contains(k) && m[k].0 > now ==> not_due(m, now).dom().contains(k) && not_due(m, now)[k] == m[k],
        not_due(not_due(m, now), now) == not_due(m, now),
{
    assert(not_due(not_due(m, now), now) =~= not_due(m, now));
}

/// The delayed events have one order.
pub proof fn listing_is_unique(a: Seq<EntryView>, b: Seq<EntryView>, m: Map<DelayKeyView, (u64, Event)>)
    requires
        lists(a, m),
        lists(b, m),
    ensures
        a == b,
{
    lemma_same_prefix(a, b, m, a.len() as int);
    if a.len() < b.len() {
        let k = b[a.len() as int].key;
        assert(m.dom().contains(k));
        let i = choose|i: int| 0 <= i < a.len() && (#[trigger] a[i]).key == k;
        assert(b[i].key.precedes(b[a.len() as int].key));
        lemma_keys_are_ordered(k, k);
    }
    assert(a =~= b);
}

/// The first `n` entries of two listings are the same.
proof fn lemma_same_prefix(a: Seq<EntryView>, b: Seq<EntryView>, m: Map<DelayKeyView, (u64, Event)>, n: int)
    requires
        lists(a, m),
        lists(b, m),
        0 <= n <= a.len(),
    ensures
        n <= b.len(),
        forall|i: int| 0 <= i < n ==> a[i] == b[i],
    decreases n,
{
    if n > 0 {
        lemma_same_prefix(a, b, m, n - 1);
        let i = n - 1;
        let ka = a[i].key;
        assert(m.dom().contains(ka));
        let j = choose|j: int| 0 <= j < b.len() && (#[trigger] b[j]).key == ka;
        lemma_keys_are_ordered(ka, ka);
        if j < i {
            assert(a[j].key.precedes(a[i].key));
        }
        if j > i {
            // An entry of b before it would have to come before it in a too.
            let kb = b[i].key;
            assert(kb.precedes(ka));
            assert(m.dom().contains(kb));
            let l = choose|l: int| 0 <= l < a.len() && (#[trigger] a[l]).key == kb;
            lemma_keys_are_ordered(ka, kb);
            if l > i {
                assert(a[i].key.precedes(a[l].key));
            } else if l < i {
                assert(b[l].key.precedes(b[i].key));
                lemma_keys_are_ordered(kb, kb);
            } else {
                lemma_keys_are_ordered(ka, kb);
            }
        }
        assert(j == i);
        assert(a[i] == b[i]);
    }
}

/// Shows are listed before moves, shows by their names and moves by their
/// windows.
pub proof fn shows_are_listed_before_moves(a: Seq<char>, b: Seq<char>, x: WindowId, y: WindowId)
    ensures
        DelayKeyView::ScratchpadShow(a).precedes(DelayKeyView::SpaceMove(x)),
        !DelayKeyView::SpaceMove(x).precedes(DelayKeyView::ScratchpadShow(a)),
        DelayKeyView::ScratchpadShow(a).precedes(DelayKeyView::ScratchpadShow(b)) <==> before(a, b),
        DelayKeyView::SpaceMove(x).precedes(DelayKeyView::SpaceMove(y)) <==> x.pid < y.pid || (x.pid == y.pid && x.idx
            < y.idx),
{
}

/// The events whose time has come are given out, those of the keys that come
/// first first: every one of them, and no other.
pub proof fn due_events_are_given_out_in_order(entries: Seq<EntryView>, now: u64, i: int, j: int)
    requires
        0 <= i < j < entries.len(),
    ensures
        ({
            let out = due_events(entries, now);
            &&& forall|e: Event| out.contains(e) ==> exists|k: int|
                0 <= k < entries.len() && (#[trigger] entries[k]).at <= now && entries[k].event == e
            &&& entries[i].at <= now && entries[j].at <= now ==> exists|k: int, l: int|
                0 <= k < l < out.len() && #[trigger] out[k] == entries[i].event && #[trigger] out[l]
                    == entries[j].event
        }),
{
    let p = |e: EntryView| e.at <= now;
    let due = entries.filter(p);
    let out = due_events(entries, now);
    assert forall|e: Event| out.contains(e) implies exists|k: int|
        0 <= k < entries.len() && (#[trigger] entries[k]).at <= now && entries[k].event == e by {
        let k = choose|k: int| 0 <= k < out.len() && out[k] == e;
        assert(due.contains(due[k]));
        crate::sequences::lemma_filter_from(entries, p, due[k]);
        let m = choose|m: int| 0 <= m < entries.len() && entries[m] == due[k];
        assert(entries[m].event == e);
    }
    if entries[i].at <= now && entries[j].at <= now {
        let part = entries.take(j).filter(p);
        let more = entries.take(j + 1).filter(p);
        crate::sequences::lemma_filter_step(entries, p, j);
        crate::sequences::lemma_filter_prefix(entries, p, j + 1);
        assert(entries.take(j)[i] == entries[i]);
        entries.take(j).lemma_filter_contains(p, i);
        let k = choose|k: int| 0 <= k < part.len() && part[k] == entries[i];
        let l = part.len() as int;
        assert(more[k] == entries[i] && more[l] == entries[j]);
        assert(due.take(more.len() as int)[k] == more[k]);
        assert(due.take(more.len() as int)[l] == more[l]);
        assert(out[k] == entries[i].event && out[l] == entries[j].event);
    }
}

/// An event whose time has come is given out.
pub proof fn due_event_is_given_out(entries: Seq<EntryView>, now: u64, i: int)
    requires
        0 <= i < entries.len(),
        entries[i].at <= now,
    ensures
        due_events(entries, now).contains(entries[i].event),
{
    let p = |e: EntryView| e.at <= now;
    let due = entries.filter(p);
    entries.lemma_filter_contains(p, i);
    let k = choose|k: int| 0 <= k < due.len() && due[k] == entries[i];
    assert(due_events(entries, now)[k] == entries[i].event);
}

} // verus!
