//! Scratchpad windows: named floating windows that are shown and hidden on
//! demand.
use vstd::prelude::*;

use crate::ids::{Pid, WindowId};
use crate::names::{tested, NameMap};
use crate::number::{Number, ONE_BITS};
use crate::text::{equal_but_for_case, same_but_for_case, same_text};

verus! {

/// The bits of 0.05, the least width and height of a scratchpad window.
pub const MIN_SIZE_BITS: u64 = 0x3FA9_9999_9999_999A;

/// The bits of 0.1 and 0.8, which make up the frame of a window that has none.
pub const DEFAULT_ORIGIN_BITS: u64 = 0x3FB9_9999_9999_999A;

pub const DEFAULT_SIZE_BITS: u64 = 0x3FE9_9999_9999_999A;

/// A rectangle expressed as fractions of a screen's size.
#[derive(Clone, Copy, Debug, PartialEq, Eq, Structural)]
pub struct FractionalRect {
    pub x: Number,
    pub y: Number,
    pub width: Number,
    pub height: Number,
}

/// The number in the range nearest to `v`. What is not a number is the lower
/// bound.
pub open spec fn clamped(v: Number, lo: Number, hi: Number) -> Number {
    if v.nan() {
        lo
    } else if v.less(lo) {
        lo
    } else if hi.less(v) {
        hi
    } else {
        v
    }
}

/// The range is not empty.
pub open spec fn is_range(lo: Number, hi: Number) -> bool {
    lo.at_most(hi)
}

fn clamp(v: Number, lo: Number, hi: Number) -> (c: Number)
    requires
        is_range(lo, hi),
    ensures
        c == clamped(v, lo, hi),
{
    if v.is_nan() {
        lo
    } else if v.is_less(lo) {
        lo
    } else if hi.is_less(v) {
        hi
    } else {
        v
    }
}

/// The width or height of a scratchpad window: at least 0.05 and at most 1.
pub open spec fn valid_extent(v: Number) -> Number {
    clamped(v, Number { bits: MIN_SIZE_BITS }, Number { bits: ONE_BITS })
}

impl FractionalRect {
    /// The rectangle with valid values, where an origin goes up to `max_x` and
    /// `max_y`.
    pub open spec fn valid(self, max_x: Number, max_y: Number) -> FractionalRect {
        let zero = Number { bits: 0 };
        FractionalRect {
            x: clamped(self.x, zero, max_x),
            y: clamped(self.y, zero, max_y),
            width: valid_extent(self.width),
            height: valid_extent(self.height),
        }
    }

    /// x=0.1, y=0.1, width=0.8, height=0.8, used when no frame is set.
    pub open spec fn usual() -> FractionalRect {
        FractionalRect {
            x: Number { bits: DEFAULT_ORIGIN_BITS },
            y: Number { bits: DEFAULT_ORIGIN_BITS },
            width: Number { bits: DEFAULT_SIZE_BITS },
            height: Number { bits: DEFAULT_SIZE_BITS },
        }
    }

    /// The frame of a scratchpad window that has none.
    pub fn default_frame() -> (r: FractionalRect)
        ensures
            r == FractionalRect::usual(),
    {
        FractionalRect {
            x: Number { bits: DEFAULT_ORIGIN_BITS },
            y: Number { bits: DEFAULT_ORIGIN_BITS },
            width: Number { bits: DEFAULT_SIZE_BITS },
            height: Number { bits: DEFAULT_SIZE_BITS },
        }
    }

    /// The width, clamped to at least 0.05 and at most 1.
    pub fn valid_width(self) -> (w: Number)
        ensures
            w == valid_extent(self.width),
    {
        clamp(self.width, Number { bits: MIN_SIZE_BITS }, Number { bits: ONE_BITS })
    }

    /// The height, clamped to at least 0.05 and at most 1.
    pub fn valid_height(self) -> (h: Number)
        ensures
            h == valid_extent(self.height),
    {
        clamp(self.height, Number { bits: MIN_SIZE_BITS }, Number { bits: ONE_BITS })
    }

    /// Clamps values to [0, 1] and width and height to at least 0.05, and keeps
    /// the origin at most at `max_x` and `max_y`: what the valid width and
    /// height leave of 1. NaN is treated as the lower bound.
    pub fn validated(self, max_x: Number, max_y: Number) -> (r: FractionalRect)
        requires
            is_range(Number { bits: 0 }, max_x),
            is_range(Number { bits: 0 }, max_y),
        ensures
            r == self.valid(max_x, max_y),
    {
        let zero = Number { bits: 0 };
        FractionalRect {
            x: clamp(self.x, zero, max_x),
            y: clamp(self.y, zero, max_y),
            width: self.valid_width(),
            height: self.valid_height(),
        }
    }
}

/// A valid rectangle stays as it is when it is made valid again, and its values
/// are in their ranges. `rest` is what an extent leaves of 1.
pub proof fn valid_rect_stays_valid(r: FractionalRect, rest: spec_fn(Number) -> Number)
    requires
        is_range(Number { bits: 0 }, rest(valid_extent(r.width))),
        is_range(Number { bits: 0 }, rest(valid_extent(r.height))),
    ensures
        ({
            let v = r.valid(rest(valid_extent(r.width)), rest(valid_extent(r.height)));
            &&& v.valid(rest(valid_extent(v.width)), rest(valid_extent(v.height))) == v
            &&& (Number { bits: MIN_SIZE_BITS }).at_most(v.width)
            &&& v.width.at_most(Number { bits: ONE_BITS })
            &&& (Number { bits: MIN_SIZE_BITS }).at_most(v.height)
            &&& v.height.at_most(Number { bits: ONE_BITS })
            &&& (Number { bits: 0 }).at_most(v.x)
            &&& v.x.at_most(rest(v.width))
            &&& (Number { bits: 0 }).at_most(v.y)
            &&& v.y.at_most(rest(v.height))
        }),
{
}

/// Facts about the current scratchpad window, gathered by the reactor.
#[derive(Clone, Copy, Debug, PartialEq, Eq, Structural)]
pub struct ScratchpadWindowState {
    pub app_hidden: bool,
    pub focused: bool,
    pub on_active_space: bool,
}

/// What toggling a scratchpad does.
#[derive(Clone, Copy, Debug, PartialEq, Eq, Structural)]
pub enum ScratchpadAction {
    Launch,
    Show(WindowId),
    Hide(WindowId),
}

/// Identifies the pending show that one launch created.
#[derive(Clone, Copy, Debug, PartialEq, Eq, Structural)]
pub struct PendingShowId(pub u64);

/// A window that is shown once it appears.
struct PendingShow {
    id: PendingShowId,
    /// The bundle id that was launched.
    launch: String,
}

/// Registry of scratchpad windows by name.
pub struct Scratchpads {
    windows: NameMap<(WindowId, FractionalRect)>,
    pending_show: NameMap<PendingShow>,
    next_pending_id: u64,
}

/// A show that is pending: its id and the bundle id that was launched.
#[verifier::ext_equal]
pub struct PendingView {
    pub id: PendingShowId,
    pub launch: Seq<char>,
}

/// What the registry holds.
#[verifier::ext_equal]
pub struct ScratchpadsView {
    pub windows: Map<Seq<char>, (WindowId, FractionalRect)>,
    pub pending: Map<Seq<char>, PendingView>,
    pub next_pending_id: u64,
}

impl ScratchpadsView {
    /// A window is registered under one name at most, and the pending shows
    /// have distinct ids that were given out.
    pub open spec fn consistent(self) -> bool {
        &&& forall|m: Seq<char>, n: Seq<char>|
            #![trigger self.windows.dom().contains(m), self.windows.dom().contains(n)]
            self.windows.dom().contains(m) && self.windows.dom().contains(n) && self.windows[m].0
                == self.windows[n].0 ==> m == n
        &&& forall|m: Seq<char>, n: Seq<char>|
            #![trigger self.pending.dom().contains(m), self.pending.dom().contains(n)]
            self.pending.dom().contains(m) && self.pending.dom().contains(n) && self.pending[m].id
                == self.pending[n].id ==> m == n
        &&& forall|n: Seq<char>| #[trigger]
            self.pending.dom().contains(n) ==> self.pending[n].id.0 < self.next_pending_id
    }

    /// The window is registered under the name.
    pub open spec fn named(self, name: Seq<char>, wid: WindowId) -> bool {
        self.windows.dom().contains(name) && self.windows[name].0 == wid
    }

    /// The registry without the names that fail the test.
    pub open spec fn keeping(self, keep: spec_fn(Seq<char>, WindowId) -> bool) -> ScratchpadsView {
        ScratchpadsView {
            windows: Map::new(
                |n: Seq<char>| self.windows.dom().contains(n) && keep(n, self.windows[n].0),
                |n: Seq<char>| self.windows[n],
            ),
            ..self
        }
    }

    /// The registry without the pending shows that fail the test.
    pub open spec fn keeping_pending(self, keep: spec_fn(Seq<char>, PendingView) -> bool) -> ScratchpadsView {
        ScratchpadsView {
            pending: Map::new(
                |n: Seq<char>| self.pending.dom().contains(n) && keep(n, self.pending[n]),
                |n: Seq<char>| self.pending[n],
            ),
            ..self
        }
    }

    /// The registry after a window was registered.
    pub open spec fn registered(self, name: Seq<char>, wid: WindowId, frame: FractionalRect) -> ScratchpadsView {
        let kept = self.keeping(|n: Seq<char>, w: WindowId| w != wid || n == name);
        ScratchpadsView { windows: kept.windows.insert(name, (wid, frame)), ..self }
    }

    /// The registry after a launch of a name that has no window.
    pub open spec fn launching(self, name: Seq<char>, launch: Option<Seq<char>>) -> ScratchpadsView {
        match launch {
            Some(launch) => ScratchpadsView {
                pending: self.pending.insert(
                    name,
                    PendingView { id: PendingShowId(self.next_pending_id), launch },
                ),
                next_pending_id: (self.next_pending_id + 1) as u64,
                ..self
            },
            None => ScratchpadsView { pending: self.pending.remove(name), ..self },
        }
    }
}

/// What toggling a window does, from what is known of it.
pub open spec fn action_for(wid: WindowId, state: ScratchpadWindowState) -> ScratchpadAction {
    if !state.app_hidden && state.focused && state.on_active_space {
        ScratchpadAction::Hide(wid)
    } else {
        ScratchpadAction::Show(wid)
    }
}

/// The text that an optional name stands for.
pub open spec fn text_of(s: Option<&str>) -> Option<Seq<char>> {
    match s {
        Some(s) => Some(s@),
        None => None,
    }
}

impl View for Scratchpads {
    type V = ScratchpadsView;

    closed spec fn view(&self) -> ScratchpadsView {
        ScratchpadsView {
            windows: self.windows@,
            pending: self.pending_show@.map_values(
                |p: PendingShow| PendingView { id: p.id, launch: p.launch@ },
            ),
            next_pending_id: self.next_pending_id,
        }
    }
}

impl Default for Scratchpads {
    fn default() -> (s: Scratchpads)
        ensures
            s.wf(),
            s@ == (ScratchpadsView { windows: Map::empty(), pending: Map::empty(), next_pending_id: 0 }),
    {
        let s = Scratchpads { windows: NameMap::new(), pending_show: NameMap::new(), next_pending_id: 0 };
        proof {
            assert(s@.pending =~= Map::<Seq<char>, PendingView>::empty());
        }
        s
    }
}

impl Scratchpads {
    pub closed spec fn wf(&self) -> bool {
        &&& self.windows.wf()
        &&& self.pending_show.wf()
        &&& self@.consistent()
    }

    /// A window is registered under one name at most, and the pending shows have
    /// distinct ids that were given out.
    pub proof fn registry_is_consistent(&self)
        requires
            self.wf(),
        ensures
            self@.consistent(),
    {
    }

    /// Registers a window under a name. If a live window is already registered
    /// under the name, keeps it and returns false.
    pub fn register(&mut self, name: &str, wid: WindowId, frame: FractionalRect) -> (done: bool)
        requires
            old(self).wf(),
        ensures
            final(self).wf(),
            done == !(old(self)@.windows.dom().contains(name@) && old(self)@.windows[name@].0 != wid),
            final(self)@ == (if done {
                old(self)@.registered(name@, wid, frame)
            } else {
                old(self)@
            }),
    {
        match self.windows.get(name) {
            Some(existing) => {
                if existing.0 != wid {
                    return false;
                }
            },
            None => {},
        }
        let ghost t = |n: Seq<char>, e: (WindowId, FractionalRect)| e.0 != wid || n == name@;
        let keep = |n: &String, e: &(WindowId, FractionalRect)| -> (b: bool)
            ensures
                b == (e.0 != wid || n@ == name@),
            { e.0 != wid || same_text(n.as_str(), name) };
        self.windows.retain(keep, Ghost(t));
        self.windows.insert(name, (wid, frame));
        proof {
            let kept = old(self)@.keeping(|n: Seq<char>, w: WindowId| w != wid || n == name@);
            assert(NameMap::passing(old(self)@.windows, t) =~= kept.windows);
        }
        true
    }

    /// Forgets a destroyed window. Returns its name if it was a scratchpad.
    pub fn remove_window(&mut self, wid: WindowId) -> (name: Option<String>)
        requires
            old(self).wf(),
        ensures
            final(self).wf(),
            name matches Some(n) ==> old(self)@.named(n@, wid),
            name is None ==> forall|n: Seq<char>| !#[trigger] old(self)@.named(n, wid),
            final(self)@ == old(self)@.keeping(|n: Seq<char>, w: WindowId| w != wid),
    {
        let ghost after = old(self)@.keeping(|n: Seq<char>, w: WindowId| w != wid);
        let name = match self.name_of(wid) {
            Some(name) => name.to_owned(),
            None => {
                proof {
                    assert forall|n: Seq<char>| #[trigger] self@.windows.dom().contains(n) implies self@.windows[n].0
                        != wid by {
                        assert(!self@.named(n, wid));
                    }
                    assert(after.windows =~= self@.windows);
                }
                return None;
            },
        };
        self.windows.remove(name.as_str());
        proof {
            assert(self@.windows =~= after.windows);
        }
        Some(name)
    }

    /// Forgets all windows of an application that has terminated.
    pub fn remove_app(&mut self, pid: Pid)
        requires
            old(self).wf(),
        ensures
            final(self).wf(),
            final(self)@ == old(self)@.keeping(|n: Seq<char>, w: WindowId| w.pid != pid),
    {
        let ghost t = |n: Seq<char>, e: (WindowId, FractionalRect)| e.0.pid != pid;
        let keep = |n: &String, e: &(WindowId, FractionalRect)| -> (b: bool)
            ensures
                b == (e.0.pid != pid),
            { e.0.pid != pid };
        self.windows.retain(keep, Ghost(t));
        proof {
            let after = old(self)@.keeping(|n: Seq<char>, w: WindowId| w.pid != pid);
            assert(self@.windows =~= after.windows);
        }
    }

    /// The name the window is registered under.
    pub fn name_of(&self, wid: WindowId) -> (name: Option<&str>)
        requires
            self.wf(),
        ensures
            name matches Some(n) ==> self@.named(n@, wid),
            name is None ==> forall|n: Seq<char>| !#[trigger] self@.named(n, wid),
    {
        let ghost t = |e: (WindowId, FractionalRect)| e.0 == wid;
        let test = |e: &(WindowId, FractionalRect)| -> (b: bool)
            ensures
                b == (e.0 == wid),
            { e.0 == wid };
        match self.windows.find(test, Ghost(t)) {
            Some(name) => Some(name.as_str()),
            None => None,
        }
    }

    /// The window registered under the name, with its frame.
    pub fn window(&self, name: &str) -> (w: Option<(WindowId, FractionalRect)>)
        requires
            self.wf(),
        ensures
            w == (if self@.windows.dom().contains(name@) {
                Some(self@.windows[name@])
            } else {
                None
            }),
    {
        match self.windows.get(name) {
            Some(w) => Some(*w),
            None => None,
        }
    }

    pub fn is_scratchpad(&self, wid: WindowId) -> (b: bool)
        requires
            self.wf(),
        ensures
            b == (exists|n: Seq<char>| #[trigger] self@.named(n, wid)),
    {
        match self.name_of(wid) {
            Some(name) => {
                proof {
                    assert(self@.named(name@, wid));
                }
                true
            },
            None => false,
        }
    }

    /// Forgets the windows and pending shows of names that `keep` rejects.
    pub fn retain_names<F: Fn(&str) -> bool>(&mut self, keep: F)
        requires
            old(self).wf(),
            forall|s: &str| call_requires(keep, (s,)),
        ensures
            final(self).wf(),
            tested(old(self)@.windows, final(self)@.windows, keep),
            tested(old(self)@.pending, final(self)@.pending, keep),
            final(self)@.next_pending_id == old(self)@.next_pending_id,
    {
        let ghost before = self@;
        self.windows.retain_tested(&keep);
        self.pending_show.retain_tested(&keep);
        proof {
            assert forall|n: Seq<char>| #[trigger] self@.windows.dom().contains(n) implies before.windows.dom().contains(
                n,
            ) && self@.windows[n] == before.windows[n] by {}
            assert forall|n: Seq<char>| #[trigger] self@.pending.dom().contains(n) implies before.pending.dom().contains(
                n,
            ) && self@.pending[n] == before.pending[n] by {}
        }
    }

    /// Hide if the window is visible, focused and on the active space;
    /// otherwise Show. Without a window, returns Launch. If there is a bundle
    /// id to `launch`, also remembers to show the window once it is
    /// registered, replacing an earlier pending show of the name.
    pub fn toggle<F: Fn(WindowId) -> ScratchpadWindowState>(
        &mut self,
        name: &str,
        launch: Option<&str>,
        state: F,
    ) -> (action: ScratchpadAction)
        requires
            old(self).wf(),
            old(self)@.windows.dom().contains(name@) ==> call_requires(state, (old(self)@.windows[name@].0,)),
            !old(self)@.windows.dom().contains(name@) && launch is Some ==> old(self)@.next_pending_id < u64::MAX,
        ensures
            final(self).wf(),
            old(self)@.windows.dom().contains(name@) ==> final(self)@ == old(self)@ && exists|
                s: ScratchpadWindowState,
            | #[trigger]
                call_ensures(state, (old(self)@.windows[name@].0,), s) && action == action_for(
                    old(self)@.windows[name@].0,
                    s,
                ),
            !old(self)@.windows.dom().contains(name@) ==> action == ScratchpadAction::Launch && final(self)@ == old(
                self,
            )@.launching(name@, text_of(launch)),
    {
        let wid = match self.window(name) {
            Some(w) => w.0,
            None => {
                match launch {
                    Some(launch) => {
                        let id = PendingShowId(self.next_pending_id);
                        self.next_pending_id += 1;
                        self.pending_show.insert(name, PendingShow { id, launch: launch.to_owned() });
                    },
                    None => {
                        self.pending_show.remove(name);
                    },
                }
                proof {
                    assert(self@.pending =~= old(self)@.launching(name@, text_of(launch)).pending);
                }
                return ScratchpadAction::Launch;
            },
        };
        let s = state(wid);
        if !s.app_hidden && s.focused && s.on_active_space {
            ScratchpadAction::Hide(wid)
        } else {
            ScratchpadAction::Show(wid)
        }
    }

    /// The number of the next pending show.
    pub fn next_pending_id(&self) -> (id: u64)
        ensures
            id == self@.next_pending_id,
    {
        self.next_pending_id
    }

    /// Returns true once if a show was pending for the name (after Launch).
    pub fn take_pending_show(&mut self, name: &str) -> (taken: bool)
        requires
            old(self).wf(),
        ensures
            final(self).wf(),
            taken == old(self)@.pending.dom().contains(name@),
            final(self)@ == (ScratchpadsView { pending: old(self)@.pending.remove(name@), ..old(self)@ }),
    {
        let taken = self.pending_show.remove(name).is_some();
        proof {
            assert(self@.pending =~= old(self)@.pending.remove(name@));
        }
        taken
    }

    /// The show pending for the name, if any.
    pub fn pending_show(&self, name: &str) -> (id: Option<PendingShowId>)
        requires
            self.wf(),
        ensures
            id == (if self@.pending.dom().contains(name@) {
                Some(self@.pending[name@].id)
            } else {
                None
            }),
    {
        match self.pending_show.get(name) {
            Some(pending) => Some(pending.id),
            None => None,
        }
    }

    /// Drops the pending show `id` if it is still pending, and returns its
    /// name. A later launch of the same name has a different id and is kept.
    pub fn cancel_pending_show(&mut self, id: PendingShowId) -> (name: Option<String>)
        requires
            old(self).wf(),
        ensures
            final(self).wf(),
            name matches Some(n) ==> old(self)@.pending.dom().contains(n@) && old(self)@.pending[n@].id == id,
            name is None ==> forall|n: Seq<char>| #[trigger]
                old(self)@.pending.dom().contains(n) ==> old(self)@.pending[n].id != id,
            final(self)@ == old(self)@.keeping_pending(|n: Seq<char>, p: PendingView| p.id != id),
    {
        let ghost after = old(self)@.keeping_pending(|n: Seq<char>, p: PendingView| p.id != id);
        let ghost t = |p: PendingShow| p.id == id;
        let test = |p: &PendingShow| -> (b: bool)
            ensures
                b == (p.id == id),
            { p.id == id };
        let name = match self.pending_show.find(test, Ghost(t)) {
            Some(name) => name.clone(),
            None => {
                proof {
                    assert(after.pending =~= self@.pending);
                }
                return None;
            },
        };
        self.pending_show.remove(name.as_str());
        proof {
            assert(old(self)@.pending.dom().contains(name@));
            assert forall|n: Seq<char>|
                #![trigger self@.pending.dom().contains(n)]
                #![trigger after.pending.dom().contains(n)]
                self@.pending.dom().contains(n) == after.pending.dom().contains(n) by {
                if old(self)@.pending.dom().contains(n) {}
            }
            assert(self@.pending =~= after.pending);
        }
        Some(name)
    }

    /// Drops the pending shows that launched `bundle_id`.
    pub fn cancel_pending_shows_for_app(&mut self, bundle_id: &str)
        requires
            old(self).wf(),
        ensures
            final(self).wf(),
            final(self)@ == old(self)@.keeping_pending(
                |n: Seq<char>, p: PendingView| !same_but_for_case(p.launch, bundle_id@),
            ),
    {
        let ghost t = |n: Seq<char>, p: PendingShow| !same_but_for_case(p.launch@, bundle_id@);
        let keep = |n: &String, p: &PendingShow| -> (b: bool)
            ensures
                b == !same_but_for_case(p.launch@, bundle_id@),
            { !equal_but_for_case(p.launch.as_str(), bundle_id) };
        self.pending_show.retain(keep, Ghost(t));
        proof {
            let after = old(self)@.keeping_pending(
                |n: Seq<char>, p: PendingView| !same_but_for_case(p.launch, bundle_id@),
            );
            assert(self@.pending =~= after.pending);
        }
    }
}

// ---- Laws ----

/// A window is registered under one name at most.
pub proof fn window_has_one_name(v: ScratchpadsView, wid: WindowId, a: Seq<char>, b: Seq<char>)
    requires
        v.consistent(),
        v.named(a, wid),
        v.named(b, wid),
    ensures
        a == b,
{
}

/// A registered window is found under its name, and under no other name.
pub proof fn registered_window_is_found(
    v: ScratchpadsView,
    name: Seq<char>,
    wid: WindowId,
    frame: FractionalRect,
    other: Seq<char>,
)
    ensures
        v.registered(name, wid, frame).windows[name] == (wid, frame),
        v.registered(name, wid, frame).named(name, wid),
        v.registered(name, wid, frame).named(other, wid) ==> other == name,
        v.registered(name, wid, frame).pending == v.pending,
{
}

/// Registering a window does not touch the windows of other names, unless it
/// was one of them.
pub proof fn other_windows_stay_registered(
    v: ScratchpadsView,
    name: Seq<char>,
    wid: WindowId,
    frame: FractionalRect,
    other: Seq<char>,
)
    requires
        other != name,
        v.windows.dom().contains(other),
        v.windows[other].0 != wid,
    ensures
        v.registered(name, wid, frame).windows.dom().contains(other),
        v.registered(name, wid, frame).windows[other] == v.windows[other],
{
}

/// A window that is forgotten has no name, and its name is free for another.
pub proof fn forgotten_window_has_no_name(v: ScratchpadsView, wid: WindowId, name: Seq<char>)
    ensures
        !v.keeping(|n: Seq<char>, w: WindowId| w != wid).named(name, wid),
        v.consistent() && v.named(name, wid) ==> !v.keeping(
            |n: Seq<char>, w: WindowId| w != wid,
        ).windows.dom().contains(name),
{
}

/// Forgetting an app forgets all of its windows and no others.
pub proof fn forgetting_an_app_keeps_others(v: ScratchpadsView, pid: Pid, name: Seq<char>)
    requires
        v.windows.dom().contains(name),
    ensures
        v.keeping(|n: Seq<char>, w: WindowId| w.pid != pid).windows.dom().contains(name)
            <==> v.windows[name].0.pid != pid,
{
}

/// A window is hidden only when its app is visible and it is focused and on the
/// active space; otherwise it is shown.
pub proof fn hides_only_when_all_conditions_hold(wid: WindowId, state: ScratchpadWindowState)
    ensures
        action_for(wid, state) == ScratchpadAction::Hide(wid) <==> state == (ScratchpadWindowState {
            app_hidden: false,
            focused: true,
            on_active_space: true,
        }),
        action_for(wid, state) != ScratchpadAction::Hide(wid) ==> action_for(wid, state)
            == ScratchpadAction::Show(wid),
{
}

/// A pending show is taken once.
pub proof fn pending_show_is_taken_once(v: ScratchpadsView, name: Seq<char>)
    ensures
        !(ScratchpadsView { pending: v.pending.remove(name), ..v }).pending.dom().contains(name),
{
}

/// Cancelling the show of a launch keeps that of a later launch of the same
/// name, which has another id.
pub proof fn later_launch_is_kept(v: ScratchpadsView, name: Seq<char>, first: Seq<char>, second: Seq<char>)
    requires
        v.consistent(),
        v.next_pending_id + 2 <= u64::MAX,
    ensures
        ({
            let a = v.launching(name, Some(first));
            let b = a.launching(name, Some(second));
            &&& a.pending[name].id != b.pending[name].id
            &&& b.keeping_pending(|n: Seq<char>, p: PendingView| p.id != a.pending[name].id) == b
        }),
{
    let a = v.launching(name, Some(first));
    let b = a.launching(name, Some(second));
    let kept = b.keeping_pending(|n: Seq<char>, p: PendingView| p.id != a.pending[name].id);
    assert forall|n: Seq<char>| #[trigger] b.pending.dom().contains(n) implies kept.pending.dom().contains(n) by {
        if n != name {
            assert(v.pending.dom().contains(n));
        }
    }
    assert(kept.pending =~= b.pending);
}

/// A launch without a bundle id leaves no pending show.
pub proof fn launch_without_id_leaves_no_show(v: ScratchpadsView, name: Seq<char>)
    ensures
        !v.launching(name, None).pending.dom().contains(name),
        v.launching(name, None).windows == v.windows,
{
}

/// A pending show survives the registration of its window.
pub proof fn pending_show_survives_registration(
    v: ScratchpadsView,
    name: Seq<char>,
    launch: Seq<char>,
    wid: WindowId,
    frame: FractionalRect,
)
    ensures
        v.launching(name, Some(launch)).registered(name, wid, frame).pending.dom().contains(name),
{
}

/// What is in its range stays as it is when a rectangle is made valid, what is
/// below goes to the lower bound, and what is above to the upper: each value by
/// itself, whatever the others are.
pub proof fn values_go_to_their_bounds(r: FractionalRect, max_x: Number, max_y: Number)
    requires
        is_range(Number { bits: 0 }, max_x),
        is_range(Number { bits: 0 }, max_y),
    ensures
        ({
            let v = r.valid(max_x, max_y);
            let zero = Number { bits: 0 };
            let least = Number { bits: 0x3FA9_9999_9999_999A };
            let one = Number { bits: 0x3FF0_0000_0000_0000 };
            &&& zero.at_most(r.x) && r.x.at_most(max_x) ==> v.x == r.x
            &&& r.x.nan() || r.x.less(zero) ==> v.x == zero
            &&& max_x.less(r.x) ==> v.x == max_x
            &&& zero.at_most(r.y) && r.y.at_most(max_y) ==> v.y == r.y
            &&& r.y.nan() || r.y.less(zero) ==> v.y == zero
            &&& max_y.less(r.y) ==> v.y == max_y
            &&& least.at_most(r.width) && r.width.at_most(one) ==> v.width == r.width
            &&& r.width.nan() || r.width.less(least) ==> v.width == least
            &&& one.less(r.width) ==> v.width == one
            &&& least.at_most(r.height) && r.height.at_most(one) ==> v.height == r.height
            &&& r.height.nan() || r.height.less(least) ==> v.height == least
            &&& one.less(r.height) ==> v.height == one
        }),
{
}

/// A launch with a bundle id is remembered under its name, with that id and a
/// number of its own. Other names and the windows are not concerned.
pub proof fn launch_is_remembered_under_its_name(
    v: ScratchpadsView,
    name: Seq<char>,
    launch: Seq<char>,
    other: Seq<char>,
)
    requires
        v.next_pending_id < u64::MAX,
    ensures
        ({
            let after = v.launching(name, Some(launch));
            &&& after.pending.dom().contains(name)
            &&& after.pending[name].launch == launch
            &&& after.pending[name].id == PendingShowId(v.next_pending_id)
            &&& after.next_pending_id == v.next_pending_id + 1
            &&& after.windows == v.windows
            &&& other != name ==> after.pending.dom().contains(other) == v.pending.dom().contains(other)
                && after.pending[other] == v.pending[other]
            &&& other != name ==> v.launching(name, None).pending.dom().contains(other) == v.pending.dom().contains(
                other,
            ) && v.launching(name, None).pending[other] == v.pending[other]
        }),
{
}

/// What is kept of the registry is as it was, and nothing else is forgotten:
/// neither names, where shows are dropped, nor shows, where names are.
pub proof fn what_is_kept_is_as_it_was(
    v: ScratchpadsView,
    keep: spec_fn(Seq<char>, WindowId) -> bool,
    keep_show: spec_fn(Seq<char>, PendingView) -> bool,
    name: Seq<char>,
)
    ensures
        v.keeping(keep).windows.dom().contains(name) <==> v.windows.dom().contains(name) && keep(
            name,
            v.windows[name].0,
        ),
        v.keeping(keep).windows.dom().contains(name) ==> v.keeping(keep).windows[name] == v.windows[name],
        v.keeping(keep).pending == v.pending && v.keeping(keep).next_pending_id == v.next_pending_id,
        v.keeping_pending(keep_show).pending.dom().contains(name) <==> v.pending.dom().contains(name) && keep_show(
            name,
            v.pending[name],
        ),
        v.keeping_pending(keep_show).pending.dom().contains(name) ==> v.keeping_pending(keep_show).pending[name]
            == v.pending[name],
        v.keeping_pending(keep_show).windows == v.windows && v.keeping_pending(keep_show).next_pending_id
            == v.next_pending_id,
{
}

/// A registered window stays under its old name only if that is its new one:
/// registering it again under another name moves it there.
pub proof fn window_moves_to_its_new_name(
    v: ScratchpadsView,
    old_name: Seq<char>,
    name: Seq<char>,
    wid: WindowId,
    frame: FractionalRect,
)
    requires
        v.named(old_name, wid),
        old_name != name,
    ensures
        !v.registered(name, wid, frame).windows.dom().contains(old_name),
        v.registered(name, wid, frame).named(name, wid),
{
}

} // verus!
