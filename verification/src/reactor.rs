//! The reactor's job is to maintain coherence between the system and model
//! state.
//!
//! It takes events from the rest of the system and builds a coherent picture of
//! what is going on. It shares this with the layout, and reacts to layout
//! changes by sending requests out to the other parts of the system.
use vstd::prelude::*;

use crate::apps::copy_title;
use crate::effects::LayoutWindowInfo;
use crate::events::{Settings, WindowServerInfo};
use crate::geometry::{Measurements, Rect, Size};
use crate::ids::{Pid, WindowId, WindowServerId};
use crate::number::Number;
use crate::ordered::OrdMap;
use crate::reactor_model::{
    seq_of, AppState, FrameAttempt, PendingSpaceMove, ReactorView, Screen, WindowState,
};
use crate::sequences::{each, lemma_each_step, lemma_take_all};
use crate::space::{ScreenSpace, SpaceId};

mod events;
mod frames;
mod responses;
mod scratchpads;
mod screens;
mod windows;

verus! {

/// Keeps track of apps, windows and screens, and decides what to do about
/// events.
pub struct Reactor {
    settings: Settings,
    apps: OrdMap<Pid, AppState>,
    /// One-shot frame targets requested by layout transitions. They are merged
    /// into the next animation alongside the continuously calculated layout.
    pending_frame_overrides: OrdMap<WindowId, Rect>,
    windows: OrdMap<WindowId, WindowState>,
    window_server_info: OrdMap<WindowServerId, WindowServerInfo>,
    window_ids: OrdMap<WindowServerId, WindowId>,
    visible_windows: OrdMap<WindowServerId, ()>,
    screens: Vec<Screen>,
    /// The space each screen shows, from the last `ScreenSpacesChanged`.
    /// Unlike `Screen::space`, this has spaces that are not managed too.
    screen_spaces: Vec<Option<ScreenSpace>>,
    active_screen_idx: Option<u16>,
    main_window: Option<WindowId>,
    in_drag: bool,
    /// The window the user is currently resizing with the mouse, if any.
    ///
    /// No frames are written to this window until the resize ends, since a
    /// write mid-drag fights the user's mouse.
    resizing_window: Option<WindowId>,
    /// Recent attempts to write a frame to a window, used to stop fighting apps
    /// that move their windows back.
    frame_attempts: OrdMap<WindowId, FrameAttempt>,
    /// Scratchpad windows being moved to the current space. Each is placed and
    /// focused once it is on screen or its move ends.
    pending_space_moves: OrdMap<WindowId, PendingSpaceMove>,
    next_space_move_id: u64,
    /// How frames lie on screens, as far as it was measured.
    measurements: Measurements,
}

impl View for Reactor {
    type V = ReactorView;

    closed spec fn view(&self) -> ReactorView {
        ReactorView {
            settings: self.settings,
            apps: self.apps@,
            windows: self.windows@,
            window_server_info: self.window_server_info@,
            window_ids: self.window_ids@,
            visible_windows: self.visible_windows@.dom(),
            screens: self.screens@,
            screen_spaces: self.screen_spaces@,
            active_screen_idx: self.active_screen_idx,
            main_window: self.main_window,
            in_drag: self.in_drag,
            resizing_window: self.resizing_window,
            frame_attempts: self.frame_attempts@,
            pending_space_moves: self.pending_space_moves@,
            next_space_move_id: self.next_space_move_id,
            pending_frame_overrides: self.pending_frame_overrides@,
            measured: self.measurements@,
        }
    }
}

impl Reactor {
    pub closed spec fn wf(&self) -> bool {
        &&& self.apps.wf()
        &&& self.pending_frame_overrides.wf()
        &&& self.windows.wf()
        &&& self.window_server_info.wf()
        &&& self.window_ids.wf()
        &&& self.visible_windows.wf()
        &&& self.frame_attempts.wf()
        &&& self.pending_space_moves.wf()
    }

    /// The reactor knows finitely many apps, windows and moves.
    pub proof fn known_sets_are_finite(&self)
        requires
            self.wf(),
        ensures
            self@.apps.dom().finite(),
            self@.windows.dom().finite(),
            self@.window_server_info.dom().finite(),
            self@.window_ids.dom().finite(),
            self@.visible_windows.finite(),
            self@.frame_attempts.dom().finite(),
            self@.pending_space_moves.dom().finite(),
            self@.pending_frame_overrides.dom().finite(),
            forall|pid: Pid| #[trigger] self@.on_screen(pid).finite(),
    {
        self.apps.lemma_keys();
        self.windows.lemma_keys();
        self.window_server_info.lemma_keys();
        self.window_ids.lemma_keys();
        self.visible_windows.lemma_keys();
        self.frame_attempts.lemma_keys();
        self.pending_space_moves.lemma_keys();
        self.pending_frame_overrides.lemma_keys();
        assert forall|pid: Pid| #[trigger] self@.on_screen(pid).finite() by {
            vstd::set_lib::lemma_set_subset_finite(self@.windows.dom(), self@.on_screen(pid));
        }
    }

    pub fn new(settings: Settings) -> (r: Reactor)
        ensures
            r.wf(),
            r@ == (ReactorView {
                settings,
                apps: Map::empty(),
                windows: Map::empty(),
                window_server_info: Map::empty(),
                window_ids: Map::empty(),
                visible_windows: Set::empty(),
                screens: Seq::empty(),
                screen_spaces: Seq::empty(),
                active_screen_idx: None,
                main_window: None,
                in_drag: false,
                resizing_window: None,
                frame_attempts: Map::empty(),
                pending_space_moves: Map::empty(),
                next_space_move_id: 0,
                pending_frame_overrides: Map::empty(),
                measured: Seq::empty(),
            }),
    {
        let r = Reactor {
            settings,
            apps: OrdMap::new(),
            pending_frame_overrides: OrdMap::new(),
            windows: OrdMap::new(),
            window_server_info: OrdMap::new(),
            window_ids: OrdMap::new(),
            visible_windows: OrdMap::new(),
            screens: Vec::new(),
            screen_spaces: Vec::new(),
            active_screen_idx: None,
            main_window: None,
            in_drag: false,
            resizing_window: None,
            frame_attempts: OrdMap::new(),
            pending_space_moves: OrdMap::new(),
            next_space_move_id: 0,
            measurements: Measurements::new(),
        };
        proof {
            assert(r@.visible_windows =~= Set::<WindowServerId>::empty());
        }
        r
    }

    /// Sets how frames lie on screens. The overlaps of the screens with the
    /// frames of windows are looked up here.
    pub fn set_measurements(&mut self, measurements: Measurements)
        requires
            old(self).wf(),
        ensures
            final(self).wf(),
            final(self)@ == (ReactorView { measured: measurements@, ..old(self)@ }),
    {
        self.measurements = measurements;
    }

    /// The screen the window overlaps the most, or None if it is not on any
    /// screen. Apps park windows far off screen to hide them, and those belong
    /// to no screen at all.
    pub fn best_screen_idx_for_window(&self, frame: &Rect) -> (idx: Option<usize>)
        requires
            self.wf(),
        ensures
            idx matches Some(i) ==> i < self@.screens.len() && self@.best_screen(*frame) == Some(i as int),
            idx is None ==> self@.best_screen(*frame) is None,
    {
        let ghost v = self@;
        let ghost f = *frame;
        let mut best: Option<usize> = None;
        let mut best_area = Number { bits: 0 };
        let mut i: usize = 0;
        while i < self.screens.len()
            invariant
                self.wf(),
                v == self@,
                f == *frame,
                i <= self.screens.len(),
                best is None ==> forall|j: int| 0 <= j < i ==> !(#[trigger] v.overlap(j, f)).positive(),
                best matches Some(b) ==> {
                    &&& b < i
                    &&& v.overlap(b as int, f).positive()
                    &&& best_area == v.overlap(b as int, f).area
                    &&& forall|j: int|
                        0 <= j < i && (#[trigger] v.overlap(j, f)).positive() ==> v.overlap(j, f).area.less(
                            best_area,
                        ) || (v.overlap(j, f).area.same(best_area) && j <= b)
                },
            decreases self.screens.len() - i,
        {
            let overlap = self.measurements.overlap(self.screens[i].frame, *frame);
            proof {
                assert(overlap == v.overlap(i as int, f));
            }
            if overlap.has_area() && (best.is_none() || best_area.is_at_most(overlap.area)) {
                best = Some(i);
                best_area = overlap.area;
            }
            i += 1;
        }
        match best {
            Some(b) => {
                proof {
                    assert(v.overlaps_most(f, b as int));
                    let c = choose|c: int| v.overlaps_most(f, c);
                    assert(v.overlaps_most(f, c));
                    assert(v.overlap(c, f).positive() && v.overlap(b as int, f).positive());
                    assert(c == b);
                }
                return Some(b);
            },
            None => {},
        }
        proof {
            assert forall|c: int| !v.overlaps_most(f, c) by {
                if v.overlaps_most(f, c) {
                    assert(v.overlap(c, f).positive());
                }
            }
        }
        let mut i: usize = 0;
        while i < self.screens.len()
            invariant
                self.wf(),
                v == self@,
                f == *frame,
                i <= self.screens.len(),
                forall|c: int| !v.overlaps_most(f, c),
                forall|j: int| 0 <= j < i ==> !(#[trigger] v.overlap(j, f)).holds_middle,
            decreases self.screens.len() - i,
        {
            let overlap = self.measurements.overlap(self.screens[i].frame, *frame);
            proof {
                assert(overlap == v.overlap(i as int, f));
            }
            if overlap.holds_middle {
                proof {
                    assert(v.holds_middle(f, i as int));
                    let c = choose|c: int| v.holds_middle(f, c);
                    assert(v.holds_middle(f, c));
                    assert(c == i) by {
                        assert(v.overlap(c, f).holds_middle);
                        assert(v.overlap(i as int, f).holds_middle);
                    }
                }
                return Some(i);
            }
            i += 1;
        }
        proof {
            assert forall|c: int| !v.holds_middle(f, c) by {
                if v.holds_middle(f, c) {
                    assert(v.overlap(c, f).holds_middle);
                }
            }
        }
        None
    }

    /// The managed space that a window at the frame is on.
    pub fn best_space_for_window(&self, frame: &Rect) -> (space: Option<SpaceId>)
        requires
            self.wf(),
        ensures
            space == self@.best_space(*frame),
    {
        match self.best_screen_idx_for_window(frame) {
            Some(i) => self.screens[i].space,
            None => None,
        }
    }

    fn active_screen(&self) -> (screen: Option<Screen>)
        ensures
            screen == self@.active_screen(),
    {
        let idx: usize = match self.active_screen_idx {
            Some(i) => i as usize,
            None => 0,
        };
        if idx < self.screens.len() {
            Some(self.screens[idx])
        } else {
            None
        }
    }

    fn active_frame(&self) -> (frame: Option<Rect>)
        ensures
            frame == self@.active_frame(),
    {
        match self.active_screen() {
            Some(s) => Some(s.frame),
            None => None,
        }
    }

    fn active_space(&self) -> (space: Option<(SpaceId, Rect)>)
        ensures
            space == self@.active_space(),
    {
        match self.active_screen() {
            Some(s) => match s.space {
                Some(space) => Some((space, s.frame)),
                None => None,
            },
            None => None,
        }
    }

    /// Whether the application is hidden. False for unknown applications.
    pub fn is_app_hidden(&self, pid: Pid) -> (b: bool)
        requires
            self.wf(),
        ensures
            b == self@.app_hidden(pid),
    {
        match self.apps.get(pid) {
            Some(app) => app.info.is_hidden,
            None => false,
        }
    }

    /// Whether the window server reports the window on screen. Windows without
    /// a window server id count as visible.
    fn window_is_visible(&self, wid: WindowId) -> (b: bool)
        requires
            self.wf(),
        ensures
            b == self@.window_visible(wid),
    {
        match self.windows.get(wid) {
            Some(window) => match window.window_server_id {
                Some(wsid) => self.visible_windows.contains(wsid),
                None => true,
            },
            None => true,
        }
    }

    /// The main window of the active app, if any.
    pub fn main_window(&self) -> (wid: Option<WindowId>)
        ensures
            wid == self@.main_window,
    {
        self.main_window
    }

    fn main_window_space(&self) -> (space: Option<SpaceId>)
        requires
            self.wf(),
        ensures
            space == self@.main_space(),
    {
        match self.main_window {
            Some(wid) => match self.windows.get(wid) {
                Some(window) => self.best_space_for_window(&window.frame_monotonic),
                None => None,
            },
            None => None,
        }
    }

    /// The managed spaces, in the order of their screens.
    pub fn managed_spaces(&self) -> (spaces: Vec<SpaceId>)
        ensures
            spaces@ == self@.managed_spaces(),
    {
        let ghost f = |s: Screen| seq_of(s.space);
        let mut spaces: Vec<SpaceId> = Vec::new();
        let mut i: usize = 0;
        while i < self.screens.len()
            invariant
                i <= self.screens.len(),
                f == (|s: Screen| seq_of(s.space)),
                spaces@ == each(self.screens@.take(i as int), f),
            decreases self.screens.len() - i,
        {
            proof {
                lemma_each_step(self.screens@, f, i as int);
            }
            match self.screens[i].space {
                Some(space) => {
                    spaces.push(space);
                },
                None => {},
            }
            proof {
                assert(spaces@ =~= each(self.screens@.take(i + 1), f));
            }
            i += 1;
        }
        proof {
            lemma_take_all(self.screens@);
        }
        spaces
    }

    fn managed_frames(&self) -> (frames: Vec<(SpaceId, Rect)>)
        ensures
            frames@ == self@.managed_frames(),
    {
        let ghost f = |s: Screen|
            match s.space {
                Some(space) => seq![(space, s.frame)],
                None => Seq::empty(),
            };
        let mut frames: Vec<(SpaceId, Rect)> = Vec::new();
        let mut i: usize = 0;
        while i < self.screens.len()
            invariant
                i <= self.screens.len(),
                f == (|s: Screen|
                    match s.space {
                        Some(space) => seq![(space, s.frame)],
                        None => Seq::empty(),
                    }),
                frames@ == each(self.screens@.take(i as int), f),
            decreases self.screens.len() - i,
        {
            proof {
                lemma_each_step(self.screens@, f, i as int);
            }
            let screen = self.screens[i];
            match screen.space {
                Some(space) => {
                    frames.push((space, screen.frame));
                },
                None => {},
            }
            proof {
                assert(frames@ =~= each(self.screens@.take(i + 1), f));
            }
            i += 1;
        }
        proof {
            lemma_take_all(self.screens@);
        }
        frames
    }

    fn managed_sizes(&self) -> (sizes: Vec<(SpaceId, Size)>)
        ensures
            sizes@ == self@.managed_sizes(),
    {
        let ghost f = |s: Screen|
            match s.space {
                Some(space) => seq![(space, s.frame.size)],
                None => Seq::empty(),
            };
        let mut sizes: Vec<(SpaceId, Size)> = Vec::new();
        let mut i: usize = 0;
        while i < self.screens.len()
            invariant
                i <= self.screens.len(),
                f == (|s: Screen|
                    match s.space {
                        Some(space) => seq![(space, s.frame.size)],
                        None => Seq::empty(),
                    }),
                sizes@ == each(self.screens@.take(i as int), f),
            decreases self.screens.len() - i,
        {
            proof {
                lemma_each_step(self.screens@, f, i as int);
            }
            let screen = self.screens[i];
            match screen.space {
                Some(space) => {
                    sizes.push((space, screen.frame.size));
                },
                None => {},
            }
            proof {
                assert(sizes@ =~= each(self.screens@.take(i + 1), f));
            }
            i += 1;
        }
        proof {
            lemma_take_all(self.screens@);
        }
        sizes
    }

    /// Gathers the window properties the layout uses to classify a window.
    fn layout_window_info(&self, wid: WindowId) -> (info: Option<LayoutWindowInfo>)
        requires
            self.wf(),
        ensures
            info == (if self@.windows.dom().contains(wid) {
                Some(self@.layout_info(wid))
            } else {
                None
            }),
    {
        let window = match self.windows.get(wid) {
            Some(window) => window,
            None => {
                return None;
            },
        };
        let (bundle_id, app_name) = match self.apps.get(wid.pid) {
            Some(app) => (copy_text(&app.info.bundle_id), copy_text(&app.info.localized_name)),
            None => (None, None),
        };
        let layer = match window.window_server_id {
            Some(wsid) => match self.window_server_info.get(wsid) {
                Some(info) => Some(info.layer),
                None => None,
            },
            None => None,
        };
        Some(
            LayoutWindowInfo {
                frame: window.frame_monotonic,
                bundle_id,
                app_name,
                title: copy_title(&window.title),
                layer,
                is_standard: window.is_ax_standard,
                is_resizable: window.is_resizable,
                ax_role: window.ax_role.clone(),
                ax_subrole: copy_text(&window.ax_subrole),
            },
        )
    }
}

fn copy_text(text: &Option<String>) -> (copy: Option<String>)
    ensures
        copy == *text,
{
    match text {
        Some(text) => Some(text.clone()),
        None => None,
    }
}

} // verus!
