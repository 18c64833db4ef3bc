//! The viewport over the columns of a scroll layout.
//!
//! The viewport decides where to scroll and which windows are parked off
//! screen. Sums and differences of coordinates are computed by the caller and
//! handed in, and so is how its spring moves.
use vstd::prelude::*;

use crate::geometry::{Point, Rect};
use crate::number::{Number, HALF_BITS, INFINITY_BITS};
use crate::sequences::lemma_take_all;
use crate::spring::{Motion, Progress, SpringAnimation};

verus! {

/// Phase of a trackpad scroll gesture. Mouse wheel events have no phase.
#[derive(Clone, Copy, Debug, PartialEq, Eq, Structural)]
pub enum ScrollPhase {
    /// The event has no phase.
    NoPhase,
    /// The fingers touched down or started moving.
    Began,
    Changed,
    Ended,
    /// Inertial scrolling after the fingers lifted.
    Momentum,
}

impl Default for ScrollPhase {
    fn default() -> (p: ScrollPhase)
        ensures
            p == ScrollPhase::NoPhase,
    {
        ScrollPhase::NoPhase
    }
}

/// The delta along the axis that moved further; `dx` on a tie.
pub open spec fn further(dx: Number, dy: Number) -> Number {
    if dy.absolute().at_most(dx.absolute()) {
        dx
    } else {
        dy
    }
}

/// Returns the delta along the axis that moved further; `dx` on a tie.
pub fn dominant_axis(dx: Number, dy: Number) -> (d: Number)
    ensures
        d == further(dx, dy),
{
    if dy.abs().is_at_most(dx.abs()) {
        dx
    } else {
        dy
    }
}

/// Finger travel of one trackpad gesture, from `Began` to `Ended`. A gesture
/// moves at most one column.
#[derive(Clone, Copy, Debug, PartialEq, Eq, Structural)]
pub struct SwipeGesture {
    pub travel_x: Number,
    pub travel_y: Number,
    pub done: bool,
}

impl Default for SwipeGesture {
    fn default() -> (s: SwipeGesture)
        ensures
            s == SwipeGesture::fresh(),
    {
        SwipeGesture { travel_x: Number { bits: 0 }, travel_y: Number { bits: 0 }, done: false }
    }
}

impl SwipeGesture {
    /// A gesture that has not travelled.
    pub open spec fn fresh() -> SwipeGesture {
        SwipeGesture { travel_x: Number { bits: 0 }, travel_y: Number { bits: 0 }, done: false }
    }

    /// Whether the gesture takes in more travel.
    pub open spec fn takes(self, threshold: Number) -> bool {
        !self.done && !threshold.at_most(Number { bits: 0 })
    }

    /// The step that a total travel makes.
    pub open spec fn step(travel: Number, threshold: Number) -> Option<i32> {
        if threshold.at_most(travel.absolute()) {
            Some(
                if travel.less(Number { bits: 0 }) {
                    -1i32
                } else {
                    1i32
                },
            )
        } else {
            None
        }
    }

    pub fn begin(&mut self)
        ensures
            *final(self) == SwipeGesture::fresh(),
    {
        *self = SwipeGesture { travel_x: Number { bits: 0 }, travel_y: Number { bits: 0 }, done: false };
    }

    /// Stops the gesture from moving any further columns until the next
    /// `begin`.
    pub fn end(&mut self)
        ensures
            *final(self) == (SwipeGesture { done: true, ..*old(self) }),
    {
        self.done = true;
    }

    /// Adds finger travel: `travel_x` and `travel_y` are the totals with it.
    /// Once the total travel along the dominant axis reaches `threshold`,
    /// returns its sign as a single step and ends the gesture.
    pub fn add(&mut self, travel_x: Number, travel_y: Number, threshold: Number) -> (step: Option<i32>)
        ensures
            !old(self).takes(threshold) ==> step is None && *final(self) == *old(self),
            old(self).takes(threshold) ==> {
                &&& step == SwipeGesture::step(further(travel_x, travel_y), threshold)
                &&& *final(self) == (SwipeGesture { travel_x, travel_y, done: step is Some })
            },
    {
        if self.done || threshold.is_at_most(Number { bits: 0 }) {
            return None;
        }
        self.travel_x = travel_x;
        self.travel_y = travel_y;
        let travel = dominant_axis(travel_x, travel_y);
        if threshold.is_at_most(travel.abs()) {
            self.done = true;
            if travel.is_less(Number { bits: 0 }) {
                Some(-1)
            } else {
                Some(1)
            }
        } else {
            None
        }
    }
}

/// A gesture moves at most one column: after a step, and after its end, more
/// travel makes no step until the next gesture begins.
pub proof fn gesture_moves_once(s: SwipeGesture, threshold: Number)
    requires
        s.done,
    ensures
        !s.takes(threshold),
        SwipeGesture::fresh().takes(threshold) <==> !threshold.at_most(Number { bits: 0 }),
{
}

/// How a column is brought into view.
#[derive(Clone, Copy, Debug, PartialEq, Eq, Structural)]
pub enum CenterMode {
    Always,
    /// Only a column wider than the screen is centered.
    OnOverflow,
    Never,
}

/// Where a column lies, relative to the left edge of the screen, and the
/// offsets that would bring it into view.
#[derive(Clone, Copy, Debug, PartialEq, Eq, Structural)]
pub struct Column {
    pub left: Number,
    pub right: Number,
    pub width: Number,
    /// The right edge of what is in view at the target offset.
    pub view_right: Number,
    /// The offset that centers the column.
    pub centered: Number,
    /// The offset that shows the column at the left edge, with its padding.
    pub at_left_edge: Number,
    /// The offset that shows the column at the right edge, with its padding.
    pub at_right_edge: Number,
}

impl Column {
    /// The offset that shows the column with the least scrolling.
    pub open spec fn edge_fit(self, current: Number) -> Number {
        if current.at_most(self.left) && self.right.at_most(self.view_right) {
            current
        } else if self.left.less(current) {
            self.at_left_edge
        } else {
            self.at_right_edge
        }
    }

    /// Whether the column is scrolled to an edge of the view.
    pub open spec fn goes_to_edge(self, mode: CenterMode, current: Number, screen_width: Number) -> bool {
        let centered = mode == CenterMode::Always || (mode == CenterMode::OnOverflow && screen_width.less(
            self.width,
        ));
        !centered && !(current.at_most(self.left) && self.right.at_most(self.view_right))
    }

    /// The offset that brings the column into view.
    pub open spec fn offset(self, mode: CenterMode, current: Number, screen_width: Number) -> Number {
        match mode {
            CenterMode::Always => self.centered,
            CenterMode::OnOverflow => if screen_width.less(self.width) {
                self.centered
            } else {
                self.edge_fit(current)
            },
            CenterMode::Never => self.edge_fit(current),
        }
    }

    fn compute_edge_fit(self, current: Number) -> (offset: Number)
        ensures
            offset == self.edge_fit(current),
    {
        if current.is_at_most(self.left) && self.right.is_at_most(self.view_right) {
            current
        } else if self.left.is_less(current) {
            self.at_left_edge
        } else {
            self.at_right_edge
        }
    }
}

/// The scroll offset: at rest, or on its way to a target.
#[derive(Clone, Copy, Debug, PartialEq, Eq, Structural)]
pub enum ScrollState {
    Static(Number),
    /// A spring moves the offset.
    Animating(SpringAnimation),
}

impl ScrollState {
    /// Where the offset is or goes.
    pub open spec fn goal(self) -> Number {
        match self {
            ScrollState::Static(v) => v,
            ScrollState::Animating(spring) => spring.target_value,
        }
    }

    /// Where the offset is, if its spring is at `spring_value`.
    pub open spec fn place(self, spring_value: Number) -> Number {
        match self {
            ScrollState::Static(v) => v,
            ScrollState::Animating(_) => spring_value,
        }
    }

    /// Where the offset is. `spring_value` is where the spring is, if there is
    /// one.
    pub fn current(&self, spring_value: Number) -> (v: Number)
        ensures
            v == self.place(spring_value),
    {
        match self {
            ScrollState::Static(v) => *v,
            ScrollState::Animating(_) => spring_value,
        }
    }

    /// Where the offset is or goes.
    pub fn target(&self) -> (v: Number)
        ensures
            v == self.goal(),
    {
        match self {
            ScrollState::Static(v) => *v,
            ScrollState::Animating(spring) => spring.target(),
        }
    }
}

/// Horizontal viewport over the columns of a scroll layout. The scroll offset
/// is measured from the screen's left edge.
#[derive(Clone, Copy, Debug, PartialEq, Eq, Structural)]
pub struct ViewportState {
    pub scroll: ScrollState,
    pub active_column_index: usize,
    pub screen_width: Number,
    pub screen_origin_x: Number,
    pub user_scrolling: bool,
    pub scroll_progress: Number,
    pub swipe: SwipeGesture,
}

/// The number is neither infinite nor NaN.
pub open spec fn finite(n: Number) -> bool {
    n.magnitude() < INFINITY_BITS
}

/// A frame in the layout, with what follows from it for its place on screen.
#[derive(Clone, Copy, Debug, PartialEq, Eq, Structural)]
pub struct LayoutFrame {
    pub rect: Rect,
    /// The right edge of the frame.
    pub right: Number,
    /// The left edge where the frame is in view.
    pub shown_x: Number,
    /// The left edge where it is parked on the left of the screen.
    pub parked_left_x: Number,
}

/// The frame is in view between the edges.
pub open spec fn in_view(left: Number, right: Number, view_left: Number, view_right: Number) -> bool {
    view_left.less(right) && left.less(view_right)
}

impl LayoutFrame {
    /// The place of the frame on screen. A frame out of view is parked beside
    /// the screen, on the side where it is.
    pub open spec fn placed(self, view_left: Number, view_right: Number, parked_right_x: Number) -> Rect {
        let x = if in_view(self.rect.origin.x, self.right, view_left, view_right) {
            self.shown_x
        } else if self.right.at_most(view_left) {
            self.parked_left_x
        } else {
            parked_right_x
        };
        Rect { origin: Point { x, y: self.rect.origin.y }, size: self.rect.size }
    }
}

/// The frames at their places on screen.
pub open spec fn placed_frames<T>(
    frames: Seq<(T, LayoutFrame)>,
    view_left: Number,
    view_right: Number,
    parked_right_x: Number,
) -> Seq<(T, Rect)> {
    frames.map_values(|f: (T, LayoutFrame)| (f.0, f.1.placed(view_left, view_right, parked_right_x)))
}

impl ViewportState {
    pub fn new(screen_width: Number) -> (v: ViewportState)
        ensures
            v == (ViewportState {
                scroll: ScrollState::Static(Number { bits: 0 }),
                active_column_index: 0,
                screen_width,
                screen_origin_x: Number { bits: 0 },
                user_scrolling: false,
                scroll_progress: Number { bits: 0 },
                swipe: SwipeGesture::fresh(),
            }),
    {
        ViewportState {
            scroll: ScrollState::Static(Number { bits: 0 }),
            active_column_index: 0,
            screen_width,
            screen_origin_x: Number { bits: 0 },
            user_scrolling: false,
            scroll_progress: Number { bits: 0 },
            swipe: SwipeGesture { travel_x: Number { bits: 0 }, travel_y: Number { bits: 0 }, done: false },
        }
    }

    /// The offset. `spring_value` is where its spring is, if there is one.
    pub fn scroll_offset(&self, spring_value: Number) -> (v: Number)
        ensures
            v == self.scroll.place(spring_value),
    {
        self.scroll.current(spring_value)
    }

    pub fn target_offset(&self) -> (v: Number)
        ensures
            v == self.scroll.goal(),
    {
        self.scroll.target()
    }

    pub fn set_screen(&mut self, screen: Rect)
        ensures
            *final(self) == (ViewportState {
                screen_origin_x: screen.origin.x,
                screen_width: screen.size.width,
                ..*old(self)
            }),
    {
        self.screen_origin_x = screen.origin.x;
        self.screen_width = screen.size.width;
    }

    /// The state once the offset is on its way to the target. A spring that
    /// moves already gets the new target.
    pub open spec fn animating_to(self, target: Number, motion: Motion, now: u64) -> ViewportState {
        ViewportState {
            scroll: ScrollState::Animating(
                match self.scroll {
                    ScrollState::Static(current) => SpringAnimation::by_default(current, target, now),
                    ScrollState::Animating(spring) => spring.retargeted(target, motion, now),
                },
            ),
            ..self
        }
    }

    /// The offset that brings the column into view.
    pub fn column_offset(&self, mode: CenterMode, column: Column) -> (offset: Number)
        ensures
            offset == column.offset(mode, self.scroll.goal(), self.screen_width),
    {
        let current = self.target_offset();
        match mode {
            CenterMode::Always => column.centered,
            CenterMode::OnOverflow => if self.screen_width.is_less(column.width) {
                column.centered
            } else {
                column.compute_edge_fit(current)
            },
            CenterMode::Never => column.compute_edge_fit(current),
        }
    }

    /// Whether the column is scrolled to an edge of the view. Only then do the
    /// offsets with its padding matter.
    pub fn needs_padding(&self, mode: CenterMode, column: Column) -> (b: bool)
        ensures
            b == column.goes_to_edge(mode, self.scroll.goal(), self.screen_width),
    {
        let centered = match mode {
            CenterMode::Always => true,
            CenterMode::OnOverflow => self.screen_width.is_less(column.width),
            CenterMode::Never => false,
        };
        !centered && !(self.target_offset().is_at_most(column.left) && column.right.is_at_most(column.view_right))
    }

    /// Makes the column the active one and scrolls to it. `distance` is how far
    /// the offset of [`ViewportState::column_offset`] is from the target
    /// offset. A short way is not scrolled, and neither is one that is not
    /// finite. `motion` is how the spring moves, if there is one.
    pub fn ensure_column_visible(
        &mut self,
        column_index: usize,
        mode: CenterMode,
        column: Column,
        distance: Number,
        motion: Motion,
        now: u64,
    )
        ensures
            ({
                let v = *old(self);
                let offset = column.offset(mode, v.scroll.goal(), v.screen_width);
                let active = ViewportState { active_column_index: column_index, user_scrolling: false, ..v };
                *final(self) == (if finite(offset) && (Number { bits: HALF_BITS }).less(distance) {
                    active.animating_to(offset, motion, now)
                } else {
                    active
                })
            }),
    {
        let offset = self.column_offset(mode, column);
        self.active_column_index = column_index;
        self.user_scrolling = false;
        if offset.abs().bits < INFINITY_BITS && (Number { bits: HALF_BITS }).is_less(distance) {
            self.animate_to(offset, motion, now);
        }
    }

    pub fn snap_to_offset(&mut self, offset: Number)
        ensures
            *final(self) == (ViewportState { scroll: ScrollState::Static(offset), ..*old(self) }),
    {
        self.scroll = ScrollState::Static(offset);
    }

    /// Sends the offset to a target. `motion` is how the spring moves, if there
    /// is one.
    pub fn animate_to(&mut self, target: Number, motion: Motion, now: u64)
        ensures
            *final(self) == old(self).animating_to(target, motion, now),
    {
        match self.scroll {
            ScrollState::Animating(spring) => {
                let mut spring = spring;
                spring.retarget(target, motion, now);
                self.scroll = ScrollState::Animating(spring);
            },
            ScrollState::Static(current) => {
                self.scroll = ScrollState::Animating(SpringAnimation::with_defaults(current, target, now));
            },
        }
    }

    /// Takes in scroll progress. `progress` is the progress with it, `steps`
    /// the number of whole columns in it and `rest` what they leave.
    pub fn accumulate_scroll(
        &mut self,
        avg_column_width: Number,
        progress: Number,
        steps: i32,
        rest: Number,
    ) -> (taken: Option<i32>)
        ensures
            avg_column_width.at_most(Number { bits: 0 }) ==> taken is None && *final(self) == *old(self),
            !avg_column_width.at_most(Number { bits: 0 }) ==> {
                &&& taken == (if steps != 0 {
                    Some(steps)
                } else {
                    None
                })
                &&& *final(self) == (ViewportState {
                    scroll_progress: if steps != 0 {
                        rest
                    } else {
                        progress
                    },
                    ..*old(self)
                })
            },
    {
        if avg_column_width.is_at_most(Number { bits: 0 }) {
            return None;
        }
        if steps != 0 {
            self.scroll_progress = rest;
            Some(steps)
        } else {
            self.scroll_progress = progress;
            None
        }
    }

    pub fn reset_scroll_progress(&mut self)
        ensures
            *final(self) == (ViewportState { scroll_progress: Number { bits: 0 }, ..*old(self) }),
    {
        self.scroll_progress = Number { bits: 0 };
    }

    /// Whether the offset is on its way. `progress` is how far the spring has
    /// come, if there is one.
    pub fn is_animating(&self, progress: Progress) -> (b: bool)
        ensures
            b == (self.scroll is Animating && !progress.at_rest()),
    {
        match self.scroll {
            ScrollState::Static(_) => false,
            ScrollState::Animating(spring) => !spring.is_complete(progress),
        }
    }

    /// Ends the scrolling once the spring has come to rest.
    pub fn tick(&mut self, progress: Progress)
        ensures
            *final(self) == (if progress.at_rest() && old(self).scroll is Animating {
                ViewportState {
                    scroll: ScrollState::Static(old(self).scroll.goal()),
                    user_scrolling: false,
                    ..*old(self)
                }
            } else {
                *old(self)
            }),
    {
        match self.scroll {
            ScrollState::Animating(spring) => {
                if spring.is_complete(progress) {
                    self.scroll = ScrollState::Static(spring.target());
                    self.user_scrolling = false;
                }
            },
            ScrollState::Static(_) => {},
        }
    }

    /// Whether a frame with these edges is in view between the others.
    pub fn is_visible(left: Number, right: Number, view_left: Number, view_right: Number) -> (b: bool)
        ensures
            b == in_view(left, right, view_left, view_right),
    {
        view_left.is_less(right) && left.is_less(view_right)
    }

    /// Places the frames of the layout on screen. Those out of view are parked
    /// beside the screen.
    pub fn apply_viewport_to_frames<T>(
        frames: Vec<(T, LayoutFrame)>,
        view_left: Number,
        view_right: Number,
        parked_right_x: Number,
    ) -> (placed: Vec<(T, Rect)>)
        ensures
            placed@ == placed_frames(frames@, view_left, view_right, parked_right_x),
    {
        let ghost all = frames@;
        let mut placed: Vec<(T, Rect)> = Vec::new();
        for entry in it: frames.into_iter()
            invariant
                it.seq() == all,
                placed@ == placed_frames(all.take(it.index() as int), view_left, view_right, parked_right_x),
        {
            let ghost i = it.index() as int;
            let (id, frame) = entry;
            let rect = frame.rect;
            let x = if ViewportState::is_visible(rect.origin.x, frame.right, view_left, view_right) {
                frame.shown_x
            } else if frame.right.is_at_most(view_left) {
                frame.parked_left_x
            } else {
                parked_right_x
            };
            placed.push((id, Rect { origin: Point { x, y: rect.origin.y }, size: rect.size }));
            proof {
                assert(placed@ =~= placed_frames(all.take(i + 1), view_left, view_right, parked_right_x));
            }
        }
        proof {
            lemma_take_all(all);
        }
        placed
    }
}

/// Every frame gets a place, in the same order, at the same height and in the
/// same size.
pub proof fn frames_keep_their_size<T>(
    frames: Seq<(T, LayoutFrame)>,
    view_left: Number,
    view_right: Number,
    parked_right_x: Number,
)
    ensures
        placed_frames(frames, view_left, view_right, parked_right_x).len() == frames.len(),
        forall|i: int|
            0 <= i < frames.len() ==> {
                let placed = #[trigger] placed_frames(frames, view_left, view_right, parked_right_x)[i];
                &&& placed.0 == frames[i].0
                &&& placed.1.size == frames[i].1.rect.size
                &&& placed.1.origin.y == frames[i].1.rect.origin.y
            },
{
}

/// The padding of a column matters only if it is scrolled to an edge.
pub proof fn padding_matters_at_an_edge(
    column: Column,
    other: Column,
    mode: CenterMode,
    current: Number,
    screen_width: Number,
)
    requires
        !column.goes_to_edge(mode, current, screen_width),
        other == (Column { at_left_edge: other.at_left_edge, at_right_edge: other.at_right_edge, ..column }),
    ensures
        other.offset(mode, current, screen_width) == column.offset(mode, current, screen_width),
{
}

/// A column that is in view is not scrolled to: the offset that shows it with
/// the least scrolling is the current one.
pub proof fn visible_column_keeps_the_offset(column: Column, current: Number, screen_width: Number)
    requires
        current.at_most(column.left),
        column.right.at_most(column.view_right),
    ensures
        column.offset(CenterMode::Never, current, screen_width) == current,
{
}

/// A column is centered where it always is to be, or where it is to be if it is
/// wider than the screen and is. Otherwise a column in view stays; one whose
/// left edge is out of view goes to the left edge, and any other to the right.
pub proof fn column_is_centered_or_brought_to_its_edge(
    column: Column,
    mode: CenterMode,
    current: Number,
    screen_width: Number,
)
    ensures
        ({
            let offset = column.offset(mode, current, screen_width);
            let wide = screen_width.less(column.width);
            let centered = mode == CenterMode::Always || (mode == CenterMode::OnOverflow && wide);
            let in_view = current.at_most(column.left) && column.right.at_most(column.view_right);
            &&& centered ==> offset == column.centered
            &&& !centered && in_view ==> offset == current
            &&& !centered && !in_view && column.left.less(current) ==> offset == column.at_left_edge
            &&& !centered && !in_view && !column.left.less(current) ==> offset == column.at_right_edge
            &&& column.goes_to_edge(mode, current, screen_width) <==> !centered && !in_view
        }),
{
}

/// A frame between the edges of the view is shown; one that ends before the
/// left edge is parked on the left, and one that begins after the right edge on
/// the right.
pub proof fn frames_out_of_view_are_parked_on_their_side<T>(
    frames: Seq<(T, LayoutFrame)>,
    view_left: Number,
    view_right: Number,
    parked_right_x: Number,
    i: int,
)
    requires
        0 <= i < frames.len(),
        !view_left.nan(),
        !view_right.nan(),
        !frames[i].1.right.nan(),
        !frames[i].1.rect.origin.x.nan(),
    ensures
        ({
            let f = frames[i].1;
            let x = placed_frames(frames, view_left, view_right, parked_right_x)[i].1.origin.x;
            let left = f.rect.origin.x.order();
            let right = f.right.order();
            &&& view_left.order() < right && left < view_right.order() ==> x == f.shown_x
            &&& right <= view_left.order() ==> x == f.parked_left_x
            &&& view_left.order() < right && view_right.order() <= left ==> x == parked_right_x
        }),
{
}

/// A viewport sent to a target goes there from where it is: from its offset at
/// rest, with the usual spring, or as its spring moves. Nothing else of it
/// changes.
pub proof fn viewport_goes_to_the_target(v: ViewportState, target: Number, motion: Motion, now: u64)
    ensures
        ({
            let after = v.animating_to(target, motion, now);
            &&& after == (ViewportState { scroll: after.scroll, ..v })
            &&& after.scroll.goal() == target
            &&& after.scroll matches ScrollState::Animating(spring) && {
                &&& spring.target_value == target
                &&& spring.start_time == now
                &&& v.scroll matches ScrollState::Static(offset) ==> spring.initial_value == offset
                    && spring.initial_velocity.bits == 0
                &&& v.scroll is Animating ==> spring.initial_value == motion.value
            }
        }),
{
}

/// At rest the offset is where it goes. On its way it is where its spring is and
/// goes to the target of that.
pub proof fn offset_is_at_rest_or_with_its_spring(offset: Number, spring: SpringAnimation, value: Number)
    ensures
        ScrollState::Static(offset).place(value) == offset,
        ScrollState::Static(offset).goal() == offset,
        ScrollState::Animating(spring).place(value) == value,
        ScrollState::Animating(spring).goal() == spring.target_value,
{
}

/// The travel that counts is the one along the axis that moved further, and the
/// first where neither did.
pub proof fn further_axis_counts(dx: Number, dy: Number)
    requires
        !dx.nan(),
        !dy.nan(),
    ensures
        dy.magnitude() <= dx.magnitude() ==> further(dx, dy) == dx,
        dx.magnitude() < dy.magnitude() ==> further(dx, dy) == dy,
{
}

/// A travel of at least the threshold is one step in its direction, and a
/// shorter one is none.
pub proof fn step_goes_with_the_travel(travel: Number, threshold: Number)
    requires
        !travel.nan(),
        (Number { bits: 0 }).less(threshold),
    ensures
        travel.order() >= threshold.order() ==> SwipeGesture::step(travel, threshold) == Some(1i32),
        -travel.order() >= threshold.order() ==> SwipeGesture::step(travel, threshold) == Some(-1i32),
        -threshold.order() < travel.order() < threshold.order() ==> SwipeGesture::step(travel, threshold) is None,
{
}

} // verus!
