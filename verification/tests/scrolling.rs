use std::ops::Add;
use std::time::Duration;

use glide_core::geometry::{Point, Rect, Size};
use glide_core::number::Number;
use glide_core::spring::{self, Motion, Progress, DEFAULT_OMEGA_BITS};
use glide_core::viewport::{self, CenterMode, Column, LayoutFrame, ScrollPhase, ScrollState};

fn number(value: f64) -> Number {
    Number::from_bits(value.to_bits())
}

fn value(number: Number) -> f64 {
    f64::from_bits(number.bits)
}

#[derive(Debug, Clone, Copy, PartialEq)]
struct CGPoint {
    x: f64,
    y: f64,
}

#[derive(Debug, Clone, Copy, PartialEq)]
struct CGSize {
    width: f64,
    height: f64,
}

#[derive(Debug, Clone, Copy, PartialEq)]
struct CGRect {
    origin: CGPoint,
    size: CGSize,
}

fn make_rect(x: f64, y: f64, width: f64, height: f64) -> CGRect {
    CGRect { origin: CGPoint { x, y }, size: CGSize { width, height } }
}

fn to_rect(r: CGRect) -> Rect {
    Rect {
        origin: Point { x: number(r.origin.x), y: number(r.origin.y) },
        size: Size { width: number(r.size.width), height: number(r.size.height) },
    }
}

fn from_rect(r: Rect) -> CGRect {
    make_rect(value(r.origin.x), value(r.origin.y), value(r.size.width), value(r.size.height))
}

/// A point in time, in nanoseconds.
#[derive(Debug, Clone, Copy, PartialEq, Eq, PartialOrd, Ord)]
struct Instant(u64);

impl Instant {
    fn now() -> Instant {
        Instant(1_000_000_000_000)
    }
}

impl Add<Duration> for Instant {
    type Output = Instant;

    fn add(self, d: Duration) -> Instant {
        Instant(self.0 + d.as_nanos() as u64)
    }
}

const DEFAULT_RESPONSE: f64 = 0.2;

/// A spring with its formulas.
#[derive(Debug, Clone)]
struct SpringAnimation {
    inner: spring::SpringAnimation,
    start_time: Instant,
    omega_n: f64,
}

impl SpringAnimation {
    fn of(inner: spring::SpringAnimation) -> SpringAnimation {
        SpringAnimation { inner, start_time: Instant(inner.start_time), omega_n: value(inner.omega_n) }
    }

    fn new(from: f64, to: f64, velocity: f64, response: f64, damping: f64, now: Instant) -> SpringAnimation {
        let omega_n = 2.0 * std::f64::consts::PI / response;
        let omega_d = omega_n * (1.0 - damping * damping).max(0.0).sqrt();
        SpringAnimation::of(spring::SpringAnimation::new(
            number(from),
            number(to),
            number(velocity),
            number(response),
            number(damping),
            number(omega_n),
            number(omega_d),
            now.0,
        ))
    }

    fn with_defaults(from: f64, to: f64, now: Instant) -> SpringAnimation {
        SpringAnimation::of(spring::SpringAnimation::with_defaults(number(from), number(to), now.0))
    }

    fn elapsed(&self, time: Instant) -> f64 {
        Duration::from_nanos(time.0.saturating_sub(self.inner.start_time)).as_secs_f64()
    }

    /// The value and the velocity at a time.
    fn at(&self, time: Instant) -> (f64, f64) {
        let s = &self.inner;
        let t = self.elapsed(time);
        let x0 = value(s.initial_value) - value(s.target_value);
        let v0 = value(s.initial_velocity);
        let (w, wd, zeta) = (value(s.omega_n), value(s.omega_d), value(s.damping_fraction));
        let (displacement, velocity) = if s.is_overdamped() {
            let decay = (-w * t).exp();
            let a = v0 + w * x0;
            (decay * (x0 + a * t), decay * (a - w * (x0 + a * t)))
        } else {
            let decay = (-zeta * w * t).exp();
            let b = (v0 + zeta * w * x0) / wd;
            let (sin_t, cos_t) = (wd * t).sin_cos();
            (
                decay * (x0 * cos_t + b * sin_t),
                decay * ((-zeta * w) * (x0 * cos_t + b * sin_t) + (-x0 * wd * sin_t + b * wd * cos_t)),
            )
        };
        (value(s.target_value) + displacement, velocity)
    }

    fn value_at(&self, time: Instant) -> f64 {
        self.at(time).0
    }

    fn current(&self, time: Instant) -> f64 {
        self.value_at(time)
    }

    fn velocity_at(&self, time: Instant) -> f64 {
        self.at(time).1
    }

    fn motion(&self, new_target: f64, now: Instant) -> Motion {
        let (current, velocity) = self.at(now);
        let remaining = new_target - current;
        let max_toward = self.omega_n * remaining.abs();
        Motion {
            value: number(current),
            velocity: number(velocity),
            toward: number(velocity * remaining),
            max_toward: number(max_toward),
            capped: number(max_toward * remaining.signum()),
        }
    }

    fn retarget(&mut self, new_target: f64, now: Instant) {
        let motion = self.motion(new_target, now);
        self.inner.retarget(number(new_target), motion, now.0);
        self.start_time = now;
    }

    fn progress(&self, time: Instant) -> Progress {
        let (current, velocity) = self.at(time);
        Progress {
            elapsed: number(self.elapsed(time)),
            distance: number(current - value(self.inner.target())),
            velocity: number(velocity),
        }
    }

    fn is_complete(&self, time: Instant) -> bool {
        self.inner.is_complete(self.progress(time))
    }
}

fn dominant_axis(dx: f64, dy: f64) -> f64 {
    value(viewport::dominant_axis(number(dx), number(dy)))
}

/// A gesture that adds up its travel.
#[derive(Default)]
struct SwipeGesture(viewport::SwipeGesture);

impl SwipeGesture {
    fn begin(&mut self) {
        self.0.begin();
    }

    fn end(&mut self) {
        self.0.end();
    }

    fn add(&mut self, dx: f64, dy: f64, threshold: f64) -> Option<i32> {
        let travel_x = value(self.0.travel_x) + dx;
        let travel_y = value(self.0.travel_y) + dy;
        self.0.add(number(travel_x), number(travel_y), number(threshold))
    }
}

/// A viewport with its arithmetic.
struct ViewportState {
    inner: viewport::ViewportState,
}

impl ViewportState {
    fn new(screen_width: f64) -> ViewportState {
        ViewportState { inner: viewport::ViewportState::new(number(screen_width)) }
    }

    fn spring(&self) -> SpringAnimation {
        match self.inner.scroll {
            ScrollState::Animating(spring) => SpringAnimation::of(spring),
            ScrollState::Static(v) => SpringAnimation::of(spring::SpringAnimation::with_defaults(v, v, 0)),
        }
    }

    fn scroll_offset(&self, now: Instant) -> f64 {
        value(self.inner.scroll_offset(number(self.spring().value_at(now))))
    }

    fn target_offset(&self) -> f64 {
        value(self.inner.target_offset())
    }

    fn set_screen(&mut self, screen: CGRect) {
        self.inner.set_screen(to_rect(screen));
    }

    fn view_bounds(&self, now: Instant) -> (f64, f64) {
        let left = value(self.inner.screen_origin_x) + self.scroll_offset(now);
        (left, left + value(self.inner.screen_width))
    }

    fn ensure_column_visible(
        &mut self,
        column_index: usize,
        column_x: f64,
        column_width: f64,
        center_mode: CenterMode,
        gap: f64,
        now: Instant,
    ) {
        let width = value(self.inner.screen_width);
        let left = column_x - value(self.inner.screen_origin_x);
        let current = self.target_offset();
        let mut column = Column {
            left: number(left),
            right: number(left + column_width),
            width: number(column_width),
            view_right: number(current + width),
            centered: number(left + column_width / 2.0 - width / 2.0),
            at_left_edge: number(left),
            at_right_edge: number(left + column_width - width),
        };
        if self.inner.needs_padding(center_mode, column) {
            let padding = ((width - column_width) / 2.0).clamp(0.0, gap);
            column.at_left_edge = number(left - padding);
            column.at_right_edge = number(left + column_width + padding - width);
        }
        let offset = value(self.inner.column_offset(center_mode, column));
        let distance = number((offset - current).abs());
        let motion = self.spring().motion(offset, now);
        self.inner.ensure_column_visible(column_index, center_mode, column, distance, motion, now.0);
    }

    fn snap_to_offset(&mut self, offset: f64) {
        self.inner.snap_to_offset(number(offset));
    }

    fn animate_to(&mut self, target: f64, now: Instant) {
        let motion = self.spring().motion(target, now);
        self.inner.animate_to(number(target), motion, now.0);
    }

    fn accumulate_scroll(&mut self, delta: f64, avg_column_width: f64) -> Option<i32> {
        let progress = value(self.inner.scroll_progress) + delta;
        let steps = (progress / avg_column_width).trunc() as i32;
        let rest = progress - steps as f64 * avg_column_width;
        self.inner.accumulate_scroll(number(avg_column_width), number(progress), steps, number(rest))
    }

    fn reset_scroll_progress(&mut self) {
        self.inner.reset_scroll_progress();
    }

    fn is_animating(&self, now: Instant) -> bool {
        self.inner.is_animating(self.spring().progress(now))
    }

    fn tick(&mut self, now: Instant) {
        self.inner.tick(self.spring().progress(now));
    }

    fn offset_rect(&self, rect: CGRect, now: Instant) -> CGRect {
        let mut rect = rect;
        rect.origin.x -= self.scroll_offset(now);
        rect
    }

    fn is_visible(&self, rect: CGRect, now: Instant) -> bool {
        let (view_left, view_right) = self.view_bounds(now);
        viewport::ViewportState::is_visible(
            number(rect.origin.x),
            number(rect.origin.x + rect.size.width),
            number(view_left),
            number(view_right),
        )
    }

    fn apply_viewport_to_frames<T>(&self, screen: CGRect, frames: Vec<(T, CGRect)>, now: Instant) -> Vec<(T, CGRect)> {
        let (view_left, view_right) = self.view_bounds(now);
        let frames = frames
            .into_iter()
            .map(|(id, rect)| {
                let frame = LayoutFrame {
                    rect: to_rect(rect),
                    right: number(rect.origin.x + rect.size.width),
                    shown_x: number(self.offset_rect(rect, now).origin.x),
                    parked_left_x: number(screen.origin.x - rect.size.width),
                };
                (id, frame)
            })
            .collect();
        viewport::ViewportState::apply_viewport_to_frames(
            frames,
            number(view_left),
            number(view_right),
            number(screen.origin.x + screen.size.width),
        )
        .into_iter()
        .map(|(id, rect)| (id, from_rect(rect)))
        .collect()
    }
}

#[test]
fn accumulate_scroll_carries_remainder() {
    let mut vp = ViewportState::new(1920.0);
    assert_eq!(vp.accumulate_scroll(600.0, 960.0), None);
    assert_eq!(vp.accumulate_scroll(600.0, 960.0), Some(1));
    assert_eq!(vp.accumulate_scroll(720.0, 960.0), Some(1));
    assert_eq!(vp.accumulate_scroll(-300.0, 960.0), None);
}

#[test]
fn accumulate_scroll_returns_multiple_steps_and_keeps_sign() {
    let mut vp = ViewportState::new(1920.0);
    assert_eq!(vp.accumulate_scroll(-2000.0, 960.0), Some(-2));
    assert_eq!(vp.accumulate_scroll(-879.0, 960.0), None);
    assert_eq!(vp.accumulate_scroll(-1.0, 960.0), Some(-1));
}

#[test]
fn accumulate_scroll_ignores_non_positive_threshold() {
    let mut vp = ViewportState::new(0.0);
    assert_eq!(vp.accumulate_scroll(1000.0, 0.0), None);
    assert_eq!(vp.accumulate_scroll(1000.0, -1.0), None);
    vp.reset_scroll_progress();
    assert_eq!(vp.accumulate_scroll(960.0, 960.0), Some(1));
}

#[test]
fn reset_scroll_progress_recovers_from_non_finite_progress() {
    let mut vp = ViewportState::new(1920.0);
    _ = vp.accumulate_scroll(f64::NAN, 960.0);
    vp.reset_scroll_progress();
    assert_eq!(vp.accumulate_scroll(960.0, 960.0), Some(1));
}

#[test]
fn reset_scroll_progress_discards_partial_progress() {
    let mut vp = ViewportState::new(1920.0);
    assert_eq!(vp.accumulate_scroll(900.0, 960.0), None);
    vp.reset_scroll_progress();
    assert_eq!(vp.accumulate_scroll(900.0, 960.0), None);
    assert_eq!(vp.accumulate_scroll(60.0, 960.0), Some(1));
}

#[test]
fn dominant_axis_picks_the_larger_magnitude() {
    assert_eq!(dominant_axis(6.0, 1.0), 6.0);
    assert_eq!(dominant_axis(4.0, -177.0), -177.0);
    assert_eq!(dominant_axis(-3.0, 3.0), -3.0);
}

#[test]
fn swipe_moves_once_per_gesture_along_the_dominant_axis() {
    let mut swipe = SwipeGesture::default();
    swipe.begin();
    assert_eq!(swipe.add(0.0, -30.0, 40.0), None);
    assert_eq!(swipe.add(2.0, -10.0, 40.0), Some(-1));
    assert_eq!(swipe.add(0.0, -500.0, 40.0), None);
    swipe.end();
    assert_eq!(swipe.add(500.0, 0.0, 40.0), None);

    swipe.begin();
    assert_eq!(swipe.add(39.0, 0.0, 40.0), None);
    assert_eq!(swipe.add(1.0, 0.0, 40.0), Some(1));
}

#[test]
fn swipe_axis_follows_the_total_travel() {
    let mut swipe = SwipeGesture::default();
    assert_eq!(swipe.add(30.0, 5.0, 40.0), None);
    // |Σdy| = 35 overtakes |Σdx| = 30 but stays below the threshold.
    assert_eq!(swipe.add(0.0, 30.0, 40.0), None);
    assert_eq!(swipe.add(0.0, 5.0, 40.0), Some(1));
}

#[test]
fn swipe_ignores_non_positive_threshold() {
    let mut swipe = SwipeGesture::default();
    assert_eq!(swipe.add(1000.0, 0.0, 0.0), None);
    assert_eq!(swipe.add(1000.0, 0.0, -1.0), None);
    assert_eq!(swipe.add(39.0, 0.0, 40.0), None);
}

#[test]
fn swipe_begin_recovers_from_non_finite_travel() {
    let mut swipe = SwipeGesture::default();
    assert_eq!(swipe.add(f64::NAN, 0.0, 40.0), None);
    assert_eq!(swipe.add(100.0, 0.0, 40.0), None);
    swipe.begin();
    assert_eq!(swipe.add(-40.0, 0.0, 40.0), Some(-1));
}

#[test]
fn ensure_column_visible_already_visible() {
    let now = Instant::now();
    let mut vp = ViewportState::new(1920.0);
    vp.snap_to_offset(0.0);
    vp.ensure_column_visible(0, 100.0, 500.0, CenterMode::Never, 0.0, now);
    assert_eq!(vp.target_offset(), 0.0);
}

#[test]
fn gap_does_not_matter_for_a_column_in_view() {
    let now = Instant::now();
    for gap in [-1.0, f64::NAN] {
        let mut vp = ViewportState::new(1920.0);
        vp.ensure_column_visible(3, 100.0, 500.0, CenterMode::Never, gap, now);
        assert_eq!(vp.target_offset(), 0.0);
        vp.ensure_column_visible(3, 2000.0, 500.0, CenterMode::Always, gap, now);
        assert_eq!(vp.target_offset(), 2000.0 + 250.0 - 960.0);
    }
    let mut vp = ViewportState::new(1920.0);
    vp.ensure_column_visible(3, 2000.0, 500.0, CenterMode::Never, 10.0, now);
    assert_eq!(vp.target_offset(), 2000.0 + 500.0 + 10.0 - 1920.0);
}

#[test]
fn ensure_column_visible_scrolls_left() {
    let now = Instant::now();
    let mut vp = ViewportState::new(1920.0);
    vp.snap_to_offset(500.0);
    vp.ensure_column_visible(0, 100.0, 500.0, CenterMode::Never, 0.0, now);
    assert_eq!(vp.target_offset(), 100.0);
}

#[test]
fn apply_viewport_returns_all_windows_with_correct_positions() {
    let mut vp = ViewportState::new(1920.0);
    vp.snap_to_offset(960.0);
    let screen = make_rect(0.0, 0.0, 1920.0, 1080.0);

    let frames: Vec<(usize, CGRect)> = (0..5)
        .map(|i| {
            let wid = i;
            let rect = make_rect(i as f64 * 640.0, 0.0, 640.0, 1080.0);
            (wid, rect)
        })
        .collect();

    let result = vp.apply_viewport_to_frames(screen, frames, Instant::now());
    assert_eq!(result.len(), 5);

    for (_, r) in &result {
        assert_eq!(r.size.width, 640.0, "all windows should preserve original width");
        assert_eq!(
            r.size.height, 1080.0,
            "all windows should preserve original height"
        );
    }

    let on_screen: Vec<_> = result
        .iter()
        .filter(|(_, r)| r.origin.x + r.size.width > 0.0 && r.origin.x < 1920.0)
        .collect();
    let off_screen: Vec<_> = result
        .iter()
        .filter(|(_, r)| r.origin.x + r.size.width <= 0.0 || r.origin.x >= 1920.0)
        .collect();
    assert!(!on_screen.is_empty());
    assert!(!off_screen.is_empty());
}

#[test]
fn is_visible_checks_correctly() {
    let vp = ViewportState::new(1920.0);
    assert!(vp.is_visible(make_rect(0.0, 0.0, 500.0, 1080.0), Instant::now()));
    assert!(!vp.is_visible(make_rect(2000.0, 0.0, 500.0, 1080.0), Instant::now()));
}

#[test]
fn static_viewport_is_not_animating() {
    let vp = ViewportState::new(1000.0);
    assert!(!vp.is_animating(Instant::now()));
}

#[test]
fn completed_animation_settles_to_static() {
    let now = Instant::now();
    let mut vp = ViewportState::new(1000.0);
    vp.animate_to(10.0, now);
    let later = now + Duration::from_secs(1);
    vp.tick(later);
    assert!(!vp.is_animating(later));
}

/// Three 960 pt columns on a screen at `origin_x`, with the viewport
/// settled on `column`.
fn settle_on_column(origin_x: f64, column: usize) -> (ViewportState, Vec<(usize, CGRect)>) {
    let now = Instant::now();
    let screen = make_rect(origin_x, 0.0, 1920.0, 1080.0);
    let frames: Vec<(usize, CGRect)> = (0..3)
        .map(|i| (i, make_rect(origin_x + i as f64 * 960.0, 0.0, 960.0, 1080.0)))
        .collect();
    let mut vp = ViewportState::new(screen.size.width);
    vp.set_screen(screen);
    let col = frames[column].1;
    vp.ensure_column_visible(column, col.origin.x, col.size.width, CenterMode::Never, 0.0, now);
    vp.tick(now + Duration::from_secs(1));
    (vp, frames)
}

#[test]
fn viewport_on_offset_screen_keeps_first_column_in_place() {
    for origin_x in [1920.0, -1920.0] {
        let (vp, frames) = settle_on_column(origin_x, 0);
        assert_eq!(vp.target_offset(), 0.0, "origin {origin_x}");
        let screen = make_rect(origin_x, 0.0, 1920.0, 1080.0);
        let result = vp.apply_viewport_to_frames(screen, frames, Instant::now());
        let xs: Vec<f64> = result.iter().map(|(_, r)| r.origin.x).collect();
        assert_eq!(
            xs,
            [origin_x, origin_x + 960.0, origin_x + 1920.0],
            "origin {origin_x}"
        );
    }
}

#[test]
fn viewport_on_offset_screen_scrolls_last_column_to_the_right_edge() {
    for origin_x in [1920.0, -1920.0] {
        let (vp, frames) = settle_on_column(origin_x, 2);
        assert_eq!(vp.target_offset(), 960.0, "origin {origin_x}");
        let screen = make_rect(origin_x, 0.0, 1920.0, 1080.0);
        let result = vp.apply_viewport_to_frames(screen, frames.clone(), Instant::now());
        let xs: Vec<f64> = result.iter().map(|(_, r)| r.origin.x).collect();
        assert_eq!(
            xs,
            [origin_x - 960.0, origin_x, origin_x + 960.0],
            "origin {origin_x}"
        );

        let now = Instant::now();
        assert!(!vp.is_visible(frames[0].1, now));
        assert!(vp.is_visible(frames[2].1, now));
        assert_eq!(vp.offset_rect(frames[2].1, now), result[2].1);
    }
}

#[test]
fn retarget_while_animating_keeps_the_offset_continuous() {
    let now = Instant::now();
    let mut vp = ViewportState::new(1920.0);
    vp.animate_to(960.0, now);
    let at = now + Duration::from_millis(40);
    let before = vp.scroll_offset(at);
    vp.animate_to(0.0, at);
    assert!((vp.scroll_offset(at) - before).abs() < 1e-9);
    assert_eq!(vp.target_offset(), 0.0);
    assert!(vp.is_animating(at));
    let later = at + Duration::from_secs(1);
    vp.tick(later);
    assert!(!vp.is_animating(later));
    assert_eq!(vp.scroll_offset(later), 0.0);
}

#[test]
fn quick_right_right_left_does_not_scroll_past_the_column() {
    // Centered 960 pt columns on a 1920 pt screen: each focus change moves
    // the target by one column.
    let start = Instant::now();
    let at = |t| start + Duration::from_millis(t);
    let screen = make_rect(0.0, 0.0, 1920.0, 1080.0);
    let mut vp = ViewportState::new(screen.size.width);
    vp.set_screen(screen);
    let focus = |vp: &mut ViewportState, column: usize, t| {
        let x = column as f64 * 960.0;
        vp.ensure_column_visible(column, x, 960.0, CenterMode::Always, 0.0, at(t));
    };
    vp.snap_to_offset(480.0);
    focus(&mut vp, 2, 0);
    focus(&mut vp, 3, 50);
    focus(&mut vp, 2, 80);
    let target = vp.target_offset();
    assert_eq!(target, 1440.0);
    let before = vp.scroll_offset(at(80));
    let dir = (target - before).signum();
    let furthest = (80..=1000)
        .map(|t| (vp.scroll_offset(at(t)) - target) * dir)
        .fold(0.0, f64::max);
    assert!(
        furthest < 1.0,
        "scrolled {furthest:.0} pt past the column (from {before:.0})"
    );
}

#[test]
fn non_finite_column_does_not_start_an_animation() {
    let now = Instant::now();
    let mut vp = ViewportState::new(1920.0);
    vp.ensure_column_visible(1, f64::NAN, 960.0, CenterMode::Never, 0.0, now);
    vp.ensure_column_visible(1, 0.0, f64::NAN, CenterMode::Always, 0.0, now);
    assert!(!vp.is_animating(now));
    assert_eq!(vp.target_offset(), 0.0);
}

#[test]
fn infinite_column_does_not_start_an_animation() {
    let now = Instant::now();
    let mut vp = ViewportState::new(1920.0);
    vp.ensure_column_visible(1, f64::INFINITY, 960.0, CenterMode::Never, 0.0, now);
    vp.ensure_column_visible(1, f64::NEG_INFINITY, 960.0, CenterMode::Always, 0.0, now);
    vp.ensure_column_visible(1, 0.0, f64::INFINITY, CenterMode::OnOverflow, 0.0, now);
    assert!(!vp.is_animating(now));
    assert_eq!(vp.target_offset(), 0.0);
}

#[test]
fn column_already_visible_does_not_start_an_animation() {
    let now = Instant::now();
    let screen = make_rect(1920.0, 0.0, 1920.0, 1080.0);
    let mut vp = ViewportState::new(screen.size.width);
    vp.set_screen(screen);
    vp.ensure_column_visible(1, 1920.0 + 960.0, 960.0, CenterMode::Never, 0.0, now);
    assert!(!vp.is_animating(now));
    assert_eq!(vp.target_offset(), 0.0);
}

#[test]
fn moving_the_screen_keeps_columns_on_it() {
    let (mut vp, _) = settle_on_column(0.0, 2);
    let screen = make_rect(-1920.0, 0.0, 1920.0, 1080.0);
    vp.set_screen(screen);
    let frames: Vec<(usize, CGRect)> = (0..3)
        .map(|i| (i, make_rect(-1920.0 + i as f64 * 960.0, 0.0, 960.0, 1080.0)))
        .collect();
    let result = vp.apply_viewport_to_frames(screen, frames, Instant::now());
    let xs: Vec<f64> = result.iter().map(|(_, r)| r.origin.x).collect();
    assert_eq!(xs, [-1920.0 - 960.0, -1920.0, -960.0]);
}

#[test]
fn frames_mid_animation_are_between_start_and_end() {
    let now = Instant::now();
    let screen = make_rect(1920.0, 0.0, 1920.0, 1080.0);
    let mut vp = ViewportState::new(screen.size.width);
    vp.set_screen(screen);
    let col = make_rect(1920.0 + 1920.0, 0.0, 960.0, 1080.0);
    vp.ensure_column_visible(2, col.origin.x, col.size.width, CenterMode::Never, 0.0, now);
    assert_eq!(vp.target_offset(), 960.0);
    let mut prev = f64::INFINITY;
    for t in (0..=400).step_by(8) {
        let at = now + Duration::from_millis(t);
        let x = vp.offset_rect(col, at).origin.x;
        assert!(x <= prev && x >= 1920.0 + 960.0, "{t} ms: {x}");
        prev = x;
    }
}

#[test]
fn critically_damped_converges() {
    let now = Instant::now();
    let spring = SpringAnimation::new(0.0, 100.0, 0.0, 0.5, 1.0, now);
    let end = spring.start_time + Duration::from_secs(2);
    let val = spring.value_at(end);
    assert!((val - 100.0).abs() < 1.0);
    assert!(spring.is_complete(end));
}

#[test]
fn underdamped_oscillates() {
    let now = Instant::now();
    let spring = SpringAnimation::new(0.0, 100.0, 0.0, 0.5, 0.5, now);
    let mid = spring.start_time + Duration::from_millis(200);
    let val = spring.value_at(mid);
    assert!(val > 50.0);
}

#[test]
fn retarget_preserves_continuity() {
    let now = Instant::now();
    let mut spring = SpringAnimation::new(0.0, 100.0, 0.0, 0.5, 1.0, now);
    let mid = now;
    let val_before = spring.value_at(mid);
    spring.retarget(200.0, now);
    let val_after = spring.value_at(now);
    assert!((val_before - val_after).abs() < 5.0);
}

fn ms(n: u64) -> Duration {
    Duration::from_millis(n)
}

/// First millisecond after `start` at which the spring reports completion.
fn completion_time(spring: &SpringAnimation, start: Instant) -> Duration {
    (0..=2000)
        .map(ms)
        .find(|&d| spring.is_complete(start + d))
        .expect("spring should complete within 2 s")
}

#[test]
fn default_spring_covers_most_of_the_path_quickly() {
    let now = Instant::now();
    let spring = SpringAnimation::with_defaults(0.0, 1000.0, now);
    let fraction = |t| spring.value_at(now + ms(t)) / 1000.0;
    assert!(fraction(50) > 0.4, "50 ms: {}", fraction(50));
    assert!(fraction(100) > 0.8, "100 ms: {}", fraction(100));
    assert!(fraction(150) > 0.9, "150 ms: {}", fraction(150));
    assert!(fraction(200) > 0.98, "200 ms: {}", fraction(200));
}

#[test]
fn default_spring_completes_within_350ms_for_1000px() {
    let now = Instant::now();
    let spring = SpringAnimation::with_defaults(0.0, 1000.0, now);
    let done = completion_time(&spring, now);
    assert!(done <= ms(350), "completed after {done:?}");
    assert!((spring.value_at(now + done) - 1000.0).abs() < 0.5);
}

#[test]
fn default_spring_does_not_overshoot() {
    let now = Instant::now();
    for (from, to) in [(0.0, 1000.0), (1000.0, 0.0), (0.0, 5.0)] {
        let spring = SpringAnimation::with_defaults(from, to, now);
        let mut prev = from;
        for t in 0..=1000 {
            let val = spring.value_at(now + ms(t));
            assert!(
                (val - prev) * (to - from) >= 0.0,
                "{from}->{to}: moved backwards at {t} ms"
            );
            assert!(
                (to - val) * (to - from) >= 0.0,
                "{from}->{to}: overshot at {t} ms"
            );
            prev = val;
        }
    }
}

#[test]
fn retarget_keeps_velocity() {
    let now = Instant::now();
    let mut spring = SpringAnimation::with_defaults(0.0, 1000.0, now);
    let at = now + ms(60);
    let (val, vel) = (spring.value_at(at), spring.velocity_at(at));
    spring.retarget(2000.0, at);
    assert!((spring.value_at(at) - val).abs() < 1e-9);
    assert!((spring.velocity_at(at) - vel).abs() < 1e-6);
    assert!(vel > 1000.0);
}

#[test]
fn retarget_mid_animation_does_not_slow_down() {
    let now = Instant::now();
    let mut spring = SpringAnimation::with_defaults(0.0, 1000.0, now);
    let at = now + ms(80);
    spring.retarget(2000.0, at);
    let done = completion_time(&spring, at);
    assert!(done <= ms(350), "completed {done:?} after the retarget");
    let mut prev = spring.value_at(at);
    for t in 0..=1000 {
        let val = spring.value_at(at + ms(t));
        assert!(
            val >= prev && val <= 2000.0,
            "non-monotonic or overshoot at {t} ms"
        );
        prev = val;
    }
}

/// Largest distance the spring goes past `target` in the direction of
/// travel, sampled every millisecond for 1 s after `from`.
fn overshoot(spring: &SpringAnimation, from: Instant, target: f64, dir: f64) -> f64 {
    (0..=1000)
        .map(|t| (spring.value_at(from + ms(t)) - target) * dir)
        .fold(0.0, f64::max)
}

#[test]
fn retarget_in_the_opposite_direction_turns_around_smoothly() {
    let now = Instant::now();
    let mut spring = SpringAnimation::with_defaults(0.0, 1000.0, now);
    let at = now + ms(80);
    let turn_at = spring.value_at(at);
    spring.retarget(0.0, at);

    let mut prev = turn_at;
    let mut furthest = turn_at;
    for t in 1..=1000 {
        let val = spring.value_at(at + ms(t));
        assert!(val >= -1e-9, "went past the new target at {t} ms: {val}");
        assert!((val - prev).abs() < 30.0, "jumped {} pt at {t} ms", val - prev);
        furthest = furthest.max(val);
        prev = val;
    }
    // The spring keeps its momentum for a moment before turning around.
    assert!(
        furthest - turn_at < 0.05 * 1000.0,
        "kept going {} pt past the turn",
        furthest - turn_at
    );
    let done = completion_time(&spring, at);
    assert!(done <= ms(400), "completed {done:?} after the retarget");
}

#[test]
fn quick_back_and_forth_retargets_do_not_overshoot() {
    // Right, right, left: 0 -> 960 -> 1920 -> 960. The second press comes
    // `second` ms after the first, the third `back` ms after the second.
    // On the way back the target is still ahead of the moving spring.
    let mut overshoots = vec![];
    for (second, back) in [(30, 30), (50, 15), (50, 30), (80, 15)] {
        let now = Instant::now();
        let mut spring = SpringAnimation::with_defaults(0.0, 960.0, now);
        spring.retarget(1920.0, now + ms(second));
        let at = now + ms(second + back);
        let before = spring.value_at(at);
        spring.retarget(960.0, at);
        let dir = (960.0 - before).signum();
        let over = overshoot(&spring, at, 960.0, dir);
        if over >= 1.0 {
            overshoots.push(format!("+{second}/+{back} ms: {over:.0} pt from {before:.0}"));
        }
    }
    assert!(overshoots.is_empty(), "overshot 960: {overshoots:?}");
}

#[test]
fn retarget_to_a_nearer_target_ahead_approaches_as_fast_as_it_can_without_passing() {
    let now = Instant::now();
    let mut spring = SpringAnimation::with_defaults(0.0, 1920.0, now);
    let at = now + ms(40);
    let (val, vel) = (spring.value_at(at), spring.velocity_at(at));
    let target = val + 100.0;
    let fastest = spring.omega_n * 100.0;
    assert!(vel > fastest, "the cap must apply: {vel} <= {fastest}");

    spring.retarget(target, at);
    assert!((spring.value_at(at) - val).abs() < 1e-9, "position jumped");
    let capped = spring.velocity_at(at);
    assert!(
        (capped - fastest).abs() < 1e-6,
        "expected {fastest} pt/s toward the target, got {capped}"
    );
    let mut prev = val;
    for t in 1..=1000 {
        let v = spring.value_at(at + ms(t));
        assert!(
            v >= prev && v <= target,
            "non-monotonic or overshoot at {t} ms: {v}"
        );
        prev = v;
    }
    let done = completion_time(&spring, at);
    assert!(done <= ms(400), "completed {done:?} after the retarget");
}

#[test]
fn retarget_keeps_velocity_unless_it_would_pass_the_target() {
    let now = Instant::now();
    for retarget_after in (10..=300).step_by(10) {
        for new_target in [-960.0, 0.0, 1500.0, 1920.0, 5000.0] {
            let mut spring = SpringAnimation::with_defaults(0.0, 960.0, now);
            let at = now + ms(retarget_after);
            let (val, vel) = (spring.value_at(at), spring.velocity_at(at));
            spring.retarget(new_target, at);
            let remaining: f64 = new_target - val;
            let label = format!("+{retarget_after} ms -> {new_target}");
            assert!(
                (spring.value_at(at) - val).abs() < 1e-9,
                "{label}: position jumped"
            );
            let fastest = spring.omega_n * remaining.abs();
            let expected = if vel * remaining > 0.0 && vel.abs() > fastest {
                fastest * remaining.signum()
            } else {
                vel
            };
            assert!(
                (spring.velocity_at(at) - expected).abs() < 1e-6,
                "{label}: velocity {} != {expected} (was {vel})",
                spring.velocity_at(at)
            );
            if vel * remaining <= 0.0 || vel.abs() <= fastest {
                assert_eq!(expected, vel, "{label}: velocity changed needlessly");
            }
        }
    }
}

#[test]
fn retarget_forward_never_passes_the_new_target() {
    let now = Instant::now();
    for second in (5..=150).step_by(5) {
        for back in (5..=150).step_by(5) {
            let mut spring = SpringAnimation::with_defaults(0.0, 960.0, now);
            spring.retarget(1920.0, now + ms(second));
            let at = now + ms(second + back);
            let before = spring.value_at(at);
            spring.retarget(960.0, at);
            let dir = (960.0 - before).signum();
            let over = overshoot(&spring, at, 960.0, dir);
            assert!(over < 1.0, "+{second}/+{back} ms: {over:.1} pt past 960");
            let mut prev = before;
            for t in 1..=400 {
                let v = spring.value_at(at + ms(t));
                assert!((v - prev).abs() < 100.0, "+{second}/+{back}: jump at {t} ms");
                prev = v;
            }
            let done = completion_time(&spring, at);
            assert!(done <= ms(400), "+{second}/+{back}: completed after {done:?}");
        }
    }
}

#[test]
fn zero_distance_spring_completes_without_moving() {
    let now = Instant::now();
    let spring = SpringAnimation::with_defaults(500.0, 500.0, now);
    for t in 0..=100 {
        assert_eq!(spring.value_at(now + ms(t)), 500.0);
    }
    assert!(completion_time(&spring, now) <= ms(10));
}

#[test]
fn completion_time_stays_short_for_small_and_large_moves() {
    let now = Instant::now();
    for distance in [1.0, 10.0, 100.0, 1000.0, 3000.0] {
        let spring = SpringAnimation::with_defaults(0.0, distance, now);
        let done = completion_time(&spring, now);
        assert!(done <= ms(400), "{distance} pt: completed after {done:?}");
        assert!((spring.value_at(now + done) - distance).abs() < 0.5);
    }
}

#[test]
fn is_not_complete_while_passing_the_target_fast() {
    let now = Instant::now();
    // 100 pt short of the target and heading past it at 10000 pt/s.
    let spring = SpringAnimation::new(-100.0, 0.0, 10000.0, DEFAULT_RESPONSE, 1.0, now);
    let crossing = (100..=300)
        .map(|n| now + Duration::from_micros(n * 100))
        .find(|&t| spring.value_at(t).abs() < 0.5)
        .expect("the spring passes the target between 10 and 30 ms");
    assert!(spring.velocity_at(crossing).abs() > 1000.0);
    assert!(!spring.is_complete(crossing));
    assert!(spring.is_complete(now + ms(1000)));
}

#[test]
fn nan_target_does_not_panic() {
    let now = Instant::now();
    let mut spring = SpringAnimation::with_defaults(0.0, f64::NAN, now);
    let _ = spring.value_at(now + ms(50));
    let _ = spring.velocity_at(now + ms(50));
    let _ = spring.is_complete(now + ms(50));
    spring.retarget(100.0, now + ms(60));
    let _ = spring.current(now + ms(70));
}

#[test]
fn time_before_the_start_does_not_panic() {
    let now = Instant::now();
    let spring = SpringAnimation::with_defaults(0.0, 100.0, now + ms(50));
    assert_eq!(spring.value_at(now), 0.0);
    assert!(!spring.is_complete(now));
}

#[test]
fn default_spring_has_the_frequency_of_its_response() {
    assert_eq!(f64::from_bits(DEFAULT_OMEGA_BITS), 2.0 * std::f64::consts::PI / DEFAULT_RESPONSE);
    let now = Instant::now();
    let by_default = SpringAnimation::with_defaults(3.0, 7.0, now);
    let by_hand = SpringAnimation::new(3.0, 7.0, 0.0, DEFAULT_RESPONSE, 1.0, now);
    assert_eq!(by_default.inner, by_hand.inner);
}

#[test]
fn spring_is_complete_only_near_the_target_and_slow() {
    let spring = spring::SpringAnimation::with_defaults(number(0.0), number(100.0), 0);
    let at = |elapsed: f64, distance: f64, velocity: f64| {
        spring.is_complete(Progress {
            elapsed: number(elapsed),
            distance: number(distance),
            velocity: number(velocity),
        })
    };
    assert!(at(0.01, 0.49, -19.9));
    assert!(!at(0.009, 0.0, 0.0));
    assert!(!at(1.0, 0.5, 0.0));
    assert!(!at(1.0, -0.5, 0.0));
    assert!(!at(1.0, 0.0, 20.0));
    assert!(!at(1.0, f64::NAN, 0.0));
}

#[test]
fn short_way_is_not_scrolled() {
    let now = Instant::now();
    let mut vp = ViewportState::new(1000.0);
    vp.ensure_column_visible(3, 0.5, 1000.0, CenterMode::Always, 0.0, now);
    assert!(!vp.is_animating(now));
    assert_eq!(vp.inner.active_column_index, 3);
    vp.ensure_column_visible(4, 0.75, 1000.0, CenterMode::Always, 0.0, now);
    assert!(vp.is_animating(now));
    assert_eq!(vp.target_offset(), 0.75);
}

#[test]
fn wide_column_is_centered_on_overflow() {
    let now = Instant::now();
    let mut vp = ViewportState::new(1000.0);
    vp.ensure_column_visible(1, 2000.0, 1200.0, CenterMode::OnOverflow, 20.0, now);
    assert_eq!(vp.target_offset(), 2100.0);
    vp.ensure_column_visible(1, 5000.0, 800.0, CenterMode::OnOverflow, 20.0, now);
    assert_eq!(vp.target_offset(), 4820.0);
}

#[test]
fn mouse_wheels_have_no_phase() {
    assert_eq!(ScrollPhase::default(), ScrollPhase::NoPhase);
}
