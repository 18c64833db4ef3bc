use glide_core::ids::WindowId;
use glide_core::number::Number;
use glide_core::scratchpad::{FractionalRect, ScratchpadAction, ScratchpadWindowState, Scratchpads};

fn number(value: f64) -> Number {
    Number::from_bits(value.to_bits())
}

fn value(number: Number) -> f64 {
    f64::from_bits(number.bits)
}

fn frac(x: f64, y: f64, width: f64, height: f64) -> FractionalRect {
    FractionalRect {
        x: number(x),
        y: number(y),
        width: number(width),
        height: number(height),
    }
}

fn validated(r: FractionalRect) -> FractionalRect {
    let max_x = number(1.0 - value(r.valid_width()));
    let max_y = number(1.0 - value(r.valid_height()));
    r.validated(max_x, max_y)
}

fn state(app_hidden: bool, focused: bool, on_active_space: bool) -> ScratchpadWindowState {
    ScratchpadWindowState {
        app_hidden,
        focused,
        on_active_space,
    }
}

const L: Option<&str> = Some("com.example.app");

const VISIBLE: ScratchpadWindowState = ScratchpadWindowState {
    app_hidden: false,
    focused: true,
    on_active_space: true,
};

#[test]
fn validated_keeps_valid_rect() {
    assert_eq!(validated(FractionalRect::default_frame()), FractionalRect::default_frame());
}

#[test]
fn validated_clamps_out_of_bounds() {
    let r = validated(frac(-0.5, 0.9, 2.0, 0.5));
    assert_eq!(
        r,
        frac(0.0, 0.5, 1.0, 0.5)
    );

    let r = validated(frac(1.5, 0.0, 0.0, -1.0));
    assert_eq!(
        r,
        frac(0.95, 0.0, 0.05, 0.05)
    );
}

#[test]
fn validated_replaces_nan() {
    let r = validated(frac(f64::NAN, f64::NAN, f64::NAN, f64::NAN));
    assert_eq!(
        r,
        frac(0.0, 0.0, 0.05, 0.05)
    );
}

#[test]
fn toggle_without_window_launches_and_shows_once() {
    let mut s = Scratchpads::default();
    assert_eq!(s.toggle("k", L, |_| unreachable!()), ScratchpadAction::Launch);
    assert!(s.take_pending_show("k"));
    assert!(!s.take_pending_show("k"));
    assert!(!s.take_pending_show("other"));
}

#[test]
fn toggle_hides_visible_focused_window() {
    let mut s = Scratchpads::default();
    let wid = WindowId::new(1, 1);
    s.register("k", wid, FractionalRect::default_frame());
    assert_eq!(s.toggle("k", L, |_| VISIBLE), ScratchpadAction::Hide(wid));
    assert!(!s.take_pending_show("k"));
}

#[test]
fn toggle_shows_when_any_condition_is_false() {
    let mut s = Scratchpads::default();
    let wid = WindowId::new(1, 1);
    s.register("k", wid, FractionalRect::default_frame());
    for st in [
        state(true, true, true),
        state(false, false, true),
        state(false, true, false),
    ] {
        assert_eq!(
            s.toggle("k", L, |w| {
                assert_eq!(w, wid);
                st
            }),
            ScratchpadAction::Show(wid),
            "{st:?}"
        );
    }
}

#[test]
fn register_does_not_replace_live_window() {
    let mut s = Scratchpads::default();
    let a = WindowId::new(1, 1);
    let b = WindowId::new(1, 2);
    let frame = frac(0.0, 0.0, 0.5, 0.5);
    assert!(s.register("k", a, FractionalRect::default_frame()));
    assert!(!s.register("k", b, frame));
    assert_eq!(s.window("k"), Some((a, FractionalRect::default_frame())));
    assert!(!s.is_scratchpad(b));

    // Re-registering the same window updates its frame.
    assert!(s.register("k", a, frame));
    assert_eq!(s.window("k"), Some((a, frame)));
}

#[test]
fn register_moves_window_to_new_name() {
    let mut s = Scratchpads::default();
    let a = WindowId::new(1, 1);
    assert!(s.register("k", a, FractionalRect::default_frame()));
    assert!(s.register("j", a, FractionalRect::default_frame()));
    assert_eq!(s.name_of(a), Some("j"));
    assert_eq!(s.window("k"), None);
}

#[test]
fn remove_window_forgets_it() {
    let mut s = Scratchpads::default();
    let a = WindowId::new(1, 1);
    let b = WindowId::new(1, 2);
    s.register("k", a, FractionalRect::default_frame());
    assert_eq!(s.remove_window(b), None);
    assert_eq!(s.remove_window(a), Some("k".to_owned()));
    assert!(!s.is_scratchpad(a));
    assert_eq!(s.window("k"), None);
    assert_eq!(s.remove_window(a), None);

    // The name is free for a new window.
    assert!(s.register("k", b, FractionalRect::default_frame()));
    assert_eq!(s.toggle("k", L, |_| VISIBLE), ScratchpadAction::Hide(b));
}

#[test]
fn remove_app_forgets_only_its_windows() {
    let mut s = Scratchpads::default();
    let a = WindowId::new(1, 1);
    let b = WindowId::new(2, 1);
    s.register("k", a, FractionalRect::default_frame());
    s.register("j", b, FractionalRect::default_frame());
    s.remove_app(1);
    assert_eq!(s.window("k"), None);
    assert_eq!(s.name_of(a), None);
    assert_eq!(s.window("j"), Some((b, FractionalRect::default_frame())));
    assert_eq!(s.toggle("k", L, |_| VISIBLE), ScratchpadAction::Launch);
}

#[test]
fn validated_clamps_infinities() {
    assert_eq!(
        validated(frac(f64::INFINITY, f64::NEG_INFINITY, f64::INFINITY, f64::NEG_INFINITY)),
        frac(0.0, 0.0, 1.0, 0.05)
    );
    assert_eq!(
        validated(frac(f64::NEG_INFINITY, f64::INFINITY, 0.5, 0.5)),
        frac(0.0, 0.5, 0.5, 0.5)
    );
}

#[test]
fn validated_keeps_values_on_the_bounds() {
    let r = frac(0.95, 0.0, 0.05, 1.0);
    assert_eq!(validated(r), r);
}

#[test]
fn toggle_hides_only_when_all_conditions_hold() {
    let mut s = Scratchpads::default();
    let wid = WindowId::new(1, 1);
    s.register("k", wid, FractionalRect::default_frame());
    for app_hidden in [false, true] {
        for focused in [false, true] {
            for on_active_space in [false, true] {
                let st = state(app_hidden, focused, on_active_space);
                let expected = if st == VISIBLE {
                    ScratchpadAction::Hide(wid)
                } else {
                    ScratchpadAction::Show(wid)
                };
                assert_eq!(s.toggle("k", L, |_| st), expected, "{st:?}");
            }
        }
    }
    assert!(!s.take_pending_show("k"));
}

#[test]
fn toggle_with_window_does_not_request_pending_show() {
    let mut s = Scratchpads::default();
    let wid = WindowId::new(1, 1);
    s.register("k", wid, FractionalRect::default_frame());
    assert_eq!(
        s.toggle("k", L, |_| state(true, false, false)),
        ScratchpadAction::Show(wid)
    );
    assert!(!s.take_pending_show("k"));
}

#[test]
fn toggle_uses_the_window_registered_under_that_name() {
    let mut s = Scratchpads::default();
    let a = WindowId::new(1, 1);
    let b = WindowId::new(2, 1);
    s.register("k", a, FractionalRect::default_frame());
    s.register("j", b, FractionalRect::default_frame());
    let hidden_only_a = |w: WindowId| state(w == a, true, true);
    assert_eq!(s.toggle("k", L, hidden_only_a), ScratchpadAction::Show(a));
    assert_eq!(s.toggle("j", L, hidden_only_a), ScratchpadAction::Hide(b));
}

#[test]
fn repeated_launch_keeps_a_single_pending_show_per_name() {
    let mut s = Scratchpads::default();
    assert_eq!(s.toggle("k", L, |_| unreachable!()), ScratchpadAction::Launch);
    assert_eq!(s.toggle("k", L, |_| unreachable!()), ScratchpadAction::Launch);
    assert!(!s.take_pending_show("j"));
    assert!(s.take_pending_show("k"));
    assert!(!s.take_pending_show("k"));
}

#[test]
fn pending_show_survives_window_registration() {
    let mut s = Scratchpads::default();
    let wid = WindowId::new(1, 1);
    assert_eq!(s.toggle("k", L, |_| unreachable!()), ScratchpadAction::Launch);
    assert!(s.register("k", wid, FractionalRect::default_frame()));
    assert!(s.take_pending_show("k"));
    assert_eq!(s.toggle("k", L, |_| VISIBLE), ScratchpadAction::Hide(wid));
}

#[test]
fn registering_the_same_window_twice_keeps_one_entry() {
    let mut s = Scratchpads::default();
    let a = WindowId::new(1, 1);
    assert!(s.register("k", a, FractionalRect::default_frame()));
    assert!(s.register("k", a, FractionalRect::default_frame()));
    assert_eq!(s.name_of(a), Some("k"));
    assert_eq!(s.remove_window(a), Some("k".to_owned()));
    assert!(!s.is_scratchpad(a));
    assert_eq!(s.window("k"), None);
}

#[test]
fn register_under_occupied_name_keeps_window_under_old_name() {
    let mut s = Scratchpads::default();
    let a = WindowId::new(1, 1);
    let b = WindowId::new(1, 2);
    assert!(s.register("k", a, FractionalRect::default_frame()));
    assert!(s.register("j", b, FractionalRect::default_frame()));
    assert!(!s.register("j", a, FractionalRect::default_frame()));
    assert_eq!(s.name_of(a), Some("k"));
    assert_eq!(s.window("j"), Some((b, FractionalRect::default_frame())));
}

#[test]
fn remove_unknown_window_or_app_changes_nothing() {
    let mut s = Scratchpads::default();
    assert_eq!(s.remove_window(WindowId::new(1, 1)), None);
    s.remove_app(1);

    let a = WindowId::new(1, 1);
    s.register("k", a, FractionalRect::default_frame());
    assert_eq!(s.remove_window(WindowId::new(2, 1)), None);
    assert_eq!(s.remove_window(WindowId::new(1, 2)), None);
    s.remove_app(2);
    assert_eq!(s.window("k"), Some((a, FractionalRect::default_frame())));
    assert!(s.is_scratchpad(a));
}

#[test]
fn retain_names_forgets_windows_and_pending_shows_of_other_names() {
    let mut s = Scratchpads::default();
    let a = WindowId::new(1, 1);
    let b = WindowId::new(2, 1);
    s.register("k", a, FractionalRect::default_frame());
    s.register("j", b, FractionalRect::default_frame());
    assert_eq!(s.toggle("l", L, |_| unreachable!()), ScratchpadAction::Launch);
    assert_eq!(s.toggle("m", L, |_| unreachable!()), ScratchpadAction::Launch);
    s.retain_names(|name| name == "j" || name == "m");
    assert!(!s.is_scratchpad(a));
    assert_eq!(s.window("j"), Some((b, FractionalRect::default_frame())));
    assert!(!s.take_pending_show("l"));
    assert!(s.take_pending_show("m"));
}

#[test]
fn toggle_without_launch_leaves_no_pending_show() {
    let mut s = Scratchpads::default();
    assert_eq!(s.toggle("k", L, |_| unreachable!()), ScratchpadAction::Launch);
    assert_eq!(s.toggle("k", None, |_| unreachable!()), ScratchpadAction::Launch);
    assert_eq!(s.pending_show("k"), None);
    assert!(!s.take_pending_show("k"));
}

#[test]
fn cancelling_a_pending_show_keeps_a_later_launch() {
    let mut s = Scratchpads::default();
    s.toggle("k", L, |_| unreachable!());
    let first = s.pending_show("k").unwrap();
    s.toggle("k", L, |_| unreachable!());
    let second = s.pending_show("k").unwrap();
    assert_ne!(first, second);
    assert_eq!(s.cancel_pending_show(first), None);
    assert_eq!(s.pending_show("k"), Some(second));
    assert_eq!(s.cancel_pending_show(second), Some("k".to_owned()));
    assert_eq!(s.pending_show("k"), None);
    assert!(!s.take_pending_show("k"));
}

#[test]
fn cancelling_a_taken_show_does_nothing() {
    let mut s = Scratchpads::default();
    s.toggle("k", L, |_| unreachable!());
    let id = s.pending_show("k").unwrap();
    assert!(s.take_pending_show("k"));
    assert_eq!(s.cancel_pending_show(id), None);
}

#[test]
fn closed_app_cancels_only_its_pending_shows() {
    let mut s = Scratchpads::default();
    s.toggle("k", Some("com.Example.K"), |_| unreachable!());
    s.toggle("j", Some("com.example.j"), |_| unreachable!());
    s.cancel_pending_shows_for_app("com.example.k");
    assert_eq!(s.pending_show("k"), None);
    assert!(s.pending_show("j").is_some());
}

#[test]
fn remove_app_forgets_every_window_of_the_app() {
    let mut s = Scratchpads::default();
    let a = WindowId::new(1, 1);
    let b = WindowId::new(1, 2);
    s.register("k", a, FractionalRect::default_frame());
    s.register("j", b, FractionalRect::default_frame());
    s.remove_app(1);
    assert!(!s.is_scratchpad(a));
    assert!(!s.is_scratchpad(b));
    assert_eq!(s.window("j"), None);
}

#[test]
fn validated_rect_always_fits_the_screen() {
    let values = [
        f64::NEG_INFINITY,
        -1.0,
        -0.0,
        0.0,
        0.03,
        0.05,
        0.5,
        0.95,
        1.0,
        2.0,
        f64::INFINITY,
        f64::NAN,
    ];
    for &x in &values {
        for &y in &values {
            for &width in &values {
                for &height in &values {
                    let v = validated(frac(x, y, width, height));
                    let (rx, ry, rw, rh) = (value(v.x), value(v.y), value(v.width), value(v.height));
                    let ctx = || format!("{:?} -> {v:?}", frac(x, y, width, height));
                    assert!((0.05..=1.0).contains(&rw), "{}", ctx());
                    assert!((0.05..=1.0).contains(&rh), "{}", ctx());
                    assert!(rx >= 0.0 && rx + rw <= 1.0, "{}", ctx());
                    assert!(ry >= 0.0 && ry + rh <= 1.0, "{}", ctx());
                    assert_eq!(validated(v), v, "not idempotent: {}", ctx());
                }
            }
        }
    }
}

#[test]
fn names_are_compared_exactly() {
    let mut s = Scratchpads::default();
    let a = WindowId::new(1, 1);
    assert!(s.register("k", a, FractionalRect::default_frame()));
    assert_eq!(s.window("K"), None);
    assert_eq!(s.window(""), None);
    assert_eq!(s.name_of(a), Some("k"));
}

#[test]
fn default_frame_leaves_a_tenth_on_each_side() {
    assert_eq!(FractionalRect::default_frame(), frac(0.1, 0.1, 0.8, 0.8));
}

#[test]
fn launch_numbers_rise() {
    let mut s = Scratchpads::default();
    s.toggle("k", L, |_| unreachable!());
    s.toggle("j", L, |_| unreachable!());
    let k = s.pending_show("k").unwrap();
    let j = s.pending_show("j").unwrap();
    assert!(k.0 < j.0);
}
