use glide_core::apps::{is_listed, window_info, AppInfo, ProcessInfo, ReadError, WindowAttributes, XPC_TYPE};
use glide_core::geometry::{Measurements, Overlap, Point, Rect, Size};
use glide_core::ids::{WindowId, WindowServerId};
use glide_core::names::NameMap;
use glide_core::number::Number;
use glide_core::ordered::OrdMap;
use glide_core::text::{comes_before, contains_text, equal_but_for_case, same_text};

fn number(value: f64) -> Number {
    Number::from_bits(value.to_bits())
}

fn rect(x: f64, y: f64, width: f64, height: f64) -> Rect {
    Rect {
        origin: Point { x: number(x), y: number(y) },
        size: Size { width: number(width), height: number(height) },
    }
}

fn attributes() -> WindowAttributes {
    WindowAttributes {
        role: Ok("AXWindow".to_string()),
        subrole: Ok("AXStandardWindow".to_string()),
        title: Ok("Notes".to_string()),
        frame: Ok(rect(1.0, 2.0, 3.0, 4.0)),
        sys_id: Some(WindowServerId::new(7)),
        is_resizable: Ok(true),
    }
}

#[test]
fn window_is_read_from_its_attributes() {
    let info = window_info(attributes()).unwrap();
    assert!(info.is_standard);
    assert_eq!(info.title.expose_secret(), "Notes");
    assert_eq!(info.frame, rect(1.0, 2.0, 3.0, 4.0));
    assert_eq!(info.sys_id, Some(WindowServerId::new(7)));
    assert!(info.is_resizable);
    assert_eq!(info.ax_role, "AXWindow");
    assert_eq!(info.ax_subrole.as_deref(), Some("AXStandardWindow"));
    assert!(!format!("{info:?}").contains("Notes"), "titles are kept out of logs");
}

#[test]
fn window_without_a_subrole_is_not_standard() {
    for error in [ReadError::NoValue, ReadError::AttributeUnsupported] {
        let info = window_info(WindowAttributes { subrole: Err(error), ..attributes() }).unwrap();
        assert!(!info.is_standard);
        assert_eq!(info.ax_subrole, None);
    }
    let dialog = WindowAttributes { subrole: Ok("AXDialog".to_string()), ..attributes() };
    assert!(!window_info(dialog).unwrap().is_standard);
    let sheet = WindowAttributes { role: Ok("AXSheet".to_string()), ..attributes() };
    assert!(!window_info(sheet).unwrap().is_standard);
}

#[test]
fn missing_attributes_are_reported_in_order() {
    let error = |attributes| window_info(attributes).map(|_| ()).unwrap_err();
    let all = WindowAttributes {
        role: Err(ReadError::Other(1)),
        subrole: Err(ReadError::Other(2)),
        title: Err(ReadError::Other(3)),
        frame: Err(ReadError::Other(4)),
        sys_id: None,
        is_resizable: Err(ReadError::Other(5)),
    };
    assert_eq!(error(all), ReadError::Other(1));
    assert_eq!(error(WindowAttributes { subrole: Err(ReadError::Other(2)), ..attributes() }), ReadError::Other(2));
    assert_eq!(error(WindowAttributes { frame: Err(ReadError::NoValue), ..attributes() }), ReadError::NoValue);
    let fixed = WindowAttributes { is_resizable: Err(ReadError::AttributeUnsupported), ..attributes() };
    assert_eq!(error(fixed), ReadError::AttributeUnsupported);
}

#[test]
fn window_without_a_title_has_an_empty_one() {
    let info = window_info(WindowAttributes { title: Err(ReadError::Other(3)), ..attributes() }).unwrap();
    assert_eq!(info.title.expose_secret(), "");
}

#[test]
fn apps_are_shown_by_default() {
    let info = AppInfo::default();
    assert!(!info.is_hidden);
    assert_eq!(info.bundle_id, None);
    assert_eq!(info.localized_name, None);
}

#[test]
fn apps_are_listed_by_their_bundle_id() {
    let id = Some("com.apple.Finder".to_string());
    assert!(is_listed(&id, &None));
    assert!(is_listed(&id, &Some("apple".to_string())));
    assert!(is_listed(&id, &Some(String::new())));
    assert!(!is_listed(&id, &Some("Apple".to_string())));
    assert!(!is_listed(&None, &None));
    assert!(!is_listed(&None, &Some(String::new())));
}

#[test]
fn xpc_services_have_their_own_type() {
    assert_eq!(XPC_TYPE, u32::from_be_bytes(*b"XPC!"));
    assert!(ProcessInfo::for_type(XPC_TYPE).is_xpc);
    assert!(!ProcessInfo::for_type(u32::from_be_bytes(*b"APPL")).is_xpc);
}

#[test]
fn maps_keep_their_keys_in_order() {
    let mut map = OrdMap::new();
    let wids = [WindowId::new(2, 1), WindowId::new(-3, 9), WindowId::new(2, 0), WindowId::new(1, 5)];
    for (i, wid) in wids.into_iter().enumerate() {
        assert_eq!(map.insert(wid, i), None);
    }
    assert_eq!(map.insert(wids[0], 10), Some(0));
    let mut sorted = wids.to_vec();
    sorted.sort();
    assert_eq!(map.keys(), sorted);
    assert_eq!(map.len(), 4);
    if let Some(v) = map.get_mut(wids[1]) {
        *v = 11;
    }
    assert_eq!(map.get(wids[1]), Some(&11));
    assert_eq!(map.remove(wids[1]), Some(11));
    assert!(!map.contains(wids[1]));
    assert_eq!(map.remove(wids[1]), None);
}

#[test]
fn names_are_found_exactly() {
    let mut names = NameMap::new();
    assert_eq!(names.insert("k", 1), None);
    assert_eq!(names.insert("\u{e9}", 2), None);
    assert_eq!(names.insert("k", 3), Some(1));
    assert_eq!(names.get("k"), Some(&3));
    assert_eq!(names.get("K"), None);
    assert_eq!(names.remove("\u{e9}"), Some(2));
    assert!(!names.contains("\u{e9}"));
}

#[test]
fn texts_are_compared_like_strings() {
    let texts = ["", "a", "ab", "b", "B", "\u{e9}", "\u{1f600}", "\u{ffff}", "a\u{0}"];
    for a in texts {
        for b in texts {
            assert_eq!(same_text(a, b), a == b, "{a:?} {b:?}");
            assert_eq!(comes_before(a, b), a < b, "{a:?} {b:?}");
            assert_eq!(equal_but_for_case(a, b), a.eq_ignore_ascii_case(b), "{a:?} {b:?}");
            assert_eq!(contains_text(a, b), a.contains(b), "{a:?} {b:?}");
        }
    }
    assert!(equal_but_for_case("com.Example.K", "COM.example.k"));
    assert!(!equal_but_for_case("\u{e9}", "\u{c9}"));
}

#[test]
fn numbers_are_compared_like_doubles() {
    let values = [
        f64::NEG_INFINITY,
        -1.5,
        -f64::MIN_POSITIVE,
        -0.0,
        0.0,
        5e-324,
        0.5,
        f64::MAX,
        f64::INFINITY,
        f64::NAN,
        -f64::NAN,
    ];
    for a in values {
        assert_eq!(number(a).is_nan(), a.is_nan());
        assert_eq!(number(a).abs().bits, a.abs().to_bits());
        for b in values {
            assert_eq!(number(a).same_value(number(b)), a == b, "{a} {b}");
            assert_eq!(number(a).is_less(number(b)), a < b, "{a} {b}");
            assert_eq!(number(a).is_at_most(number(b)), a <= b, "{a} {b}");
        }
    }
}

#[test]
fn rects_are_compared_by_value() {
    assert!(rect(0.0, 1.0, 2.0, 3.0).same_rect(rect(-0.0, 1.0, 2.0, 3.0)));
    assert!(!rect(0.0, 1.0, 2.0, 3.0).same_rect(rect(0.0, 1.0, 2.0, 4.0)));
    assert!(!rect(f64::NAN, 1.0, 2.0, 3.0).same_rect(rect(f64::NAN, 1.0, 2.0, 3.0)));
}

#[test]
fn measurements_are_looked_up_by_screen_and_frame() {
    let (screen, frame) = (rect(0.0, 0.0, 10.0, 10.0), rect(5.0, 5.0, 10.0, 10.0));
    let overlap = Overlap { area: number(25.0), visible: true, holds_middle: true };
    let mut measurements = Measurements::new();
    measurements.record(screen, frame, overlap);
    assert_eq!(measurements.overlap(screen, frame), overlap);
    let none = Overlap { area: number(0.0), visible: false, holds_middle: false };
    assert_eq!(measurements.overlap(frame, screen), none);
}
