use std::collections::BTreeMap;

use glide_core::animation::{Animation, Message, FRAMES, INTERVAL};
use glide_core::animation_manager::AnimationManager;
use glide_core::geometry::{Point, Rect, Size};
use glide_core::ids::WindowId;
use glide_core::number::Number;
use glide_core::request::{AppThreadHandle, Request, TransactionId};

fn number(value: f64) -> Number {
    Number::from_bits(value.to_bits())
}

fn value(number: Number) -> f64 {
    f64::from_bits(number.bits)
}

fn point(x: f64, y: f64) -> Point {
    Point { x: number(x), y: number(y) }
}

fn rect(origin_x: f64, origin_y: f64, width: f64, height: f64) -> Rect {
    Rect {
        origin: point(origin_x, origin_y),
        size: Size { width: number(width), height: number(height) },
    }
}

fn ease(t: f64) -> f64 {
    if t < 0.5 {
        (1.0 - f64::sqrt(1.0 - f64::powi(2.0 * t, 2))) / 2.0
    } else {
        (f64::sqrt(1.0 - f64::powi(-2.0 * t + 2.0, 2)) + 1.0) / 2.0
    }
}

fn get_frame(a: Rect, b: Rect, t: f64) -> Rect {
    let s = ease(t);
    let blend = |a: Number, b: Number| number((1.0 - s) * value(a) + s * value(b));
    Rect {
        origin: Point {
            x: blend(a.origin.x, b.origin.x),
            y: blend(a.origin.y, b.origin.y),
        },
        size: Size {
            width: blend(a.size.width, b.size.width),
            height: blend(a.size.height, b.size.height),
        },
    }
}

/// A manager whose requests are collected.
struct Manager {
    inner: AnimationManager,
    requests: Vec<Request>,
}

impl Manager {
    fn new() -> Manager {
        Manager { inner: AnimationManager::new(), requests: vec![] }
    }

    fn handle_message(&mut self, message: Message) -> Option<u64> {
        let step = self.inner.handle_message(message);
        self.requests.extend(step.sent.iter().map(|s| s.request));
        step.delay
    }

    fn tick(&mut self) -> Option<u64> {
        let t = self.inner.next_frame().map(|n| f64::from(n) / f64::from(FRAMES));
        let at = match (self.inner.active_windows(), t) {
            (Some(windows), Some(t)) => windows.iter().map(|w| get_frame(w.start, w.finish, t)).collect(),
            _ => vec![],
        };
        let step = self.inner.tick(at);
        self.requests.extend(step.sent.iter().map(|s| s.request));
        step.delay
    }

    fn collect(&mut self) -> Vec<Request> {
        std::mem::take(&mut self.requests)
    }
}

fn animation(handle: &AppThreadHandle, wid: WindowId, from: Rect, to: Rect) -> Animation {
    let mut animation = Animation::new();
    animation.add_window(handle, wid, from, to, false, TransactionId::default());
    animation
}

fn assert_set_window_frame(request: &Request, wid: WindowId, frame: Rect) {
    match request {
        Request::SetWindowFrame(req_wid, req_frame, txid) => {
            assert_eq!(*req_wid, wid);
            assert_eq!(*req_frame, frame);
            assert_eq!(*txid, TransactionId::default());
        }
        _ => panic!("expected SetWindowFrame, got {request:?}"),
    }
}

fn assert_animation_frame(request: &Request, wid: WindowId, frame: Rect) {
    match request {
        Request::AnimationFrame {
            wid: req_wid,
            frame: req_frame,
            set_size,
            txid,
        } => {
            assert_eq!(*req_wid, wid);
            assert_eq!(*req_frame, frame);
            assert!(*set_size, "expected a set_size frame");
            assert_eq!(*txid, TransactionId::default());
        }
        _ => panic!("expected AnimationFrame, got {request:?}"),
    }
}

fn assert_animation_pos(request: &Request, wid: WindowId, pos: Point) {
    match request {
        Request::AnimationFrame {
            wid: req_wid,
            frame,
            set_size,
            txid,
        } => {
            assert_eq!(*req_wid, wid);
            assert_eq!(frame.origin, pos);
            assert!(!*set_size, "expected a position-only frame");
            assert_eq!(*txid, TransactionId::default());
        }
        _ => panic!("expected AnimationFrame, got {request:?}"),
    }
}

#[test]
fn replacement_uses_last_animated_frame_for_continuing_windows() {
    let handle = AppThreadHandle { id: 1 };
    let wid = WindowId::new(1, 1);
    let first = animation(
        &handle,
        wid,
        rect(0.0, 0.0, 10.0, 10.0),
        rect(50.0, 60.0, 10.0, 10.0),
    );
    let second = animation(
        &handle,
        wid,
        rect(50.0, 60.0, 10.0, 10.0),
        rect(80.0, 90.0, 10.0, 10.0),
    );

    let mut manager = Manager::new();
    manager.handle_message(Message::Replace(first));
    assert!(matches!(
        manager.collect().as_slice(),
        [Request::BeginWindowAnimation(req_wid)] if *req_wid == wid
    ));

    manager.tick();
    let continuing_frame = manager.inner.current_frames().unwrap()[0].1;
    assert_animation_pos(&manager.collect()[0], wid, continuing_frame.origin);

    manager.handle_message(Message::Replace(second));
    assert!(manager.collect().is_empty());

    let resumed_start = manager.inner.active_windows().unwrap()[0].start;
    assert_eq!(resumed_start, continuing_frame);

    manager.tick();
    let expected_next = get_frame(resumed_start, rect(80.0, 90.0, 10.0, 10.0), 1.0 / 30.0);
    assert_animation_pos(&manager.collect()[0], wid, expected_next.origin);
}

fn animation_contains(manager: &Manager, wid: WindowId) -> bool {
    manager.inner.active_windows().is_some_and(|windows| windows.iter().any(|w| w.wid == wid))
}

#[test]
fn replacement_only_restarts_changed_windows() {
    let handle = AppThreadHandle { id: 1 };
    let wid1 = WindowId::new(1, 1);
    let wid2 = WindowId::new(1, 2);
    let wid3 = WindowId::new(1, 3);
    let mut first = Animation::new();
    first.add_window(
        &handle,
        wid1,
        rect(0.0, 0.0, 10.0, 10.0),
        rect(50.0, 60.0, 10.0, 10.0),
        false,
        TransactionId::default(),
    );
    first.add_window(
        &handle,
        wid2,
        rect(10.0, 0.0, 10.0, 10.0),
        rect(60.0, 60.0, 10.0, 10.0),
        false,
        TransactionId::default(),
    );
    let mut second = Animation::new();
    second.add_window(
        &handle,
        wid1,
        rect(50.0, 60.0, 10.0, 10.0),
        rect(80.0, 90.0, 10.0, 10.0),
        false,
        TransactionId::default(),
    );
    second.add_window(
        &handle,
        wid3,
        rect(20.0, 0.0, 10.0, 10.0),
        rect(90.0, 90.0, 10.0, 10.0),
        false,
        TransactionId::default(),
    );

    let mut manager = Manager::new();
    manager.handle_message(Message::Replace(first));
    assert_eq!(manager.collect().len(), 2);
    manager.handle_message(Message::Replace(second));

    // Only the brand-new window (wid3) is begun. The dropped window (wid2)
    // is carried over so it keeps animating toward its original destination
    // instead of jumping there.
    let requests = manager.collect();
    assert_eq!(requests.len(), 1);
    assert!(matches!(requests[0], Request::BeginWindowAnimation(req_wid) if req_wid == wid3));
    assert!(animation_contains(&manager, wid2));

    let carried = manager
        .inner
        .active_windows()
        .unwrap()
        .iter()
        .find(|w| w.wid == wid2)
        .unwrap();
    assert_eq!(carried.finish, rect(60.0, 60.0, 10.0, 10.0));
}

#[test]
fn skip_to_end_finishes_active_animation_and_applies_new_layout() {
    let handle = AppThreadHandle { id: 1 };
    let wid = WindowId::new(1, 1);
    let first = animation(
        &handle,
        wid,
        rect(0.0, 0.0, 10.0, 10.0),
        rect(50.0, 60.0, 10.0, 10.0),
    );
    let second = animation(
        &handle,
        wid,
        rect(50.0, 60.0, 10.0, 10.0),
        rect(80.0, 90.0, 10.0, 10.0),
    );

    let mut manager = Manager::new();
    manager.handle_message(Message::Replace(first));
    manager.handle_message(Message::SkipToEnd(second));

    let requests = manager.collect();
    assert_eq!(requests.len(), 4);
    assert!(matches!(requests[0], Request::BeginWindowAnimation(req_wid) if req_wid == wid));
    assert_animation_frame(&requests[1], wid, rect(50.0, 60.0, 10.0, 10.0));
    assert!(matches!(requests[2], Request::EndWindowAnimation(req_wid) if req_wid == wid));
    assert_set_window_frame(&requests[3], wid, rect(80.0, 90.0, 10.0, 10.0));
}

#[test]
fn scroll_frames_begin_each_window_once_and_end_all_of_them() {
    let handle = AppThreadHandle { id: 1 };
    let wid1 = WindowId::new(1, 1);
    let wid2 = WindowId::new(1, 2);
    let wid3 = WindowId::new(1, 3);
    let mut manager = Manager::new();

    let frame1 = rect(10.0, 0.0, 10.0, 10.0);
    manager.handle_message(Message::ScrollFrame(animation(
        &handle,
        wid1,
        rect(0.0, 0.0, 10.0, 10.0),
        frame1,
    )));
    let requests = manager.collect();
    assert_eq!(requests.len(), 2);
    assert!(matches!(requests[0], Request::BeginWindowAnimation(w) if w == wid1));
    assert_animation_pos(&requests[1], wid1, frame1.origin);

    let frame2 = rect(20.0, 0.0, 10.0, 10.0);
    manager.handle_message(Message::ScrollFrame(animation(&handle, wid1, frame1, frame2)));
    let requests = manager.collect();
    assert_eq!(requests.len(), 1);
    assert_animation_pos(&requests[0], wid1, frame2.origin);

    // wid2 moves on the last frame only; wid3 does not move at the end.
    let mut last = animation(&handle, wid1, frame2, rect(30.0, 0.0, 10.0, 10.0));
    last.add_window(
        &handle,
        wid2,
        rect(0.0, 20.0, 10.0, 10.0),
        rect(5.0, 20.0, 10.0, 10.0),
        false,
        TransactionId::default(),
    );
    manager.handle_message(Message::ScrollFrame(animation(
        &handle,
        wid3,
        rect(0.0, 40.0, 10.0, 10.0),
        rect(1.0, 40.0, 10.0, 10.0),
    )));
    manager.collect();
    manager.handle_message(Message::ScrollEnd(last));
    let requests = manager.collect();
    assert_eq!(requests.len(), 5, "{requests:?}");
    assert_set_window_frame(&requests[0], wid2, rect(5.0, 20.0, 10.0, 10.0));
    assert_animation_frame(&requests[1], wid1, rect(30.0, 0.0, 10.0, 10.0));
    assert!(matches!(requests[2], Request::EndWindowAnimation(w) if w == wid1));
    assert_animation_frame(&requests[3], wid3, rect(1.0, 40.0, 10.0, 10.0));
    assert!(matches!(requests[4], Request::EndWindowAnimation(w) if w == wid3));
    assert!(manager.inner.is_scroll_ended());
}

#[test]
fn scroll_window_frame_sets_the_final_frame_of_a_begun_window_only() {
    let handle = AppThreadHandle { id: 1 };
    let wid1 = WindowId::new(1, 1);
    let wid2 = WindowId::new(1, 2);
    let mut manager = Manager::new();
    manager.handle_message(Message::ScrollFrame(animation(
        &handle,
        wid1,
        rect(0.0, 0.0, 10.0, 10.0),
        rect(10.0, 0.0, 10.0, 10.0),
    )));
    manager.collect();

    let user_frame = rect(10.0, 0.0, 8.0, 10.0);
    manager.handle_message(Message::ScrollWindowFrame(wid1, user_frame));
    manager.handle_message(Message::ScrollWindowFrame(wid2, user_frame));
    assert!(manager.collect().is_empty());

    manager.handle_message(Message::ScrollEnd(Animation::new()));
    let requests = manager.collect();
    assert_eq!(requests.len(), 2, "{requests:?}");
    assert_animation_frame(&requests[0], wid1, user_frame);
    assert!(matches!(requests[1], Request::EndWindowAnimation(w) if w == wid1));
}

#[test]
fn layout_animation_ends_scroll_animation_first() {
    let handle = AppThreadHandle { id: 1 };
    let wid = WindowId::new(1, 1);
    let mut manager = Manager::new();
    manager.handle_message(Message::ScrollFrame(animation(
        &handle,
        wid,
        rect(0.0, 0.0, 10.0, 10.0),
        rect(10.0, 0.0, 10.0, 10.0),
    )));
    manager.collect();

    manager.handle_message(Message::Replace(animation(
        &handle,
        wid,
        rect(10.0, 0.0, 10.0, 10.0),
        rect(50.0, 0.0, 10.0, 10.0),
    )));
    let requests = manager.collect();
    assert_animation_frame(&requests[0], wid, rect(10.0, 0.0, 10.0, 10.0));
    assert!(matches!(requests[1], Request::EndWindowAnimation(w) if w == wid));
    assert!(matches!(requests[2], Request::BeginWindowAnimation(w) if w == wid));
}

#[test]
fn scroll_frame_finishes_layout_animation_first() {
    let handle = AppThreadHandle { id: 1 };
    let wid = WindowId::new(1, 1);
    let mut manager = Manager::new();
    manager.handle_message(Message::Replace(animation(
        &handle,
        wid,
        rect(0.0, 0.0, 10.0, 10.0),
        rect(50.0, 0.0, 10.0, 10.0),
    )));
    manager.collect();

    manager.handle_message(Message::ScrollFrame(animation(
        &handle,
        wid,
        rect(50.0, 0.0, 10.0, 10.0),
        rect(40.0, 0.0, 10.0, 10.0),
    )));
    let requests = manager.collect();
    assert_eq!(requests.len(), 4, "{requests:?}");
    assert_animation_frame(&requests[0], wid, rect(50.0, 0.0, 10.0, 10.0));
    assert!(matches!(requests[1], Request::EndWindowAnimation(w) if w == wid));
    assert!(matches!(requests[2], Request::BeginWindowAnimation(w) if w == wid));
    assert_animation_pos(&requests[3], wid, point(40.0, 0.0));
    assert!(!manager.inner.is_active());
}

/// The frame each window ends at, applying requests the way the app thread
/// does: EndWindowAnimation re-applies the last sized animation frame.
fn final_frames(requests: &[Request]) -> BTreeMap<WindowId, Rect> {
    let mut frames = BTreeMap::new();
    let mut last_sized = BTreeMap::new();
    for request in requests {
        match *request {
            Request::SetWindowFrame(wid, frame, _) => {
                frames.insert(wid, frame);
            }
            Request::AnimationFrame { wid, frame, set_size, .. } => {
                if set_size {
                    frames.insert(wid, frame);
                    last_sized.insert(wid, frame);
                } else {
                    frames.entry(wid).or_insert(frame).origin = frame.origin;
                }
            }
            Request::BeginWindowAnimation(wid) => {
                last_sized.remove(&wid);
            }
            Request::EndWindowAnimation(wid) => {
                if let Some(frame) = last_sized.remove(&wid) {
                    frames.insert(wid, frame);
                }
            }
            _ => {}
        }
    }
    frames
}

/// Three windows get a sized frame, then position-only frames. wid1 moves
/// until the end, wid2 parks early and wid3 stops moving before the last
/// frame.
fn scroll_with_sized_frames_mid_way(
    manager: &mut Manager,
    handle: &AppThreadHandle,
    wids: [WindowId; 3],
) -> BTreeMap<WindowId, Rect> {
    let mut last = BTreeMap::new();
    let mut frame = |wid: WindowId, x: f64, width: f64| {
        let finish = rect(x, 0.0, width, 10.0);
        last.insert(wid, finish);
        (wid, finish)
    };
    let steps: [&[(WindowId, Rect)]; 3] = [
        &[
            frame(wids[0], 100.0, 20.0),
            frame(wids[1], 200.0, 20.0),
            frame(wids[2], 300.0, 20.0),
        ],
        &[
            frame(wids[0], 90.0, 20.0),
            frame(wids[1], -20.0, 20.0),
            frame(wids[2], 290.0, 20.0),
        ],
        &[frame(wids[0], 80.0, 20.0)],
    ];
    for (i, step) in steps.into_iter().enumerate() {
        let mut animation = Animation::new();
        for &(wid, finish) in step {
            // The size changes on the first frame only.
            let start = if i == 0 {
                rect(0.0, 0.0, 10.0, 10.0)
            } else {
                finish
            };
            animation.add_window(handle, wid, start, finish, false, TransactionId::default());
        }
        manager.handle_message(Message::ScrollFrame(animation));
    }
    last
}

#[test]
fn scroll_end_leaves_every_window_at_its_last_frame() {
    let handle = AppThreadHandle { id: 1 };
    let wids = [
        WindowId::new(1, 1),
        WindowId::new(1, 2),
        WindowId::new(1, 3),
    ];
    let mut manager = Manager::new();
    let mut expected = scroll_with_sized_frames_mid_way(&mut manager, &handle, wids);

    let end_frame = rect(70.0, 0.0, 20.0, 10.0);
    manager.handle_message(Message::ScrollEnd(animation(
        &handle,
        wids[0],
        rect(80.0, 0.0, 20.0, 10.0),
        end_frame,
    )));
    expected.insert(wids[0], end_frame);
    let requests = manager.collect();
    assert_eq!(final_frames(&requests), expected);
    assert!(manager.inner.is_scroll_ended());
}

#[test]
fn empty_scroll_end_leaves_every_window_at_its_last_frame() {
    let handle = AppThreadHandle { id: 1 };
    let wids = [
        WindowId::new(1, 1),
        WindowId::new(1, 2),
        WindowId::new(1, 3),
    ];
    let mut manager = Manager::new();
    let expected = scroll_with_sized_frames_mid_way(&mut manager, &handle, wids);

    manager.handle_message(Message::ScrollEnd(Animation::new()));
    let requests = manager.collect();
    assert_eq!(final_frames(&requests), expected);
    let ended = requests.iter().filter(|r| matches!(r, Request::EndWindowAnimation(_))).count();
    assert_eq!(ended, 3);
}

fn scroll_frame(handle: &AppThreadHandle, frames: &[(WindowId, Rect, u32)]) -> Animation {
    let mut animation = Animation::new();
    for &(wid, finish, txid) in frames {
        animation.add_window(handle, wid, finish, finish, false, TransactionId(txid));
    }
    animation
}

/// The sized frame and txid each window gets right before its
/// EndWindowAnimation.
fn final_sized_frames(requests: &[Request]) -> BTreeMap<WindowId, (Rect, TransactionId)> {
    let mut result = BTreeMap::new();
    for pair in requests.windows(2) {
        if let [
            Request::AnimationFrame {
                wid,
                frame,
                set_size: true,
                txid,
            },
            Request::EndWindowAnimation(ended),
        ] = pair
        {
            if wid == ended {
                result.insert(*wid, (*frame, *txid));
            }
        }
    }
    result
}

#[test]
fn final_frame_carries_the_last_txid_of_each_window() {
    let handle = AppThreadHandle { id: 1 };
    let (w1, w2) = (WindowId::new(1, 1), WindowId::new(1, 2));
    let mut manager = Manager::new();
    manager.handle_message(Message::ScrollFrame(scroll_frame(
        &handle,
        &[
            (w1, rect(10.0, 0.0, 10.0, 10.0), 1),
            (w2, rect(20.0, 0.0, 10.0, 10.0), 1),
        ],
    )));
    manager.handle_message(Message::ScrollFrame(scroll_frame(
        &handle,
        &[
            (w1, rect(15.0, 0.0, 10.0, 10.0), 2),
            (w2, rect(25.0, 0.0, 10.0, 10.0), 2),
        ],
    )));
    manager.collect();
    manager.handle_message(Message::ScrollEnd(scroll_frame(
        &handle,
        &[(w1, rect(18.0, 0.0, 10.0, 10.0), 3)],
    )));
    let finals = final_sized_frames(&manager.collect());
    assert_eq!(
        finals,
        BTreeMap::from([
            (w1, (rect(18.0, 0.0, 10.0, 10.0), TransactionId(3))),
            (w2, (rect(25.0, 0.0, 10.0, 10.0), TransactionId(2))),
        ])
    );
}

#[test]
fn size_change_on_the_last_frame_is_the_final_frame() {
    let handle = AppThreadHandle { id: 1 };
    let wid = WindowId::new(1, 1);
    let mut manager = Manager::new();
    let mut all = vec![];
    for x in [100.0, 80.0, 70.0] {
        manager.handle_message(Message::ScrollFrame(scroll_frame(
            &handle,
            &[(wid, rect(x, 0.0, 20.0, 10.0), 1)],
        )));
        all.extend(manager.collect());
    }
    // The column is resized on the tick that ends the scroll.
    let resized = rect(65.0, 0.0, 40.0, 10.0);
    manager.handle_message(Message::ScrollEnd(animation(
        &handle,
        wid,
        rect(70.0, 0.0, 20.0, 10.0),
        resized,
    )));
    all.extend(manager.collect());
    assert_eq!(final_frames(&all), BTreeMap::from([(wid, resized)]));
    assert!(
        !all.iter().any(|r| matches!(r, Request::SetWindowFrame(..))),
        "{all:?}"
    );
}

#[test]
fn scroll_end_ends_each_window_once_and_writes_the_others() {
    let handle = AppThreadHandle { id: 1 };
    let [a, b, c] = [1, 2, 3].map(|idx| WindowId::new(1, idx));
    let at = |x| rect(x, 0.0, 10.0, 10.0);
    let mut manager = Manager::new();
    manager.handle_message(Message::ScrollFrame(scroll_frame(&handle, &[(b, at(20.0), 0), (a, at(10.0), 0)])));
    manager.collect();
    let mut last = animation(&handle, c, at(0.0), at(30.0));
    last.add_window(&handle, b, at(20.0), at(25.0), false, TransactionId::default());
    assert_eq!(manager.handle_message(Message::ScrollEnd(last)), None);
    let sent = manager.collect();
    assert_eq!(sent.len(), 5, "{sent:?}");
    assert_set_window_frame(&sent[0], c, at(30.0));
    assert_animation_frame(&sent[1], a, at(10.0));
    assert_eq!(sent[2], Request::EndWindowAnimation(a));
    assert_animation_frame(&sent[3], b, at(25.0));
    assert_eq!(sent[4], Request::EndWindowAnimation(b));
}

#[test]
fn second_scroll_end_in_a_row_ends_nothing_again() {
    let handle = AppThreadHandle { id: 1 };
    let wid = WindowId::new(1, 1);
    let mut manager = Manager::new();
    manager.handle_message(Message::ScrollFrame(scroll_frame(
        &handle,
        &[(wid, rect(10.0, 0.0, 10.0, 10.0), 1)],
    )));
    manager.handle_message(Message::ScrollEnd(Animation::new()));
    let first = manager.collect();
    assert_eq!(
        first.iter().filter(|r| matches!(r, Request::EndWindowAnimation(_))).count(),
        1
    );

    manager.handle_message(Message::ScrollEnd(Animation::new()));
    assert!(manager.collect().is_empty());

    // The window's animation has ended, so a frame for it in another
    // ScrollEnd is a plain write.
    let frame = rect(30.0, 0.0, 10.0, 10.0);
    manager.handle_message(Message::ScrollEnd(animation(
        &handle,
        wid,
        rect(10.0, 0.0, 10.0, 10.0),
        frame,
    )));
    let second = manager.collect();
    assert_eq!(second.len(), 1, "{second:?}");
    assert_set_window_frame(&second[0], wid, frame);
    assert!(manager.inner.is_scroll_ended());
}

#[test]
fn scroll_after_a_scroll_end_begins_the_window_again() {
    let handle = AppThreadHandle { id: 1 };
    let wid = WindowId::new(1, 1);
    let mut manager = Manager::new();
    let step = |manager: &mut Manager, x| {
        manager.handle_message(Message::ScrollFrame(scroll_frame(
            &handle,
            &[(wid, rect(x, 0.0, 10.0, 10.0), 1)],
        )));
    };
    step(&mut manager, 10.0);
    manager.handle_message(Message::ScrollEnd(Animation::new()));
    step(&mut manager, 20.0);
    manager.handle_message(Message::ScrollEnd(Animation::new()));
    let requests = manager.collect();
    let kinds = requests
        .iter()
        .map(|r| match r {
            Request::BeginWindowAnimation(_) => "begin",
            Request::AnimationFrame { set_size: false, .. } => "move",
            Request::AnimationFrame { set_size: true, .. } => "sized",
            Request::EndWindowAnimation(_) => "end",
            _ => "other",
        })
        .collect::<Vec<_>>();
    assert_eq!(
        kinds,
        [
            "begin", "move", "sized", "end", "begin", "move", "sized", "end"
        ]
    );
    assert_eq!(final_frames(&requests)[&wid], rect(20.0, 0.0, 10.0, 10.0));
}

#[test]
fn animation_ends_with_its_last_frame() {
    let handle = AppThreadHandle { id: 1 };
    let wid = WindowId::new(1, 1);
    let from = rect(0.0, 0.0, 10.0, 10.0);
    let to = rect(50.0, 60.0, 30.0, 20.0);
    let mut manager = Manager::new();
    assert_eq!(manager.handle_message(Message::Replace(animation(&handle, wid, from, to))), Some(INTERVAL));
    assert_eq!(INTERVAL, 10_000_000);
    manager.collect();
    let mut sized = vec![];
    for frame in 1..=30 {
        let delay = manager.tick();
        assert_eq!(delay.is_some(), frame < 30, "frame {frame}");
        for request in manager.collect() {
            if let Request::AnimationFrame { frame: at, set_size: true, .. } = request {
                assert_eq!(at.size, to.size);
                sized.push(frame);
            }
        }
        assert_eq!(manager.inner.is_active(), frame < 30);
    }
    assert_eq!(sized, [15, 30]);
    assert_eq!(manager.tick(), None);
    assert!(manager.collect().is_empty());
}

#[test]
fn focused_window_gets_its_size_first() {
    let handle = AppThreadHandle { id: 1 };
    let wid = WindowId::new(1, 1);
    let mut next = Animation::new();
    next.add_window(
        &handle,
        wid,
        rect(0.0, 5.0, 10.0, 10.0),
        rect(50.0, 60.0, 30.0, 20.0),
        true,
        TransactionId::default(),
    );
    let mut manager = Manager::new();
    manager.handle_message(Message::Replace(next));
    let requests = manager.collect();
    assert_eq!(requests.len(), 2);
    assert_eq!(requests[0], Request::BeginWindowAnimation(wid));
    assert_animation_frame(&requests[1], wid, rect(0.0, 5.0, 30.0, 20.0));
}

#[test]
fn empty_animation_is_not_run() {
    let mut manager = Manager::new();
    assert_eq!(manager.handle_message(Message::Replace(Animation::new())), None);
    assert!(!manager.inner.is_active());
    assert!(manager.collect().is_empty());
}

#[test]
fn shutting_down_ends_every_animation() {
    let handle = AppThreadHandle { id: 1 };
    let wid = WindowId::new(1, 1);
    let to = rect(50.0, 60.0, 10.0, 10.0);
    let mut manager = Manager::new();
    manager.handle_message(Message::Replace(animation(&handle, wid, rect(0.0, 0.0, 10.0, 10.0), to)));
    let sent: Vec<Request> = manager.inner.shut_down().iter().map(|s| s.request).collect();
    assert_eq!(sent.len(), 2);
    assert_animation_frame(&sent[0], wid, to);
    assert_eq!(sent[1], Request::EndWindowAnimation(wid));
    assert!(!manager.inner.is_active());
}

#[test]
fn skipping_an_animation_writes_every_final_frame() {
    let handle = AppThreadHandle { id: 4 };
    let wid = WindowId::new(1, 1);
    let to = rect(50.0, 60.0, 10.0, 10.0);
    let next = animation(&handle, wid, rect(0.0, 0.0, 10.0, 10.0), to);
    assert!(!next.is_empty());
    let sent = next.skip_to_end();
    assert_eq!(sent.len(), 1);
    assert_eq!(sent[0].handle, handle);
    assert_set_window_frame(&sent[0].request, wid, to);
}
