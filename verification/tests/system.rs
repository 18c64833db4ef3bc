use glide_core::events::{Event, SpaceMoveId};
use glide_core::ids::{Pid, WindowId, WindowServerId};
use glide_core::launch::{launch_app_then, Launch, LaunchError, Launching, OnExit};
use glide_core::scratchpad::{PendingShowId, Scratchpads};
use glide_core::space::{SpaceId, SpaceMoveError};
use glide_core::system::{
    launch_finished, launch_started, may_move, move_started, Deadlines, DelayKey, DelayedEvent, NoSystem,
    SystemActions, SCRATCHPAD_SHOW_TIMEOUT, SPACE_MOVE_TIMEOUT,
};

const MS: u64 = 1_000_000;

fn show_id(event: &Event) -> PendingShowId {
    match event {
        Event::ScratchpadShowExpired(id) => *id,
        _ => panic!("unexpected event {event:?}"),
    }
}

fn shows(events: &[Event]) -> Vec<PendingShowId> {
    events.iter().map(show_id).collect()
}

fn pending_ids(count: usize) -> Vec<PendingShowId> {
    let mut scratchpads = Scratchpads::default();
    (0..count)
        .map(|_| {
            _ = scratchpads.toggle("k", Some("com.example"), |_| unreachable!());
            scratchpads.pending_show("k").unwrap()
        })
        .collect()
}

fn delayed(name: &str, delay_ms: u64, id: PendingShowId) -> DelayedEvent {
    DelayedEvent {
        key: DelayKey::ScratchpadShow(name.into()),
        delay: delay_ms * MS,
        event: Event::ScratchpadShowExpired(id),
    }
}

/// Some time after the start of the clock.
const START: u64 = 7_000 * MS;

#[test]
fn deadlines_keep_the_last_event_per_key() {
    let ids = pending_ids(101);
    let mut deadlines = Deadlines::default();
    for (i, &id) in ids[..100].iter().enumerate() {
        deadlines.insert(START + i as u64 * MS, delayed("k", 10, id));
    }
    deadlines.insert(START, delayed("other", 50, ids[100]));
    assert_eq!(deadlines.next(), Some(START + 50 * MS));

    assert!(deadlines.take_due(START + 49 * MS).is_empty());
    let due = deadlines.take_due(START + 109 * MS);
    assert_eq!(due.len(), 2);
    assert_eq!(shows(&due), [ids[99], ids[100]]);
    assert_eq!(deadlines.next(), None);
    assert!(deadlines.take_due(START + 60_000 * MS).is_empty());
}

#[test]
fn a_later_event_for_a_key_replaces_an_earlier_deadline_either_way() {
    let ids = pending_ids(3);
    let mut deadlines = Deadlines::default();
    deadlines.insert(START, delayed("k", 100, ids[0]));
    // A shorter delay for the same key moves the deadline earlier.
    deadlines.insert(START, delayed("k", 10, ids[1]));
    assert_eq!(deadlines.next(), Some(START + 10 * MS));
    // And a longer one moves it later.
    deadlines.insert(START, delayed("k", 200, ids[2]));
    assert_eq!(deadlines.next(), Some(START + 200 * MS));
    assert!(deadlines.take_due(START + 199 * MS).is_empty());
    assert_eq!(shows(&deadlines.take_due(START + 200 * MS)), [ids[2]]);
}

#[test]
fn show_and_move_keys_do_not_replace_each_other() {
    let [id] = pending_ids(1)[..] else { unreachable!() };
    let mut deadlines = Deadlines::default();
    let wid = WindowId::new(2, 1);
    let moved = |move_id| DelayedEvent {
        key: DelayKey::SpaceMove(wid),
        delay: 5 * MS,
        event: Event::ScratchpadMoveEnded(SpaceMoveId(move_id)),
    };
    deadlines.insert(START, moved(1));
    deadlines.insert(START, delayed("k", 5, id));
    deadlines.insert(START, moved(2));
    deadlines.insert(
        START,
        DelayedEvent {
            key: DelayKey::SpaceMove(WindowId::new(2, 2)),
            delay: 20 * MS,
            event: Event::ScratchpadMoveEnded(SpaceMoveId(3)),
        },
    );
    let due = deadlines.take_due(START + 5 * MS);
    assert_eq!(due.len(), 2, "{due:?}");
    assert!(due.iter().any(|e| matches!(e, Event::ScratchpadShowExpired(s) if *s == id)));
    assert!(due.iter().any(|e| matches!(e, Event::ScratchpadMoveEnded(SpaceMoveId(2)))));
    assert_eq!(deadlines.next(), Some(START + 20 * MS));
    let due = deadlines.take_due(START + 20 * MS);
    assert!(matches!(due[..], [Event::ScratchpadMoveEnded(SpaceMoveId(3))]));
}

#[test]
fn delayed_events_are_sent_after_their_delay_once_per_key() {
    let ids = pending_ids(3);
    let mut deadlines = Deadlines::default();
    deadlines.insert(START, delayed("k", 150, ids[0]));
    deadlines.insert(START, delayed("k", 60, ids[1]));
    deadlines.insert(START, delayed("l", 30, ids[2]));
    assert!(deadlines.take_due(START + 15 * MS).is_empty(), "sent before the delay");
    let mut received = vec![];
    let mut now = START + 15 * MS;
    // Past the replaced deadline of k.
    while now < START + 250 * MS {
        now += 5 * MS;
        for event in deadlines.take_due(now) {
            received.push((show_id(&event), now - START));
        }
    }
    let order: Vec<_> = received.iter().map(|(id, _)| *id).collect();
    assert_eq!(order, [ids[2], ids[1]], "the replaced event for k is not sent");
    assert!(received[0].1 >= 30 * MS, "{received:?}");
    assert!(received[1].1 >= 60 * MS, "{received:?}");
}

#[test]
fn due_events_come_in_the_order_of_their_keys() {
    let ids = pending_ids(3);
    let mut deadlines = Deadlines::default();
    deadlines.insert(
        START,
        DelayedEvent {
            key: DelayKey::SpaceMove(WindowId::new(1, 1)),
            delay: MS,
            event: Event::ScratchpadMoveEnded(SpaceMoveId(9)),
        },
    );
    deadlines.insert(START, delayed("zz", 1, ids[0]));
    deadlines.insert(START, delayed("a", 3, ids[1]));
    deadlines.insert(START, delayed("z", 2, ids[2]));
    let due = deadlines.take_due(START + 10 * MS);
    assert_eq!(shows(&due[..3]), [ids[1], ids[2], ids[0]]);
    assert!(matches!(due[3], Event::ScratchpadMoveEnded(SpaceMoveId(9))));
}

/// A system that moves windows, or does not, and records what follows.
struct Moves {
    recheck: Vec<Pid>,
    delayed: Vec<DelayedEvent>,
}

impl Moves {
    fn move_window_to_space(
        &mut self,
        wid: WindowId,
        id: SpaceMoveId,
        owner: Option<Pid>,
        move_window: impl Fn() -> Result<(), SpaceMoveError>,
    ) -> Result<(), SpaceMoveError> {
        may_move(wid, owner)?;
        let started = move_started(wid, id, move_window())?;
        self.recheck.push(started.recheck);
        self.delayed.push(started.delayed);
        Ok(())
    }
}

#[test]
fn move_checks_the_windows_again_and_ends_after_a_timeout() {
    let mut system = Moves { recheck: vec![], delayed: vec![] };
    let wid = WindowId::new(3, 1);
    let id = SpaceMoveId(7);
    system.move_window_to_space(wid, id, Some(3), || Ok(())).unwrap();
    assert_eq!(system.recheck, [3]);
    let delayed = system.delayed.pop().unwrap();
    assert_eq!(delayed.key, DelayKey::SpaceMove(wid));
    assert_eq!(delayed.delay, SPACE_MOVE_TIMEOUT);
    assert_eq!(SPACE_MOVE_TIMEOUT, 1_000 * MS);
    assert!(matches!(delayed.event, Event::ScratchpadMoveEnded(ended) if ended == id));
}

#[test]
fn unsupported_move_schedules_nothing() {
    let mut system = Moves { recheck: vec![], delayed: vec![] };
    let result = system.move_window_to_space(WindowId::new(3, 1), SpaceMoveId(0), Some(3), || {
        Err(SpaceMoveError::Unsupported)
    });
    assert!(matches!(result, Err(SpaceMoveError::Unsupported)));
    assert!(system.recheck.is_empty());
    assert!(system.delayed.is_empty());
}

#[test]
fn window_of_another_app_is_not_moved() {
    let mut system = Moves { recheck: vec![], delayed: vec![] };
    for owner in [Some(4), None] {
        let result = system.move_window_to_space(WindowId::new(3, 1), SpaceMoveId(0), owner, || {
            panic!("the window of another app must not be moved")
        });
        assert!(matches!(result, Err(SpaceMoveError::NotOwned)));
    }
    assert!(system.recheck.is_empty());
    assert!(system.delayed.is_empty());
}

/// Starts apps whose `open` does not return, and records what follows.
struct Launches {
    launching: Launching,
    opened: Vec<String>,
    delayed: Vec<DelayedEvent>,
}

impl Launches {
    fn new() -> Launches {
        Launches { launching: Launching::new(), opened: vec![], delayed: vec![] }
    }

    fn launch_app(&mut self, name: &str, bundle_id: &str, show: PendingShowId) -> Result<(), LaunchError> {
        let launch = launch_app_then(&mut self.launching, bundle_id, OnExit::Call(show.0));
        if let Ok(Launch::Open) = launch {
            self.opened.push(bundle_id.to_owned());
        }
        let delayed = launch_started(name, show, launch.map(|_| ()))?;
        self.delayed.push(delayed);
        Ok(())
    }
}

#[test]
fn launch_expires_after_the_timeout_even_if_open_hangs() {
    let [id] = pending_ids(1)[..] else { unreachable!() };
    let mut system = Launches::new();
    system.launch_app("k", "com.example.hangs", id).unwrap();
    assert_eq!(system.opened, ["com.example.hangs"]);
    let delayed = system.delayed.pop().unwrap();
    assert_eq!(delayed.key, DelayKey::ScratchpadShow("k".into()));
    assert_eq!(delayed.delay, SCRATCHPAD_SHOW_TIMEOUT);
    assert_eq!(SCRATCHPAD_SHOW_TIMEOUT, 30_000 * MS);
    assert_eq!(show_id(&delayed.event), id);
}

#[test]
fn failed_open_expires_the_show_at_once() {
    let ids = pending_ids(2);
    let mut system = Launches::new();
    system.launch_app("k", "com.example.fails", ids[0]).unwrap();
    system.launch_app("l", "com.example.works", ids[1]).unwrap();
    assert!(launch_finished(ids[1], true).is_none());
    let event = launch_finished(ids[0], false).unwrap();
    assert_eq!(show_id(&event), ids[0]);
}

#[test]
fn invalid_bundle_id_neither_launches_nor_schedules() {
    let [id] = pending_ids(1)[..] else { unreachable!() };
    let mut system = Launches::new();
    assert!(system.launch_app("k", "-a", id).is_err());
    assert!(system.opened.is_empty());
    assert!(system.delayed.is_empty());
    assert!(NoSystem.launch_app("k", "-a", id).is_err());
    assert_eq!(NoSystem.launch_app("k", "com.example", id), Ok(()));
}

#[test]
fn without_a_system_every_move_starts() {
    let moved = NoSystem.move_window_to_space(
        WindowId::new(3, 1),
        WindowServerId::new(9),
        SpaceId::new(4),
        SpaceMoveId(0),
    );
    assert!(moved.is_ok());
}
