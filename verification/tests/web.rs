use hordegrid::fx::Fixed;
use hordegrid::net::input::PeerSlot;
use hordegrid::net::session::NetEvent;
use hordegrid::rng::Rng;
use hordegrid::state::{EventKind, State};
use hordegrid::web::{events_since, flatten_net_events, frame_outbox, ping_readout};

#[test]
fn outbox_frames_slot_length_and_bytes() {
    let packets = vec![(PeerSlot(2), vec![9, 8, 7]), (PeerSlot(0), vec![])];
    assert_eq!(frame_outbox(&packets), vec![2, 3, 0, 9, 8, 7, 0, 0, 0]);
    let long = vec![(PeerSlot(1), vec![5u8; 300])];
    let framed = frame_outbox(&long);
    assert_eq!(&framed[..3], &[1, 44, 1]);
    assert_eq!(framed.len(), 303);
    let too_long = vec![(PeerSlot(1), vec![0u8; 70_000]), (PeerSlot(3), vec![1])];
    assert_eq!(frame_outbox(&too_long), vec![3, 1, 0, 1]);
}

#[test]
fn events_are_reported_once_and_not_from_the_future() {
    let mut s = State::blank(Rng::from_seed(1));
    s.header.frame = 5;
    s.emit(EventKind::Kill, 1, Fixed(10), Fixed(20));
    s.header.frame = 6;
    s.emit(EventKind::Hit, 0, Fixed(30), Fixed(40));
    let (out, newest) = events_since(&s, 0);
    assert_eq!(out, vec![5, 2, 1, 10, 20, 6, 1, 0, 30, 40]);
    assert_eq!(newest, 6);
    let (again, newest2) = events_since(&s, newest);
    assert!(again.is_empty());
    assert_eq!(newest2, 6);
    // a rollback to frame 5 hides the frame-6 event
    s.header.frame = 5;
    let (rolled, _) = events_since(&s, 4);
    assert_eq!(rolled, vec![5, 2, 1, 10, 20]);
}

#[test]
fn notifications_flatten_to_triples() {
    let events = vec![
        NetEvent::Synchronizing { slot: 1, count: 3, total: 5 },
        NetEvent::Synchronized { slot: 1 },
        NetEvent::Interrupted { slot: 2 },
        NetEvent::Resumed { slot: 2 },
        NetEvent::Disconnected { slot: 3 },
        NetEvent::Desync { frame: 99 },
    ];
    assert_eq!(
        flatten_net_events(&events),
        vec![1, 1, 3, 2, 1, 0, 3, 2, 0, 4, 2, 0, 5, 3, 0, 6, -1, 99]
    );
}

#[test]
fn ping_is_clamped_or_minus_one() {
    assert_eq!(ping_readout(None), -1);
    assert_eq!(ping_readout(Some(42)), 42);
    assert_eq!(ping_readout(Some(u128::MAX)), i32::MAX);
}
