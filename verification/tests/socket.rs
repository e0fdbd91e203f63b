use hordegrid::net::codec::PROTO_VER;
use hordegrid::net::input::PeerSlot;
use hordegrid::net::socket::{Queues, SocketStats, INBOX_CAP};

#[test]
fn pushing_into_a_full_inbox_counts_an_overflow() {
    let mut q = Queues::new();
    for k in 0..INBOX_CAP {
        q.push_incoming(PeerSlot(1), &[k as u8]);
    }
    assert_eq!(q.inbox.len(), INBOX_CAP);
    q.push_incoming(PeerSlot(2), &[1, 2, 3]);
    assert_eq!(q.inbox.len(), INBOX_CAP);
    assert_eq!(q.stats.overflow, 1);
    assert_eq!(q.inbox.back(), Some(&(PeerSlot(1), vec![(INBOX_CAP - 1) as u8])));
}

#[test]
fn receiving_drops_and_counts_bad_datagrams() {
    let mut q = Queues::new();
    q.push_incoming(PeerSlot(1), &[9, 0, 0]);
    q.push_incoming(PeerSlot(2), &[]);
    q.push_incoming(PeerSlot(3), &[PROTO_VER]);
    q.push_incoming(PeerSlot(0), &[42]);
    let got = q.receive_all();
    assert!(got.is_empty());
    assert!(q.inbox.is_empty());
    assert_eq!(
        q.stats,
        SocketStats { malformed: 2, oversize: 0, overflow: 0, version_mismatch: 2 }
    );
}

#[test]
fn taking_the_outbox_empties_it() {
    let mut q = Queues::new();
    q.outbox.push((PeerSlot(1), vec![1, 2]));
    let taken = q.take_outbox();
    assert_eq!(taken, vec![(PeerSlot(1), vec![1, 2])]);
    assert!(q.outbox.is_empty());
}

#[test]
fn received_messages_keep_their_sender_and_can_be_sent_on() {
    let mut q = Queues::new();
    q.push_incoming(PeerSlot(3), &[PROTO_VER, 5, 0, 7]);
    q.push_incoming(PeerSlot(1), &[PROTO_VER, 5, 99]);
    let got = q.receive_all();
    assert_eq!(got.len(), 1);
    assert_eq!(got[0].0, PeerSlot(3));
    assert_eq!(q.stats.malformed, 1);
    q.send(&got[0].1, PeerSlot(2));
    assert_eq!(q.take_outbox(), vec![(PeerSlot(2), vec![PROTO_VER, 5, 0, 7])]);
    assert_eq!(q.stats.oversize, 0);
}
