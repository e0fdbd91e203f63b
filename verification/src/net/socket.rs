//! Packet queues between the session and the host that moves bytes over real transports.
//! The session reads and writes messages; the host feeds and drains datagrams.

use crate::net::codec::{
    decode, encode, postcard_body_of, postcard_message_of, DecodeError, MAX_PACKET, PROTO_VER,
};
use crate::net::input::PeerSlot;
use ggrs::Message;
use std::collections::VecDeque;
use vstd::prelude::*;

verus! {

/// Inbox cap: beyond this, packets are dropped (e.g. a tab returning from background).
pub const INBOX_CAP: usize = 1024;

/// Drop counters.
#[derive(Default, Debug, Clone, Copy, PartialEq, Eq, Structural)]
pub struct SocketStats {
    /// Decode failures.
    pub malformed: u32,
    /// Messages too large to send.
    pub oversize: u32,
    /// Inbox overflow drops.
    pub overflow: u32,
    /// Protocol version mismatches.
    pub version_mismatch: u32,
}

/// Shared packet queues.
#[derive(Debug)]
pub struct Queues {
    /// Received, not yet consumed by the session.
    pub inbox: VecDeque<(PeerSlot, Vec<u8>)>,
    /// Produced by the session, not yet sent by the host.
    pub outbox: Vec<(PeerSlot, Vec<u8>)>,
    /// Counters for diagnostics.
    pub stats: SocketStats,
}

/// How a received datagram is classified: 0 a message, 1 another protocol version, 2 dropped
/// as malformed (bad size or unreadable body).
pub open spec fn datagram_kind(bytes: Seq<u8>) -> int {
    if bytes.len() == 0 || bytes.len() > MAX_PACKET {
        2
    } else if bytes[0] != PROTO_VER {
        1
    } else if postcard_message_of(bytes.subrange(1, bytes.len() as int)) is Some {
        0
    } else {
        2
    }
}

/// Number of datagrams of kind `k` among `q`.
pub open spec fn count_kind(q: Seq<(PeerSlot, Vec<u8>)>, k: int) -> nat
    decreases q.len(),
{
    if q.len() == 0 {
        0
    } else {
        count_kind(q.drop_last(), k) + if datagram_kind(q.last().1@) == k {
            1nat
        } else {
            0
        }
    }
}

/// The datagrams among `q` that decode to a message, in order: each sender with the message
/// postcard reads from the body.
pub open spec fn decoded(q: Seq<(PeerSlot, Vec<u8>)>) -> Seq<(PeerSlot, Message)>
    decreases q.len(),
{
    if q.len() == 0 {
        seq![]
    } else if datagram_kind(q.last().1@) == 0 {
        let b = q.last().1@;
        decoded(q.drop_last()).push((q.last().0, postcard_message_of(b.subrange(1, b.len() as int))->0))
    } else {
        decoded(q.drop_last())
    }
}

impl Queues {
    /// Empty queues, zero counters.
    pub fn new() -> (r: Queues)
        ensures
            r.inbox@.len() == 0,
            r.outbox@.len() == 0,
            r.stats == (SocketStats { malformed: 0, oversize: 0, overflow: 0, version_mismatch: 0 }),
    {
        Queues {
            inbox: VecDeque::new(),
            outbox: Vec::new(),
            stats: SocketStats { malformed: 0, oversize: 0, overflow: 0, version_mismatch: 0 },
        }
    }

    /// Host → session: enqueue a received datagram, or count it as an overflow drop when the
    /// inbox already holds [`INBOX_CAP`] datagrams.
    pub fn push_incoming(&mut self, from: PeerSlot, bytes: &[u8])
        requires
            old(self).inbox@.len() >= INBOX_CAP ==> old(self).stats.overflow < u32::MAX,
        ensures
            old(self).inbox@.len() >= INBOX_CAP ==> {
                &&& final(self).inbox@ == old(self).inbox@
                &&& final(self).stats == (SocketStats {
                    overflow: (old(self).stats.overflow + 1) as u32,
                    ..old(self).stats
                })
            },
            old(self).inbox@.len() < INBOX_CAP ==> {
                &&& final(self).inbox@.len() == old(self).inbox@.len() + 1
                &&& final(self).inbox@.drop_last() == old(self).inbox@
                &&& final(self).inbox@.last().0 == from
                &&& final(self).inbox@.last().1@ == bytes@
                &&& final(self).stats == old(self).stats
            },
            final(self).outbox@ == old(self).outbox@,
            old(self).inbox@.len() <= INBOX_CAP ==> final(self).inbox@.len() <= INBOX_CAP,
    {
        if self.inbox.len() >= INBOX_CAP {
            self.stats.overflow = self.stats.overflow + 1;
            return;
        }
        let v = vstd::slice::slice_to_vec(bytes);
        self.inbox.push_back((from, v));
        proof {
            assert(self.inbox@.drop_last() =~= old(self).inbox@);
        }
    }

    /// Session → host: queue the encoded message for `addr` when postcard can serialize it within
    /// [`MAX_PACKET`] (see [`encode`]); otherwise count it as oversize.
    pub fn send(&mut self, msg: &Message, addr: PeerSlot)
        requires
            old(self).stats.oversize < u32::MAX,
        ensures
            final(self).inbox@ == old(self).inbox@,
            (postcard_body_of(*msg) matches Some(b) && b.len() + 1 <= MAX_PACKET) ==> {
                &&& final(self).outbox@.len() == old(self).outbox@.len() + 1
                &&& final(self).outbox@.drop_last() == old(self).outbox@
                &&& final(self).outbox@.last().0 == addr
                &&& final(self).outbox@.last().1@ == seq![PROTO_VER] + postcard_body_of(*msg)->0
                &&& final(self).stats == old(self).stats
            },
            !(postcard_body_of(*msg) matches Some(b) && b.len() + 1 <= MAX_PACKET) ==> {
                &&& final(self).outbox@ == old(self).outbox@
                &&& final(self).stats == (SocketStats {
                    oversize: (old(self).stats.oversize + 1) as u32,
                    ..old(self).stats
                })
            },
    {
        match encode(msg) {
            Some(bytes) => {
                self.outbox.push((addr, bytes));
                proof {
                    assert(self.outbox@.drop_last() =~= old(self).outbox@);
                }
            },
            None => {
                self.stats.oversize = self.stats.oversize + 1;
            },
        }
    }

    /// Session ← host: drain the inbox and decode every datagram in arrival order. The decoded
    /// messages are returned with their sender; version mismatches and malformed datagrams are
    /// counted.
    pub fn receive_all(&mut self) -> (r: Vec<(PeerSlot, Message)>)
        requires
            old(self).stats.malformed + old(self).inbox@.len() <= u32::MAX,
            old(self).stats.version_mismatch + old(self).inbox@.len() <= u32::MAX,
        ensures
            final(self).inbox@.len() == 0,
            final(self).outbox@ == old(self).outbox@,
            r@ == decoded(old(self).inbox@),
            final(self).stats == (SocketStats {
                malformed: (old(self).stats.malformed + count_kind(old(self).inbox@, 2)) as u32,
                version_mismatch: (old(self).stats.version_mismatch + count_kind(old(self).inbox@, 1)) as u32,
                ..old(self).stats
            }),
    {
        let ghost q0 = self.inbox@;
        let mut out: Vec<(PeerSlot, Message)> = Vec::new();
        let ghost mut done: nat = 0;
        while self.inbox.len() > 0
            invariant
                done + self.inbox@.len() == q0.len(),
                self.inbox@ == q0.subrange(done as int, q0.len() as int),
                self.outbox@ == old(self).outbox@,
                out@ == decoded(q0.take(done as int)),
                self.stats.malformed == old(self).stats.malformed + count_kind(q0.take(done as int), 2),
                self.stats.version_mismatch == old(self).stats.version_mismatch + count_kind(q0.take(done as int), 1),
                self.stats.oversize == old(self).stats.oversize,
                self.stats.overflow == old(self).stats.overflow,
                old(self).stats.malformed + q0.len() <= u32::MAX,
                old(self).stats.version_mismatch + q0.len() <= u32::MAX,
                count_kind(q0.take(done as int), 1) <= done,
                count_kind(q0.take(done as int), 2) <= done,
            decreases self.inbox@.len(),
        {
            let ghost pre = q0.take(done as int);
            let item = self.inbox.pop_front();
            let (from, bytes) = match item {
                Some(p) => p,
                None => {
                    proof {
                        assert(false);
                    }
                    return out;
                },
            };
            proof {
                assert(q0.take(done + 1int).drop_last() =~= pre);
                assert(q0.take(done + 1int).last() == (from, bytes));
                lemma_count_kind_le(q0.take(done + 1int), 1);
                lemma_count_kind_le(q0.take(done + 1int), 2);
            }
            match decode(bytes.as_slice()) {
                Ok(msg) => {
                    out.push((from, msg));
                },
                Err(DecodeError::Version(_)) => {
                    self.stats.version_mismatch = self.stats.version_mismatch + 1;
                },
                Err(_) => {
                    self.stats.malformed = self.stats.malformed + 1;
                },
            }
            proof {
                done = done + 1;
                assert(self.inbox@ =~= q0.subrange(done as int, q0.len() as int));
            }
        }
        proof {
            assert(q0.take(done as int) =~= q0);
        }
        out
    }

    /// Host: take every datagram queued for sending.
    pub fn take_outbox(&mut self) -> (r: Vec<(PeerSlot, Vec<u8>)>)
        ensures
            r@ == old(self).outbox@,
            final(self).outbox@.len() == 0,
            final(self).inbox@ == old(self).inbox@,
            final(self).stats == old(self).stats,
    {
        let mut taken: Vec<(PeerSlot, Vec<u8>)> = Vec::new();
        std::mem::swap(&mut taken, &mut self.outbox);
        taken
    }
}

proof fn lemma_count_kind_le(q: Seq<(PeerSlot, Vec<u8>)>, k: int)
    ensures
        count_kind(q, k) <= q.len(),
    decreases q.len(),
{
    if q.len() > 0 {
        lemma_count_kind_le(q.drop_last(), k);
    }
}

/// A framed body is judged by its contents alone: the datagram
/// [`crate::net::codec::frame_body`] makes from a
/// body that fits passes the size and version checks, and then decodes exactly when postcard
/// reads the body.
pub proof fn lemma_framed_body_decodes(body: Seq<u8>)
    requires
        body.len() + 1 <= MAX_PACKET,
    ensures
        datagram_kind(seq![PROTO_VER] + body) == if postcard_message_of(body) is Some {
            0int
        } else {
            2int
        },
{
    let d = seq![PROTO_VER] + body;
    assert(d.subrange(1, d.len() as int) =~= body);
}

} // verus!
