//! What the browser boundary computes: datagram framing for the outbox, the feedback events
//! not yet shown, session notifications as integers, and the ping readout.

use crate::endian::le_u16;
use crate::config::EVENT_RING;
use crate::net::input::PeerSlot;
use crate::net::session::NetEvent;
use crate::state::{Event, State};
use vstd::prelude::*;

verus! {

// ---------------------------------------------------------------- outbox framing
/// One datagram framed as `[slot][len u16 LE][bytes]`; one longer than `u16::MAX` is left out.
pub open spec fn frame_packet(p: (PeerSlot, Seq<u8>)) -> Seq<u8> {
    if p.1.len() <= u16::MAX {
        seq![p.0.0] + le_u16(p.1.len() as u16) + p.1
    } else {
        seq![]
    }
}

/// Datagrams `0..n` framed back to back.
pub open spec fn frame_packets(ps: Seq<(PeerSlot, Vec<u8>)>, n: nat) -> Seq<u8>
    decreases n,
{
    if n == 0 {
        seq![]
    } else {
        frame_packets(ps, (n - 1) as nat) + frame_packet((ps[n - 1].0, ps[n - 1].1@))
    }
}

/// Datagrams to send, framed as repeated `[slot u8][len u16 LE][bytes]`.
pub fn frame_outbox(packets: &Vec<(PeerSlot, Vec<u8>)>) -> (r: Vec<u8>)
    ensures
        r@ == frame_packets(packets@, packets@.len()),
{
    let mut out: Vec<u8> = Vec::new();
    let mut i: usize = 0;
    while i < packets.len()
        invariant
            i <= packets@.len(),
            out@ == frame_packets(packets@, i as nat),
        decreases packets@.len() - i,
    {
        let (slot, bytes) = &packets[i];
        let ghost before = out@;
        if bytes.len() <= 65535 {
            let len = bytes.len() as u16;
            out.push(slot.0);
            out.push((len % 256) as u8);
            out.push((len / 256) as u8);
            let mut k: usize = 0;
            while k < bytes.len()
                invariant
                    k <= bytes@.len(),
                    bytes@.len() <= 65535,
                    out@ == before + seq![slot.0] + le_u16(bytes@.len() as u16) + bytes@.take(
                        k as int,
                    ),
                decreases bytes@.len() - k,
            {
                out.push(bytes[k]);
                proof {
                    assert(out@ =~= before + seq![slot.0] + le_u16(bytes@.len() as u16)
                        + bytes@.take(k + 1));
                }
                k = k + 1;
            }
            proof {
                assert(bytes@.take(bytes@.len() as int) =~= bytes@);
                assert(out@ =~= before + frame_packet((*slot, bytes@)));
            }
        } else {
            proof {
                assert(out@ =~= before + frame_packet((*slot, bytes@)));
            }
        }
        i = i + 1;
    }
    out
}

// ---------------------------------------------------------------- feedback events
/// Whether ring entry `ev` is news: a real event, newer than `last`, and not from a frame the
/// state has not reached (which a rollback left behind).
pub open spec fn is_news(ev: Event, last: u32, frame: u32) -> bool {
    ev.kind != 0 && ev.frame > last && ev.frame <= frame
}

/// The ring entry `k` places after the write head (oldest first).
pub open spec fn ring_at(s: State, k: int) -> Event {
    s.events.items[(s.events.head + k) % (EVENT_RING as int)]
}

/// Feedback events among the first `k` ring entries (oldest first) that are news, as
/// `[frame, kind, a, x, y]` records.
pub open spec fn news_records(s: State, last: u32, k: nat) -> Seq<i32>
    decreases k,
{
    if k == 0 {
        seq![]
    } else {
        let ev = ring_at(s, k - 1);
        let rest = news_records(s, last, (k - 1) as nat);
        if is_news(ev, last, s.header.frame) {
            rest + seq![ev.frame as i32, ev.kind as i32, ev.a as i32, ev.x.0, ev.y.0]
        } else {
            rest
        }
    }
}

/// The newest news frame among the first `k` ring entries, or `last`.
pub open spec fn newest_news(s: State, last: u32, k: nat) -> u32
    decreases k,
{
    if k == 0 {
        last
    } else {
        let ev = ring_at(s, k - 1);
        let n = newest_news(s, last, (k - 1) as nat);
        if is_news(ev, last, s.header.frame) && ev.frame > n {
            ev.frame
        } else {
            n
        }
    }
}

/// Feedback events newer than frame `last` as `[frame, kind, a, x, y]*`, oldest ring entry
/// first, and the frame to remember for the next call. Events of frames that a rollback
/// re-simulated are not repeated.
pub fn events_since(s: &State, last: u32) -> (r: (Vec<i32>, u32))
    ensures
        r.0@ == news_records(*s, last, EVENT_RING as nat),
        r.1 == newest_news(*s, last, EVENT_RING as nat),
        r.1 >= last,
{
    let mut out: Vec<i32> = Vec::new();
    let mut newest = last;
    let mut k: usize = 0;
    while k < EVENT_RING
        invariant
            k <= EVENT_RING,
            out@ == news_records(*s, last, k as nat),
            newest == newest_news(*s, last, k as nat),
            newest >= last,
        decreases EVENT_RING - k,
    {
        let idx = ((s.events.head as u64 + k as u64) % 64) as usize;
        let ev = s.events.items[idx];
        if ev.kind != 0 && ev.frame > last && ev.frame <= s.header.frame {
            out.push(ev.frame as i32);
            out.push(ev.kind as i32);
            out.push(ev.a as i32);
            out.push(ev.x.0);
            out.push(ev.y.0);
            if ev.frame > newest {
                newest = ev.frame;
            }
        }
        proof {
            assert(out@ =~= news_records(*s, last, (k + 1) as nat));
        }
        k = k + 1;
    }
    (out, newest)
}

proof fn lemma_newest_bounds(s: State, last: u32, k: nat)
    ensures
        newest_news(s, last, k) >= last,
        forall|m: int|
            0 <= m < k && is_news(#[trigger] ring_at(s, m), last, s.header.frame) ==> ring_at(
                s,
                m,
            ).frame <= newest_news(s, last, k),
    decreases k,
{
    if k > 0 {
        lemma_newest_bounds(s, last, (k - 1) as nat);
    }
}

/// Feedback is reported once: every event reported by a call is from a frame no later than
/// the frame it returns, and a call made with that frame (on any later state) reports only
/// events from later frames.
pub proof fn lemma_news_reported_once(s: State, last: u32, t: State)
    ensures
        forall|m: int|
            0 <= m < EVENT_RING && is_news(#[trigger] ring_at(s, m), last, s.header.frame)
                ==> last < ring_at(s, m).frame <= newest_news(s, last, EVENT_RING as nat),
        forall|m: int|
            0 <= m < EVENT_RING && is_news(
                #[trigger] ring_at(t, m),
                newest_news(s, last, EVENT_RING as nat),
                t.header.frame,
            ) ==> ring_at(t, m).frame > newest_news(s, last, EVENT_RING as nat),
{
    lemma_newest_bounds(s, last, EVENT_RING as nat);
}

// ---------------------------------------------------------------- notifications
/// A notification as `[code, slot, value]`: 1 synchronizing (value = count), 2 synchronized,
/// 3 interrupted, 4 resumed, 5 disconnected, 6 desync (slot -1, value = frame).
pub open spec fn net_event_code(e: NetEvent) -> Seq<i32> {
    match e {
        NetEvent::Synchronizing { slot, count, total } => seq![1i32, slot as i32, count as i32],
        NetEvent::Synchronized { slot } => seq![2i32, slot as i32, 0i32],
        NetEvent::Interrupted { slot } => seq![3i32, slot as i32, 0i32],
        NetEvent::Resumed { slot } => seq![4i32, slot as i32, 0i32],
        NetEvent::Disconnected { slot } => seq![5i32, slot as i32, 0i32],
        NetEvent::Desync { frame } => seq![6i32, -1i32, frame],
    }
}

/// Notifications `0..n` as codes, back to back.
pub open spec fn net_event_codes(es: Seq<NetEvent>, n: nat) -> Seq<i32>
    decreases n,
{
    if n == 0 {
        seq![]
    } else {
        net_event_codes(es, (n - 1) as nat) + net_event_code(es[n - 1])
    }
}

/// Session notifications as `[code, slot, value]*` (see [`net_event_code`]).
pub fn flatten_net_events(events: &Vec<NetEvent>) -> (r: Vec<i32>)
    ensures
        r@ == net_event_codes(events@, events@.len()),
{
    let mut out: Vec<i32> = Vec::new();
    let mut i: usize = 0;
    while i < events.len()
        invariant
            i <= events@.len(),
            out@ == net_event_codes(events@, i as nat),
        decreases events@.len() - i,
    {
        let e = events[i];
        let (a, b, c): (i32, i32, i32) = match e {
            NetEvent::Synchronizing { slot, count, total } => (1, slot as i32, count as i32),
            NetEvent::Synchronized { slot } => (2, slot as i32, 0),
            NetEvent::Interrupted { slot } => (3, slot as i32, 0),
            NetEvent::Resumed { slot } => (4, slot as i32, 0),
            NetEvent::Disconnected { slot } => (5, slot as i32, 0),
            NetEvent::Desync { frame } => (6, -1, frame),
        };
        out.push(a);
        out.push(b);
        out.push(c);
        proof {
            assert(out@ =~= net_event_codes(events@, (i + 1) as nat));
        }
        i = i + 1;
    }
    out
}

/// Ping in ms for the readout: clamped to `i32::MAX`, or -1 when unknown.
pub fn ping_readout(ping: Option<u128>) -> (r: i32)
    ensures
        ping is None ==> r == -1,
        ping matches Some(p) ==> r == if p > i32::MAX {
            i32::MAX as int
        } else {
            p as int
        },
{
    match ping {
        Some(p) => if p > i32::MAX as u128 {
            i32::MAX
        } else {
            p as i32
        },
        None => -1,
    }
}

} // verus!
