//! The state's byte image (fields in declaration order, little-endian, no padding) and its
//! checksum: what peers compare to detect a desync and what a desync dump holds.

use crate::config::{MAX_PLAYERS, WEAPON_COUNT};
use crate::fx::Fixed;
use crate::state::{
    Enemies, Event, EventRing, Header, HideSeek, Players, Shots, State, Wave,
};
use crate::endian::{bits_i32, le_i32, le_u16, le_u32, lemma_le_u32_len};
use vstd::prelude::*;

verus! {

broadcast use lemma_le_u32_len;

// ---------------------------------------------------------------- encodings
/// Bytes of a sequence of `u16`.
pub open spec fn u16s_bytes(a: Seq<u16>) -> Seq<u8>
    decreases a.len(),
{
    if a.len() == 0 {
        seq![]
    } else {
        u16s_bytes(a.drop_last()) + le_u16(a.last())
    }
}

/// Bytes of a sequence of `u32`.
pub open spec fn u32s_bytes(a: Seq<u32>) -> Seq<u8>
    decreases a.len(),
{
    if a.len() == 0 {
        seq![]
    } else {
        u32s_bytes(a.drop_last()) + le_u32(a.last())
    }
}

/// Bytes of a sequence of `i32`.
pub open spec fn i32s_bytes(a: Seq<i32>) -> Seq<u8>
    decreases a.len(),
{
    if a.len() == 0 {
        seq![]
    } else {
        i32s_bytes(a.drop_last()) + le_i32(a.last())
    }
}

/// Bytes of a sequence of fixed-point values (their raw `i32`).
pub open spec fn fixeds_bytes(a: Seq<Fixed>) -> Seq<u8>
    decreases a.len(),
{
    if a.len() == 0 {
        seq![]
    } else {
        fixeds_bytes(a.drop_last()) + le_i32(a.last().0)
    }
}

/// Bytes of one event.
pub open spec fn event_bytes(e: Event) -> Seq<u8> {
    le_u32(e.frame) + seq![e.kind, e.a, e.b, e.reserved] + le_i32(e.x.0) + le_i32(e.y.0)
}

/// Bytes of a sequence of events.
pub open spec fn events_bytes(a: Seq<Event>) -> Seq<u8>
    decreases a.len(),
{
    if a.len() == 0 {
        seq![]
    } else {
        events_bytes(a.drop_last()) + event_bytes(a.last())
    }
}

pub open spec fn header_bytes(h: Header) -> Seq<u8> {
    le_u32(h.frame) + le_u32(h.num_players) + le_u32(h.seed) + le_u32(h.map_id) + le_u32(h.mode)
}

/// The ammo table, player by player.
pub open spec fn ammo_bytes(a: [[u16; WEAPON_COUNT]; MAX_PLAYERS]) -> Seq<u8> {
    u16s_bytes(a[0]@) + u16s_bytes(a[1]@) + u16s_bytes(a[2]@) + u16s_bytes(a[3]@)
}

pub open spec fn players_bytes(p: Players) -> Seq<u8> {
    fixeds_bytes(p.x@) + fixeds_bytes(p.y@) + i32s_bytes(p.hp@) + u32s_bytes(p.kills@) + p.life@
        + p.facing@ + p.weapon@ + p.hurt_flash@ + u16s_bytes(p.cooldown@) + u16s_bytes(
        p.prev_input@,
    ) + u16s_bytes(p.down_timer@) + u16s_bytes(p.revive@) + u16s_bytes(p.absent@) + u16s_bytes(
        p.revives_done@,
    ) + ammo_bytes(p.ammo) + u16s_bytes(p.reload_timer@)
}

pub open spec fn enemies_bytes(e: Enemies) -> Seq<u8> {
    fixeds_bytes(e.x@) + fixeds_bytes(e.y@) + i32s_bytes(e.hp@) + e.kind@ + e.alive@ + e.cooldown@
        + e.stagger@
}

pub open spec fn shots_bytes(s: Shots) -> Seq<u8> {
    fixeds_bytes(s.x@) + fixeds_bytes(s.y@) + fixeds_bytes(s.vx@) + fixeds_bytes(s.vy@) + s.ttl@
        + s.owner@ + s.damage@ + s.kind@
}

pub open spec fn wave_bytes(w: Wave) -> Seq<u8> {
    le_u32(w.number) + le_u32(w.phase) + le_u32(w.timer) + le_u32(w.to_spawn) + le_u32(
        w.team_score,
    ) + le_u32(w.combo) + le_u32(w.combo_timer) + le_u32(w.unlocked) + le_u32(w.enemies_alive)
        + le_u32(w.best_combo)
}

pub open spec fn ring_bytes(r: EventRing) -> Seq<u8> {
    events_bytes(r.items@) + le_u32(r.head) + le_u32(r.total)
}

pub open spec fn hide_seek_bytes(h: HideSeek) -> Seq<u8> {
    le_u32(h.phase) + le_u32(h.timer) + le_u32(h.winner) + h.role@ + h.found@ + u16s_bytes(
        h.spot_frames@,
    )
}

/// The byte image of a state: every field in declaration order, little-endian.
pub open spec fn state_bytes(s: State) -> Seq<u8> {
    header_bytes(s.header) + u32s_bytes(s.rng@@) + players_bytes(s.players) + enemies_bytes(
        s.enemies,
    ) + shots_bytes(s.shots) + wave_bytes(s.wave) + ring_bytes(s.events) + s.flow.dir@
        + hide_seek_bytes(s.hide_seek)
}

// ---------------------------------------------------------------- writers
fn push_u16(out: &mut Vec<u8>, v: u16)
    ensures
        final(out)@ == old(out)@ + le_u16(v),
{
    out.push((v % 256) as u8);
    out.push((v / 256) as u8);
    proof {
        assert(final(out)@ =~= old(out)@ + le_u16(v));
    }
}

fn push_u32(out: &mut Vec<u8>, v: u32)
    ensures
        final(out)@ == old(out)@ + le_u32(v),
{
    out.push((v % 256) as u8);
    out.push(((v / 256) % 256) as u8);
    out.push(((v / 65536) % 256) as u8);
    out.push((v / 16777216) as u8);
    proof {
        reveal(le_u32);
        assert(final(out)@ =~= old(out)@ + le_u32(v));
    }
}

fn push_i32(out: &mut Vec<u8>, v: i32)
    ensures
        final(out)@ == old(out)@ + le_i32(v),
{
    let u: u32 = if v >= 0 {
        v as u32
    } else {
        (v as i64 + 0x1_0000_0000i64) as u32
    };
    push_u32(out, u);
}

fn push_u8s(out: &mut Vec<u8>, a: &[u8])
    ensures
        final(out)@ == old(out)@ + a@,
{
    let mut i: usize = 0;
    while i < a.len()
        invariant
            i <= a.len(),
            out@ == old(out)@ + a@.take(i as int),
        decreases a.len() - i,
    {
        out.push(a[i]);
        proof {
            assert(out@ =~= old(out)@ + a@.take(i + 1));
        }
        i = i + 1;
    }
    proof {
        assert(a@.take(a.len() as int) =~= a@);
    }
}

fn push_u16s(out: &mut Vec<u8>, a: &[u16])
    ensures
        final(out)@ == old(out)@ + u16s_bytes(a@),
{
    let mut i: usize = 0;
    while i < a.len()
        invariant
            i <= a.len(),
            out@ == old(out)@ + u16s_bytes(a@.take(i as int)),
        decreases a.len() - i,
    {
        let ghost o = out@;
        push_u16(out, a[i]);
        proof {
            assert(a@.take(i + 1).drop_last() =~= a@.take(i as int));
            assert(out@ =~= old(out)@ + u16s_bytes(a@.take(i + 1)));
        }
        i = i + 1;
    }
    proof {
        assert(a@.take(a.len() as int) =~= a@);
    }
}

fn push_u32s(out: &mut Vec<u8>, a: &[u32])
    ensures
        final(out)@ == old(out)@ + u32s_bytes(a@),
{
    let mut i: usize = 0;
    while i < a.len()
        invariant
            i <= a.len(),
            out@ == old(out)@ + u32s_bytes(a@.take(i as int)),
        decreases a.len() - i,
    {
        push_u32(out, a[i]);
        proof {
            assert(a@.take(i + 1).drop_last() =~= a@.take(i as int));
            assert(out@ =~= old(out)@ + u32s_bytes(a@.take(i + 1)));
        }
        i = i + 1;
    }
    proof {
        assert(a@.take(a.len() as int) =~= a@);
    }
}

fn push_i32s(out: &mut Vec<u8>, a: &[i32])
    ensures
        final(out)@ == old(out)@ + i32s_bytes(a@),
{
    let mut i: usize = 0;
    while i < a.len()
        invariant
            i <= a.len(),
            out@ == old(out)@ + i32s_bytes(a@.take(i as int)),
        decreases a.len() - i,
    {
        push_i32(out, a[i]);
        proof {
            assert(a@.take(i + 1).drop_last() =~= a@.take(i as int));
            assert(out@ =~= old(out)@ + i32s_bytes(a@.take(i + 1)));
        }
        i = i + 1;
    }
    proof {
        assert(a@.take(a.len() as int) =~= a@);
    }
}

fn push_fixeds(out: &mut Vec<u8>, a: &[Fixed])
    ensures
        final(out)@ == old(out)@ + fixeds_bytes(a@),
{
    let mut i: usize = 0;
    while i < a.len()
        invariant
            i <= a.len(),
            out@ == old(out)@ + fixeds_bytes(a@.take(i as int)),
        decreases a.len() - i,
    {
        push_i32(out, a[i].0);
        proof {
            assert(a@.take(i + 1).drop_last() =~= a@.take(i as int));
            assert(out@ =~= old(out)@ + fixeds_bytes(a@.take(i + 1)));
        }
        i = i + 1;
    }
    proof {
        assert(a@.take(a.len() as int) =~= a@);
    }
}

fn push_events(out: &mut Vec<u8>, a: &[Event])
    ensures
        final(out)@ == old(out)@ + events_bytes(a@),
{
    let mut i: usize = 0;
    while i < a.len()
        invariant
            i <= a.len(),
            out@ == old(out)@ + events_bytes(a@.take(i as int)),
        decreases a.len() - i,
    {
        let e = a[i];
        let ghost o = out@;
        push_u32(out, e.frame);
        out.push(e.kind);
        out.push(e.a);
        out.push(e.b);
        out.push(e.reserved);
        push_i32(out, e.x.0);
        push_i32(out, e.y.0);
        proof {
            assert(out@ =~= o + event_bytes(e));
            assert(a@.take(i + 1).drop_last() =~= a@.take(i as int));
            assert(out@ =~= old(out)@ + events_bytes(a@.take(i + 1)));
        }
        i = i + 1;
    }
    proof {
        assert(a@.take(a.len() as int) =~= a@);
    }
}

fn push_header(out: &mut Vec<u8>, h: &Header)
    ensures
        final(out)@ == old(out)@ + header_bytes(*h),
{
    push_u32(out, h.frame);
    push_u32(out, h.num_players);
    push_u32(out, h.seed);
    push_u32(out, h.map_id);
    push_u32(out, h.mode);
    proof {
        assert(final(out)@ =~= old(out)@ + header_bytes(*h));
    }
}

fn push_players(out: &mut Vec<u8>, p: &Players)
    ensures
        final(out)@ == old(out)@ + players_bytes(*p),
{
    push_fixeds(out, p.x.as_slice());
    push_fixeds(out, p.y.as_slice());
    push_i32s(out, p.hp.as_slice());
    push_u32s(out, p.kills.as_slice());
    push_u8s(out, p.life.as_slice());
    push_u8s(out, p.facing.as_slice());
    push_u8s(out, p.weapon.as_slice());
    push_u8s(out, p.hurt_flash.as_slice());
    push_u16s(out, p.cooldown.as_slice());
    push_u16s(out, p.prev_input.as_slice());
    push_u16s(out, p.down_timer.as_slice());
    push_u16s(out, p.revive.as_slice());
    push_u16s(out, p.absent.as_slice());
    push_u16s(out, p.revives_done.as_slice());
    let r0 = p.ammo[0];
    push_u16s(out, r0.as_slice());
    let r1 = p.ammo[1];
    push_u16s(out, r1.as_slice());
    let r2 = p.ammo[2];
    push_u16s(out, r2.as_slice());
    let r3 = p.ammo[3];
    push_u16s(out, r3.as_slice());
    push_u16s(out, p.reload_timer.as_slice());
    proof {
        assert(final(out)@ =~= old(out)@ + players_bytes(*p));
    }
}

fn push_enemies(out: &mut Vec<u8>, e: &Enemies)
    ensures
        final(out)@ == old(out)@ + enemies_bytes(*e),
{
    push_fixeds(out, e.x.as_slice());
    push_fixeds(out, e.y.as_slice());
    push_i32s(out, e.hp.as_slice());
    push_u8s(out, e.kind.as_slice());
    push_u8s(out, e.alive.as_slice());
    push_u8s(out, e.cooldown.as_slice());
    push_u8s(out, e.stagger.as_slice());
    proof {
        assert(final(out)@ =~= old(out)@ + enemies_bytes(*e));
    }
}

fn push_shots(out: &mut Vec<u8>, s: &Shots)
    ensures
        final(out)@ == old(out)@ + shots_bytes(*s),
{
    push_fixeds(out, s.x.as_slice());
    push_fixeds(out, s.y.as_slice());
    push_fixeds(out, s.vx.as_slice());
    push_fixeds(out, s.vy.as_slice());
    push_u8s(out, s.ttl.as_slice());
    push_u8s(out, s.owner.as_slice());
    push_u8s(out, s.damage.as_slice());
    push_u8s(out, s.kind.as_slice());
    proof {
        assert(final(out)@ =~= old(out)@ + shots_bytes(*s));
    }
}

fn push_wave(out: &mut Vec<u8>, w: &Wave)
    ensures
        final(out)@ == old(out)@ + wave_bytes(*w),
{
    push_u32(out, w.number);
    push_u32(out, w.phase);
    push_u32(out, w.timer);
    push_u32(out, w.to_spawn);
    push_u32(out, w.team_score);
    push_u32(out, w.combo);
    push_u32(out, w.combo_timer);
    push_u32(out, w.unlocked);
    push_u32(out, w.enemies_alive);
    push_u32(out, w.best_combo);
    proof {
        assert(final(out)@ =~= old(out)@ + wave_bytes(*w));
    }
}

fn push_ring(out: &mut Vec<u8>, r: &EventRing)
    ensures
        final(out)@ == old(out)@ + ring_bytes(*r),
{
    push_events(out, r.items.as_slice());
    push_u32(out, r.head);
    push_u32(out, r.total);
    proof {
        assert(final(out)@ =~= old(out)@ + ring_bytes(*r));
    }
}

fn push_hide_seek(out: &mut Vec<u8>, h: &HideSeek)
    ensures
        final(out)@ == old(out)@ + hide_seek_bytes(*h),
{
    push_u32(out, h.phase);
    push_u32(out, h.timer);
    push_u32(out, h.winner);
    push_u8s(out, h.role.as_slice());
    push_u8s(out, h.found.as_slice());
    push_u16s(out, h.spot_frames.as_slice());
    proof {
        assert(final(out)@ =~= old(out)@ + hide_seek_bytes(*h));
    }
}

/// What `xxh3_64` returns for a byte string (the 64-bit XXH3 hash with the default seed).
pub uninterp spec fn xxh3_64_of(bytes: Seq<u8>) -> u64;

/// Calls `xxhash_rust::xxh3::xxh3_64`. Claimed: the result depends on the bytes alone, and
/// is named [`xxh3_64_of`]; nothing is stated of its value.
#[verifier::external_body]
fn xxh3_64(bytes: &[u8]) -> (r: u64)
    ensures
        r == xxh3_64_of(bytes@),
{
    xxhash_rust::xxh3::xxh3_64(bytes)
}

impl State {
    /// Byte image used for checksums and desync dumps: every field in declaration order,
    /// little-endian, no padding.
    pub fn as_bytes(&self) -> (r: Vec<u8>)
        ensures
            r@ == state_bytes(*self),
    {
        let mut out: Vec<u8> = Vec::new();
        push_header(&mut out, &self.header);
        let words = self.rng.words();
        push_u32s(&mut out, words.as_slice());
        push_players(&mut out, &self.players);
        push_enemies(&mut out, &self.enemies);
        push_shots(&mut out, &self.shots);
        push_wave(&mut out, &self.wave);
        push_ring(&mut out, &self.events);
        push_u8s(&mut out, self.flow.dir.as_slice());
        push_hide_seek(&mut out, &self.hide_seek);
        proof {
            assert(out@ =~= state_bytes(*self));
        }
        out
    }

    /// Checksum of the full state: XXH3-64 of its byte image.
    pub fn checksum(&self) -> (r: u64)
        ensures
            r == xxh3_64_of(state_bytes(*self)),
    {
        let bytes = self.as_bytes();
        xxh3_64(bytes.as_slice())
    }
}

// ---------------------------------------------------------------- laws
/// Size of a state's byte image.
pub const STATE_BYTES: usize = 13768;

proof fn lemma_seq_bytes_len(
    a16: Seq<u16>,
    a32: Seq<u32>,
    ai: Seq<i32>,
    af: Seq<Fixed>,
    ae: Seq<Event>,
)
    ensures
        u16s_bytes(a16).len() == 2 * a16.len(),
        u32s_bytes(a32).len() == 4 * a32.len(),
        i32s_bytes(ai).len() == 4 * ai.len(),
        fixeds_bytes(af).len() == 4 * af.len(),
        events_bytes(ae).len() == 16 * ae.len(),
    decreases a16.len() + a32.len() + ai.len() + af.len() + ae.len(),
{
    if a16.len() > 0 {
        lemma_seq_bytes_len(a16.drop_last(), a32, ai, af, ae);
    }
    if a32.len() > 0 {
        lemma_seq_bytes_len(a16, a32.drop_last(), ai, af, ae);
    }
    if ai.len() > 0 {
        lemma_seq_bytes_len(a16, a32, ai.drop_last(), af, ae);
    }
    if af.len() > 0 {
        lemma_seq_bytes_len(a16, a32, ai, af.drop_last(), ae);
    }
    if ae.len() > 0 {
        lemma_seq_bytes_len(a16, a32, ai, af, ae.drop_last());
    }
}

proof fn lemma_parts_len(s: State)
    ensures
        header_bytes(s.header).len() == 20,
        u32s_bytes(s.rng@@).len() == 16,
        wave_bytes(s.wave).len() == 40,
        ring_bytes(s.events).len() == 1032,
        hide_seek_bytes(s.hide_seek).len() == 28,
{
    let ei = Seq::<i32>::empty();
    let ef = Seq::<Fixed>::empty();
    lemma_seq_bytes_len(s.hide_seek.spot_frames@, s.rng@@, ei, ef, s.events.items@);
}

proof fn lemma_players_len(p: Players)
    ensures
        players_bytes(p).len() == 168,
{
    lemma_seq_bytes_len(p.ammo[0]@, Seq::empty(), Seq::empty(), Seq::empty(), Seq::empty());
    lemma_seq_bytes_len(p.ammo[1]@, Seq::empty(), Seq::empty(), Seq::empty(), Seq::empty());
    lemma_seq_bytes_len(p.ammo[2]@, Seq::empty(), Seq::empty(), Seq::empty(), Seq::empty());
    lemma_seq_bytes_len(p.ammo[3]@, Seq::empty(), Seq::empty(), Seq::empty(), Seq::empty());
    lemma_seq_bytes_len(p.reload_timer@, Seq::empty(), Seq::empty(), Seq::empty(), Seq::empty());
    let e32 = Seq::<u32>::empty();
    let ei = Seq::<i32>::empty();
    let ef = Seq::<Fixed>::empty();
    let ee = Seq::<Event>::empty();
    lemma_seq_bytes_len(p.cooldown@, p.kills@, p.hp@, p.x@, ee);
    lemma_seq_bytes_len(p.prev_input@, e32, ei, p.y@, ee);
    lemma_seq_bytes_len(p.down_timer@, e32, ei, ef, ee);
    lemma_seq_bytes_len(p.revive@, e32, ei, ef, ee);
    lemma_seq_bytes_len(p.absent@, e32, ei, ef, ee);
    lemma_seq_bytes_len(p.revives_done@, e32, ei, ef, ee);
}

proof fn lemma_enemies_shots_len(e: Enemies, sh: Shots)
    ensures
        enemies_bytes(e).len() == 6144,
        shots_bytes(sh).len() == 5120,
{
    let e16 = Seq::<u16>::empty();
    let e32 = Seq::<u32>::empty();
    let ei = Seq::<i32>::empty();
    let ee = Seq::<Event>::empty();
    lemma_seq_bytes_len(e16, e32, e.hp@, e.x@, ee);
    lemma_seq_bytes_len(e16, e32, ei, e.y@, ee);
    lemma_seq_bytes_len(e16, e32, ei, sh.x@, ee);
    lemma_seq_bytes_len(e16, e32, ei, sh.y@, ee);
    lemma_seq_bytes_len(e16, e32, ei, sh.vx@, ee);
    lemma_seq_bytes_len(e16, e32, ei, sh.vy@, ee);
}

/// The state is flat: every state's byte image has the same size, [`STATE_BYTES`], so the
/// checksum always hashes the whole fixed-size state.
pub proof fn lemma_state_bytes_len(s: State)
    ensures
        state_bytes(s).len() == STATE_BYTES,
{
    lemma_parts_len(s);
    lemma_players_len(s.players);
    lemma_enemies_shots_len(s.enemies, s.shots);
}

proof fn lemma_le_u32_injective(v: u32, w: u32)
    requires
        le_u32(v) == le_u32(w),
    ensures
        v == w,
{
    reveal(le_u32);
    assert(le_u32(v)[0] == le_u32(w)[0]);
    assert(le_u32(v)[1] == le_u32(w)[1]);
    assert(le_u32(v)[2] == le_u32(w)[2]);
    assert(le_u32(v)[3] == le_u32(w)[3]);
    assert(v == (v % 256) + 256 * ((v / 256) % 256) + 65536 * ((v / 65536) % 256) + 16777216 * (v
        / 16777216)) by (nonlinear_arith);
    assert(w == (w % 256) + 256 * ((w / 256) % 256) + 65536 * ((w / 65536) % 256) + 16777216 * (w
        / 16777216)) by (nonlinear_arith);
}

proof fn lemma_le_u16_injective(v: u16, w: u16)
    requires
        le_u16(v) == le_u16(w),
    ensures
        v == w,
{
    assert(le_u16(v)[0] == le_u16(w)[0]);
    assert(le_u16(v)[1] == le_u16(w)[1]);
}

proof fn lemma_le_i32_injective(v: i32, w: i32)
    requires
        le_i32(v) == le_i32(w),
    ensures
        v == w,
{
    lemma_le_u32_injective(bits_i32(v), bits_i32(w));
}

/// Splitting a concatenation at the length of its left part.
proof fn lemma_split(a: Seq<u8>, b: Seq<u8>, c: Seq<u8>, d: Seq<u8>)
    requires
        a + b == c + d,
        a.len() == c.len(),
    ensures
        a == c,
        b == d,
{
    assert(a =~= (a + b).subrange(0, a.len() as int));
    assert(c =~= (c + d).subrange(0, c.len() as int));
    assert(b =~= (a + b).subrange(a.len() as int, (a + b).len() as int));
    assert(d =~= (c + d).subrange(c.len() as int, (c + d).len() as int));
}

proof fn lemma_u16s_injective(a: Seq<u16>, b: Seq<u16>)
    requires
        u16s_bytes(a) == u16s_bytes(b),
        a.len() == b.len(),
    ensures
        a == b,
    decreases a.len(),
{
    if a.len() > 0 {
        lemma_seq_bytes_len(a.drop_last(), Seq::empty(), Seq::empty(), Seq::empty(), Seq::empty());
        lemma_seq_bytes_len(b.drop_last(), Seq::empty(), Seq::empty(), Seq::empty(), Seq::empty());
        lemma_split(u16s_bytes(a.drop_last()), le_u16(a.last()), u16s_bytes(b.drop_last()), le_u16(b.last()));
        lemma_u16s_injective(a.drop_last(), b.drop_last());
        lemma_le_u16_injective(a.last(), b.last());
        assert(a =~= a.drop_last().push(a.last()));
        assert(b =~= b.drop_last().push(b.last()));
    } else {
        assert(a =~= b);
    }
}

proof fn lemma_u32s_injective(a: Seq<u32>, b: Seq<u32>)
    requires
        u32s_bytes(a) == u32s_bytes(b),
        a.len() == b.len(),
    ensures
        a == b,
    decreases a.len(),
{
    if a.len() > 0 {
        lemma_seq_bytes_len(Seq::empty(), a.drop_last(), Seq::empty(), Seq::empty(), Seq::empty());
        lemma_seq_bytes_len(Seq::empty(), b.drop_last(), Seq::empty(), Seq::empty(), Seq::empty());
        lemma_split(u32s_bytes(a.drop_last()), le_u32(a.last()), u32s_bytes(b.drop_last()), le_u32(b.last()));
        lemma_u32s_injective(a.drop_last(), b.drop_last());
        lemma_le_u32_injective(a.last(), b.last());
        assert(a =~= a.drop_last().push(a.last()));
        assert(b =~= b.drop_last().push(b.last()));
    } else {
        assert(a =~= b);
    }
}

proof fn lemma_i32s_injective(a: Seq<i32>, b: Seq<i32>)
    requires
        i32s_bytes(a) == i32s_bytes(b),
        a.len() == b.len(),
    ensures
        a == b,
    decreases a.len(),
{
    if a.len() > 0 {
        lemma_seq_bytes_len(Seq::empty(), Seq::empty(), a.drop_last(), Seq::empty(), Seq::empty());
        lemma_seq_bytes_len(Seq::empty(), Seq::empty(), b.drop_last(), Seq::empty(), Seq::empty());
        lemma_split(i32s_bytes(a.drop_last()), le_i32(a.last()), i32s_bytes(b.drop_last()), le_i32(b.last()));
        lemma_i32s_injective(a.drop_last(), b.drop_last());
        lemma_le_i32_injective(a.last(), b.last());
        assert(a =~= a.drop_last().push(a.last()));
        assert(b =~= b.drop_last().push(b.last()));
    } else {
        assert(a =~= b);
    }
}

proof fn lemma_fixeds_injective(a: Seq<Fixed>, b: Seq<Fixed>)
    requires
        fixeds_bytes(a) == fixeds_bytes(b),
        a.len() == b.len(),
    ensures
        a == b,
    decreases a.len(),
{
    if a.len() > 0 {
        lemma_seq_bytes_len(Seq::empty(), Seq::empty(), Seq::empty(), a.drop_last(), Seq::empty());
        lemma_seq_bytes_len(Seq::empty(), Seq::empty(), Seq::empty(), b.drop_last(), Seq::empty());
        lemma_split(fixeds_bytes(a.drop_last()), le_i32(a.last().0), fixeds_bytes(b.drop_last()), le_i32(b.last().0));
        lemma_fixeds_injective(a.drop_last(), b.drop_last());
        lemma_le_i32_injective(a.last().0, b.last().0);
        assert(a =~= a.drop_last().push(a.last()));
        assert(b =~= b.drop_last().push(b.last()));
    } else {
        assert(a =~= b);
    }
}

proof fn lemma_event_injective(e: Event, f: Event)
    requires
        event_bytes(e) == event_bytes(f),
    ensures
        e == f,
{
    let a = le_u32(e.frame) + seq![e.kind, e.a, e.b, e.reserved] + le_i32(e.x.0);
    let b = le_u32(f.frame) + seq![f.kind, f.a, f.b, f.reserved] + le_i32(f.x.0);
    lemma_split(a, le_i32(e.y.0), b, le_i32(f.y.0));
    let a1 = le_u32(e.frame) + seq![e.kind, e.a, e.b, e.reserved];
    let b1 = le_u32(f.frame) + seq![f.kind, f.a, f.b, f.reserved];
    lemma_split(a1, le_i32(e.x.0), b1, le_i32(f.x.0));
    lemma_split(le_u32(e.frame), seq![e.kind, e.a, e.b, e.reserved], le_u32(f.frame), seq![f.kind, f.a, f.b, f.reserved]);
    lemma_le_u32_injective(e.frame, f.frame);
    lemma_le_i32_injective(e.x.0, f.x.0);
    lemma_le_i32_injective(e.y.0, f.y.0);
    assert(seq![e.kind, e.a, e.b, e.reserved][0] == seq![f.kind, f.a, f.b, f.reserved][0]);
    assert(seq![e.kind, e.a, e.b, e.reserved][1] == seq![f.kind, f.a, f.b, f.reserved][1]);
    assert(seq![e.kind, e.a, e.b, e.reserved][2] == seq![f.kind, f.a, f.b, f.reserved][2]);
    assert(seq![e.kind, e.a, e.b, e.reserved][3] == seq![f.kind, f.a, f.b, f.reserved][3]);
}

proof fn lemma_events_injective(a: Seq<Event>, b: Seq<Event>)
    requires
        events_bytes(a) == events_bytes(b),
        a.len() == b.len(),
    ensures
        a == b,
    decreases a.len(),
{
    if a.len() > 0 {
        lemma_seq_bytes_len(Seq::empty(), Seq::empty(), Seq::empty(), Seq::empty(), a.drop_last());
        lemma_seq_bytes_len(Seq::empty(), Seq::empty(), Seq::empty(), Seq::empty(), b.drop_last());
        lemma_split(events_bytes(a.drop_last()), event_bytes(a.last()), events_bytes(b.drop_last()), event_bytes(b.last()));
        lemma_events_injective(a.drop_last(), b.drop_last());
        lemma_event_injective(a.last(), b.last());
        assert(a =~= a.drop_last().push(a.last()));
        assert(b =~= b.drop_last().push(b.last()));
    } else {
        assert(a =~= b);
    }
}

proof fn lemma_header_injective(a: Header, b: Header)
    requires
        header_bytes(a) == header_bytes(b),
    ensures
        a == b,
{
    let a0 = le_u32(a.frame);
    let b0 = le_u32(b.frame);
    let a1 = le_u32(a.num_players);
    let b1 = le_u32(b.num_players);
    let a2 = le_u32(a.seed);
    let b2 = le_u32(b.seed);
    let a3 = le_u32(a.map_id);
    let b3 = le_u32(b.map_id);
    let a4 = le_u32(a.mode);
    let b4 = le_u32(b.mode);
    lemma_split(a0 + a1 + a2 + a3, a4, b0 + b1 + b2 + b3, b4);
    lemma_split(a0 + a1 + a2, a3, b0 + b1 + b2, b3);
    lemma_split(a0 + a1, a2, b0 + b1, b2);
    lemma_split(a0, a1, b0, b1);
    lemma_le_u32_injective(a.frame, b.frame);
    lemma_le_u32_injective(a.num_players, b.num_players);
    lemma_le_u32_injective(a.seed, b.seed);
    lemma_le_u32_injective(a.map_id, b.map_id);
    lemma_le_u32_injective(a.mode, b.mode);
}

proof fn lemma_wave_injective(a: Wave, b: Wave)
    requires
        wave_bytes(a) == wave_bytes(b),
    ensures
        a == b,
{
    let a0 = le_u32(a.number);
    let b0 = le_u32(b.number);
    let a1 = le_u32(a.phase);
    let b1 = le_u32(b.phase);
    let a2 = le_u32(a.timer);
    let b2 = le_u32(b.timer);
    let a3 = le_u32(a.to_spawn);
    let b3 = le_u32(b.to_spawn);
    let a4 = le_u32(a.team_score);
    let b4 = le_u32(b.team_score);
    let a5 = le_u32(a.combo);
    let b5 = le_u32(b.combo);
    let a6 = le_u32(a.combo_timer);
    let b6 = le_u32(b.combo_timer);
    let a7 = le_u32(a.unlocked);
    let b7 = le_u32(b.unlocked);
    let a8 = le_u32(a.enemies_alive);
    let b8 = le_u32(b.enemies_alive);
    let a9 = le_u32(a.best_combo);
    let b9 = le_u32(b.best_combo);
    lemma_split(a0 + a1 + a2 + a3 + a4 + a5 + a6 + a7 + a8, a9, b0 + b1 + b2 + b3 + b4 + b5 + b6 + b7 + b8, b9);
    lemma_split(a0 + a1 + a2 + a3 + a4 + a5 + a6 + a7, a8, b0 + b1 + b2 + b3 + b4 + b5 + b6 + b7, b8);
    lemma_split(a0 + a1 + a2 + a3 + a4 + a5 + a6, a7, b0 + b1 + b2 + b3 + b4 + b5 + b6, b7);
    lemma_split(a0 + a1 + a2 + a3 + a4 + a5, a6, b0 + b1 + b2 + b3 + b4 + b5, b6);
    lemma_split(a0 + a1 + a2 + a3 + a4, a5, b0 + b1 + b2 + b3 + b4, b5);
    lemma_split(a0 + a1 + a2 + a3, a4, b0 + b1 + b2 + b3, b4);
    lemma_split(a0 + a1 + a2, a3, b0 + b1 + b2, b3);
    lemma_split(a0 + a1, a2, b0 + b1, b2);
    lemma_split(a0, a1, b0, b1);
    lemma_le_u32_injective(a.number, b.number);
    lemma_le_u32_injective(a.phase, b.phase);
    lemma_le_u32_injective(a.timer, b.timer);
    lemma_le_u32_injective(a.to_spawn, b.to_spawn);
    lemma_le_u32_injective(a.team_score, b.team_score);
    lemma_le_u32_injective(a.combo, b.combo);
    lemma_le_u32_injective(a.combo_timer, b.combo_timer);
    lemma_le_u32_injective(a.unlocked, b.unlocked);
    lemma_le_u32_injective(a.enemies_alive, b.enemies_alive);
    lemma_le_u32_injective(a.best_combo, b.best_combo);
}

proof fn lemma_ammo_injective(a: [[u16; WEAPON_COUNT]; MAX_PLAYERS], b: [[u16; WEAPON_COUNT]; MAX_PLAYERS])
    requires
        ammo_bytes(a) == ammo_bytes(b),
    ensures
        a == b,
{
    let e = Seq::<u32>::empty();
    let ei = Seq::<i32>::empty();
    let ef = Seq::<Fixed>::empty();
    let ee = Seq::<Event>::empty();
    lemma_seq_bytes_len(a[0]@, e, ei, ef, ee);
    lemma_seq_bytes_len(a[1]@, e, ei, ef, ee);
    lemma_seq_bytes_len(a[2]@, e, ei, ef, ee);
    lemma_seq_bytes_len(a[3]@, e, ei, ef, ee);
    lemma_seq_bytes_len(b[0]@, e, ei, ef, ee);
    lemma_seq_bytes_len(b[1]@, e, ei, ef, ee);
    lemma_seq_bytes_len(b[2]@, e, ei, ef, ee);
    lemma_seq_bytes_len(b[3]@, e, ei, ef, ee);
    let (a0, a1, a2, a3) = (u16s_bytes(a[0]@), u16s_bytes(a[1]@), u16s_bytes(a[2]@), u16s_bytes(a[3]@));
    let (b0, b1, b2, b3) = (u16s_bytes(b[0]@), u16s_bytes(b[1]@), u16s_bytes(b[2]@), u16s_bytes(b[3]@));
    lemma_split(a0 + a1 + a2, a3, b0 + b1 + b2, b3);
    lemma_split(a0 + a1, a2, b0 + b1, b2);
    lemma_split(a0, a1, b0, b1);
    lemma_u16s_injective(a[0]@, b[0]@);
    lemma_u16s_injective(a[1]@, b[1]@);
    lemma_u16s_injective(a[2]@, b[2]@);
    lemma_u16s_injective(a[3]@, b[3]@);
    lemma_array_eq(a[0], b[0]);
    lemma_array_eq(a[1], b[1]);
    lemma_array_eq(a[2], b[2]);
    lemma_array_eq(a[3], b[3]);
    assert(a =~= b);
}

proof fn lemma_players_injective(a: Players, b: Players)
    requires
        players_bytes(a) == players_bytes(b),
    ensures
        a == b,
{
    lemma_players_len(a);
    lemma_players_len(b);
    lemma_seq_bytes_len(a.reload_timer@, Seq::empty(), Seq::empty(), Seq::empty(), Seq::empty());
    lemma_seq_bytes_len(b.reload_timer@, Seq::empty(), Seq::empty(), Seq::empty(), Seq::empty());
    lemma_seq_bytes_len(a.cooldown@, a.kills@, a.hp@, a.x@, Seq::empty());
    lemma_seq_bytes_len(a.prev_input@, Seq::empty(), Seq::empty(), a.y@, Seq::empty());
    lemma_seq_bytes_len(a.down_timer@, Seq::empty(), Seq::empty(), Seq::empty(), Seq::empty());
    lemma_seq_bytes_len(a.revive@, Seq::empty(), Seq::empty(), Seq::empty(), Seq::empty());
    lemma_seq_bytes_len(a.absent@, Seq::empty(), Seq::empty(), Seq::empty(), Seq::empty());
    lemma_seq_bytes_len(a.revives_done@, Seq::empty(), Seq::empty(), Seq::empty(), Seq::empty());
    lemma_seq_bytes_len(b.cooldown@, b.kills@, b.hp@, b.x@, Seq::empty());
    lemma_seq_bytes_len(b.prev_input@, Seq::empty(), Seq::empty(), b.y@, Seq::empty());
    lemma_seq_bytes_len(b.down_timer@, Seq::empty(), Seq::empty(), Seq::empty(), Seq::empty());
    lemma_seq_bytes_len(b.revive@, Seq::empty(), Seq::empty(), Seq::empty(), Seq::empty());
    lemma_seq_bytes_len(b.absent@, Seq::empty(), Seq::empty(), Seq::empty(), Seq::empty());
    lemma_seq_bytes_len(b.revives_done@, Seq::empty(), Seq::empty(), Seq::empty(), Seq::empty());
    let a0 = fixeds_bytes(a.x@);
    let b0 = fixeds_bytes(b.x@);
    let a1 = fixeds_bytes(a.y@);
    let b1 = fixeds_bytes(b.y@);
    let a2 = i32s_bytes(a.hp@);
    let b2 = i32s_bytes(b.hp@);
    let a3 = u32s_bytes(a.kills@);
    let b3 = u32s_bytes(b.kills@);
    let a4 = a.life@;
    let b4 = b.life@;
    let a5 = a.facing@;
    let b5 = b.facing@;
    let a6 = a.weapon@;
    let b6 = b.weapon@;
    let a7 = a.hurt_flash@;
    let b7 = b.hurt_flash@;
    let a8 = u16s_bytes(a.cooldown@);
    let b8 = u16s_bytes(b.cooldown@);
    let a9 = u16s_bytes(a.prev_input@);
    let b9 = u16s_bytes(b.prev_input@);
    let a10 = u16s_bytes(a.down_timer@);
    let b10 = u16s_bytes(b.down_timer@);
    let a11 = u16s_bytes(a.revive@);
    let b11 = u16s_bytes(b.revive@);
    let a12 = u16s_bytes(a.absent@);
    let b12 = u16s_bytes(b.absent@);
    let a13 = u16s_bytes(a.revives_done@);
    let b13 = u16s_bytes(b.revives_done@);
    let a14 = ammo_bytes(a.ammo);
    let b14 = ammo_bytes(b.ammo);
    let a15 = u16s_bytes(a.reload_timer@);
    let b15 = u16s_bytes(b.reload_timer@);
    let ah = a0 + a1 + a2 + a3 + a4 + a5 + a6 + a7 + a8 + a9 + a10 + a11 + a12 + a13;
    let bh = b0 + b1 + b2 + b3 + b4 + b5 + b6 + b7 + b8 + b9 + b10 + b11 + b12 + b13;
    assert(ah.len() == 128);
    assert(bh.len() == 128);
    lemma_split(ah + a14, a15, bh + b14, b15);
    lemma_split(ah, a14, bh, b14);
    lemma_ammo_injective(a.ammo, b.ammo);
    lemma_u16s_injective(a.reload_timer@, b.reload_timer@);
    lemma_array_eq(a.reload_timer, b.reload_timer);
    lemma_split(a0 + a1 + a2 + a3 + a4 + a5 + a6 + a7 + a8 + a9 + a10 + a11 + a12, a13, b0 + b1 + b2 + b3 + b4 + b5 + b6 + b7 + b8 + b9 + b10 + b11 + b12, b13);
    lemma_split(a0 + a1 + a2 + a3 + a4 + a5 + a6 + a7 + a8 + a9 + a10 + a11, a12, b0 + b1 + b2 + b3 + b4 + b5 + b6 + b7 + b8 + b9 + b10 + b11, b12);
    lemma_split(a0 + a1 + a2 + a3 + a4 + a5 + a6 + a7 + a8 + a9 + a10, a11, b0 + b1 + b2 + b3 + b4 + b5 + b6 + b7 + b8 + b9 + b10, b11);
    lemma_split(a0 + a1 + a2 + a3 + a4 + a5 + a6 + a7 + a8 + a9, a10, b0 + b1 + b2 + b3 + b4 + b5 + b6 + b7 + b8 + b9, b10);
    lemma_split(a0 + a1 + a2 + a3 + a4 + a5 + a6 + a7 + a8, a9, b0 + b1 + b2 + b3 + b4 + b5 + b6 + b7 + b8, b9);
    lemma_split(a0 + a1 + a2 + a3 + a4 + a5 + a6 + a7, a8, b0 + b1 + b2 + b3 + b4 + b5 + b6 + b7, b8);
    lemma_split(a0 + a1 + a2 + a3 + a4 + a5 + a6, a7, b0 + b1 + b2 + b3 + b4 + b5 + b6, b7);
    lemma_split(a0 + a1 + a2 + a3 + a4 + a5, a6, b0 + b1 + b2 + b3 + b4 + b5, b6);
    lemma_split(a0 + a1 + a2 + a3 + a4, a5, b0 + b1 + b2 + b3 + b4, b5);
    lemma_split(a0 + a1 + a2 + a3, a4, b0 + b1 + b2 + b3, b4);
    lemma_split(a0 + a1 + a2, a3, b0 + b1 + b2, b3);
    lemma_split(a0 + a1, a2, b0 + b1, b2);
    lemma_split(a0, a1, b0, b1);
    lemma_fixeds_injective(a.x@, b.x@);
    lemma_fixeds_injective(a.y@, b.y@);
    lemma_i32s_injective(a.hp@, b.hp@);
    lemma_u32s_injective(a.kills@, b.kills@);
    lemma_u16s_injective(a.cooldown@, b.cooldown@);
    lemma_u16s_injective(a.prev_input@, b.prev_input@);
    lemma_u16s_injective(a.down_timer@, b.down_timer@);
    lemma_u16s_injective(a.revive@, b.revive@);
    lemma_u16s_injective(a.absent@, b.absent@);
    lemma_u16s_injective(a.revives_done@, b.revives_done@);
    lemma_array_eq(a.x, b.x);
    lemma_array_eq(a.y, b.y);
    lemma_array_eq(a.hp, b.hp);
    lemma_array_eq(a.kills, b.kills);
    lemma_array_eq(a.life, b.life);
    lemma_array_eq(a.facing, b.facing);
    lemma_array_eq(a.weapon, b.weapon);
    lemma_array_eq(a.hurt_flash, b.hurt_flash);
    lemma_array_eq(a.cooldown, b.cooldown);
    lemma_array_eq(a.prev_input, b.prev_input);
    lemma_array_eq(a.down_timer, b.down_timer);
    lemma_array_eq(a.revive, b.revive);
    lemma_array_eq(a.absent, b.absent);
    lemma_array_eq(a.revives_done, b.revives_done);
}

proof fn lemma_enemies_injective(a: Enemies, b: Enemies)
    requires
        enemies_bytes(a) == enemies_bytes(b),
    ensures
        a == b,
{
    lemma_seq_bytes_len(Seq::empty(), Seq::empty(), a.hp@, a.x@, Seq::empty());
    lemma_seq_bytes_len(Seq::empty(), Seq::empty(), Seq::empty(), a.y@, Seq::empty());
    lemma_seq_bytes_len(Seq::empty(), Seq::empty(), b.hp@, b.x@, Seq::empty());
    lemma_seq_bytes_len(Seq::empty(), Seq::empty(), Seq::empty(), b.y@, Seq::empty());
    let a0 = fixeds_bytes(a.x@);
    let b0 = fixeds_bytes(b.x@);
    let a1 = fixeds_bytes(a.y@);
    let b1 = fixeds_bytes(b.y@);
    let a2 = i32s_bytes(a.hp@);
    let b2 = i32s_bytes(b.hp@);
    let a3 = a.kind@;
    let b3 = b.kind@;
    let a4 = a.alive@;
    let b4 = b.alive@;
    let a5 = a.cooldown@;
    let b5 = b.cooldown@;
    let a6 = a.stagger@;
    let b6 = b.stagger@;
    lemma_split(a0 + a1 + a2 + a3 + a4 + a5, a6, b0 + b1 + b2 + b3 + b4 + b5, b6);
    lemma_split(a0 + a1 + a2 + a3 + a4, a5, b0 + b1 + b2 + b3 + b4, b5);
    lemma_split(a0 + a1 + a2 + a3, a4, b0 + b1 + b2 + b3, b4);
    lemma_split(a0 + a1 + a2, a3, b0 + b1 + b2, b3);
    lemma_split(a0 + a1, a2, b0 + b1, b2);
    lemma_split(a0, a1, b0, b1);
    lemma_fixeds_injective(a.x@, b.x@);
    lemma_fixeds_injective(a.y@, b.y@);
    lemma_i32s_injective(a.hp@, b.hp@);
    lemma_array_eq(a.x, b.x);
    lemma_array_eq(a.y, b.y);
    lemma_array_eq(a.hp, b.hp);
    lemma_array_eq(a.kind, b.kind);
    lemma_array_eq(a.alive, b.alive);
    lemma_array_eq(a.cooldown, b.cooldown);
    lemma_array_eq(a.stagger, b.stagger);
}

proof fn lemma_shots_injective(a: Shots, b: Shots)
    requires
        shots_bytes(a) == shots_bytes(b),
    ensures
        a == b,
{
    lemma_seq_bytes_len(Seq::empty(), Seq::empty(), Seq::empty(), a.x@, Seq::empty());
    lemma_seq_bytes_len(Seq::empty(), Seq::empty(), Seq::empty(), a.y@, Seq::empty());
    lemma_seq_bytes_len(Seq::empty(), Seq::empty(), Seq::empty(), a.vx@, Seq::empty());
    lemma_seq_bytes_len(Seq::empty(), Seq::empty(), Seq::empty(), a.vy@, Seq::empty());
    lemma_seq_bytes_len(Seq::empty(), Seq::empty(), Seq::empty(), b.x@, Seq::empty());
    lemma_seq_bytes_len(Seq::empty(), Seq::empty(), Seq::empty(), b.y@, Seq::empty());
    lemma_seq_bytes_len(Seq::empty(), Seq::empty(), Seq::empty(), b.vx@, Seq::empty());
    lemma_seq_bytes_len(Seq::empty(), Seq::empty(), Seq::empty(), b.vy@, Seq::empty());
    let a0 = fixeds_bytes(a.x@);
    let b0 = fixeds_bytes(b.x@);
    let a1 = fixeds_bytes(a.y@);
    let b1 = fixeds_bytes(b.y@);
    let a2 = fixeds_bytes(a.vx@);
    let b2 = fixeds_bytes(b.vx@);
    let a3 = fixeds_bytes(a.vy@);
    let b3 = fixeds_bytes(b.vy@);
    let a4 = a.ttl@;
    let b4 = b.ttl@;
    let a5 = a.owner@;
    let b5 = b.owner@;
    let a6 = a.damage@;
    let b6 = b.damage@;
    let a7 = a.kind@;
    let b7 = b.kind@;
    lemma_split(a0 + a1 + a2 + a3 + a4 + a5 + a6, a7, b0 + b1 + b2 + b3 + b4 + b5 + b6, b7);
    lemma_split(a0 + a1 + a2 + a3 + a4 + a5, a6, b0 + b1 + b2 + b3 + b4 + b5, b6);
    lemma_split(a0 + a1 + a2 + a3 + a4, a5, b0 + b1 + b2 + b3 + b4, b5);
    lemma_split(a0 + a1 + a2 + a3, a4, b0 + b1 + b2 + b3, b4);
    lemma_split(a0 + a1 + a2, a3, b0 + b1 + b2, b3);
    lemma_split(a0 + a1, a2, b0 + b1, b2);
    lemma_split(a0, a1, b0, b1);
    lemma_fixeds_injective(a.x@, b.x@);
    lemma_fixeds_injective(a.y@, b.y@);
    lemma_fixeds_injective(a.vx@, b.vx@);
    lemma_fixeds_injective(a.vy@, b.vy@);
    lemma_array_eq(a.x, b.x);
    lemma_array_eq(a.y, b.y);
    lemma_array_eq(a.vx, b.vx);
    lemma_array_eq(a.vy, b.vy);
    lemma_array_eq(a.ttl, b.ttl);
    lemma_array_eq(a.owner, b.owner);
    lemma_array_eq(a.damage, b.damage);
    lemma_array_eq(a.kind, b.kind);
}

proof fn lemma_ring_injective(a: EventRing, b: EventRing)
    requires
        ring_bytes(a) == ring_bytes(b),
    ensures
        a == b,
{
    lemma_seq_bytes_len(Seq::empty(), Seq::empty(), Seq::empty(), Seq::empty(), a.items@);
    lemma_seq_bytes_len(Seq::empty(), Seq::empty(), Seq::empty(), Seq::empty(), b.items@);
    let a0 = events_bytes(a.items@);
    let b0 = events_bytes(b.items@);
    let a1 = le_u32(a.head);
    let b1 = le_u32(b.head);
    let a2 = le_u32(a.total);
    let b2 = le_u32(b.total);
    lemma_split(a0 + a1, a2, b0 + b1, b2);
    lemma_split(a0, a1, b0, b1);
    lemma_events_injective(a.items@, b.items@);
    lemma_le_u32_injective(a.head, b.head);
    lemma_le_u32_injective(a.total, b.total);
    lemma_array_eq(a.items, b.items);
}

proof fn lemma_hide_seek_injective(a: HideSeek, b: HideSeek)
    requires
        hide_seek_bytes(a) == hide_seek_bytes(b),
    ensures
        a == b,
{
    lemma_seq_bytes_len(a.spot_frames@, Seq::empty(), Seq::empty(), Seq::empty(), Seq::empty());
    lemma_seq_bytes_len(b.spot_frames@, Seq::empty(), Seq::empty(), Seq::empty(), Seq::empty());
    let a0 = le_u32(a.phase);
    let b0 = le_u32(b.phase);
    let a1 = le_u32(a.timer);
    let b1 = le_u32(b.timer);
    let a2 = le_u32(a.winner);
    let b2 = le_u32(b.winner);
    let a3 = a.role@;
    let b3 = b.role@;
    let a4 = a.found@;
    let b4 = b.found@;
    let a5 = u16s_bytes(a.spot_frames@);
    let b5 = u16s_bytes(b.spot_frames@);
    lemma_split(a0 + a1 + a2 + a3 + a4, a5, b0 + b1 + b2 + b3 + b4, b5);
    lemma_split(a0 + a1 + a2 + a3, a4, b0 + b1 + b2 + b3, b4);
    lemma_split(a0 + a1 + a2, a3, b0 + b1 + b2, b3);
    lemma_split(a0 + a1, a2, b0 + b1, b2);
    lemma_split(a0, a1, b0, b1);
    lemma_le_u32_injective(a.phase, b.phase);
    lemma_le_u32_injective(a.timer, b.timer);
    lemma_le_u32_injective(a.winner, b.winner);
    lemma_u16s_injective(a.spot_frames@, b.spot_frames@);
    lemma_array_eq(a.role, b.role);
    lemma_array_eq(a.found, b.found);
    lemma_array_eq(a.spot_frames, b.spot_frames);
}

proof fn lemma_array_eq<T, const N: usize>(a: [T; N], b: [T; N])
    requires
        a@ == b@,
    ensures
        a == b,
{
    assert(a =~= b);
}

/// The byte image determines the state: two states with the same image are the same state,
/// so comparing images (or their checksums, up to hash collisions) compares whole states.
pub proof fn lemma_state_bytes_injective(a: State, b: State)
    requires
        state_bytes(a) == state_bytes(b),
    ensures
        a == b,
{
    lemma_parts_len(a);
    lemma_parts_len(b);
    lemma_players_len(a.players);
    lemma_players_len(b.players);
    lemma_enemies_shots_len(a.enemies, a.shots);
    lemma_enemies_shots_len(b.enemies, b.shots);
    let a0 = header_bytes(a.header);
    let b0 = header_bytes(b.header);
    let a1 = u32s_bytes(a.rng@@);
    let b1 = u32s_bytes(b.rng@@);
    let a2 = players_bytes(a.players);
    let b2 = players_bytes(b.players);
    let a3 = enemies_bytes(a.enemies);
    let b3 = enemies_bytes(b.enemies);
    let a4 = shots_bytes(a.shots);
    let b4 = shots_bytes(b.shots);
    let a5 = wave_bytes(a.wave);
    let b5 = wave_bytes(b.wave);
    let a6 = ring_bytes(a.events);
    let b6 = ring_bytes(b.events);
    let a7 = a.flow.dir@;
    let b7 = b.flow.dir@;
    let a8 = hide_seek_bytes(a.hide_seek);
    let b8 = hide_seek_bytes(b.hide_seek);
    lemma_split(a0 + a1 + a2 + a3 + a4 + a5 + a6 + a7, a8, b0 + b1 + b2 + b3 + b4 + b5 + b6 + b7, b8);
    lemma_split(a0 + a1 + a2 + a3 + a4 + a5 + a6, a7, b0 + b1 + b2 + b3 + b4 + b5 + b6, b7);
    lemma_split(a0 + a1 + a2 + a3 + a4 + a5, a6, b0 + b1 + b2 + b3 + b4 + b5, b6);
    lemma_split(a0 + a1 + a2 + a3 + a4, a5, b0 + b1 + b2 + b3 + b4, b5);
    lemma_split(a0 + a1 + a2 + a3, a4, b0 + b1 + b2 + b3, b4);
    lemma_split(a0 + a1 + a2, a3, b0 + b1 + b2, b3);
    lemma_split(a0 + a1, a2, b0 + b1, b2);
    lemma_split(a0, a1, b0, b1);
    lemma_header_injective(a.header, b.header);
    lemma_u32s_injective(a.rng@@, b.rng@@);
    lemma_array_eq(a.rng@, b.rng@);
    crate::rng::lemma_view_injective(a.rng, b.rng);
    lemma_players_injective(a.players, b.players);
    lemma_enemies_injective(a.enemies, b.enemies);
    lemma_shots_injective(a.shots, b.shots);
    lemma_wave_injective(a.wave, b.wave);
    lemma_ring_injective(a.events, b.events);
    lemma_array_eq(a.flow.dir, b.flow.dir);
    lemma_hide_seek_injective(a.hide_seek, b.hide_seek);
}

} // verus!
