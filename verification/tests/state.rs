use hordegrid::bytes::STATE_BYTES;
use hordegrid::fx::Fixed;
use hordegrid::rng::Rng;
use hordegrid::state::{Event, EventKind, Life, State, WavePhase};

#[test]
fn when_measuring_state_then_within_budget() {
    let size = core::mem::size_of::<State>();
    assert!(size <= 64 * 1024, "State is {size} bytes, budget 64KiB");
}

#[test]
fn life_decodes_unknown_values_as_empty() {
    assert_eq!(Life::from_u8(0), Life::Empty);
    assert_eq!(Life::from_u8(1), Life::Alive);
    assert_eq!(Life::from_u8(2), Life::Downed);
    assert_eq!(Life::from_u8(3), Life::Dead);
    assert_eq!(Life::from_u8(4), Life::Gone);
    assert_eq!(Life::from_u8(200), Life::Empty);
}

#[test]
fn event_ring_wraps_and_counts() {
    let mut s = State::blank(Rng::from_seed(1));
    for k in 0..70u32 {
        s.header.frame = k;
        s.emit(EventKind::Hit, 1, Fixed(0), Fixed(0));
    }
    assert_eq!(s.events.total, 70);
    assert_eq!(s.events.head, 70 % 64);
    let newest: Event = s.events.items[((s.events.head + 63) % 64) as usize];
    assert_eq!(newest.frame, 69);
    assert_eq!(newest.kind, 1);
}

#[test]
fn unknown_phase_reads_as_intermission() {
    let mut s = State::blank(Rng::from_seed(1));
    s.wave.phase = 9;
    assert_eq!(s.phase(), WavePhase::Intermission);
    s.wave.phase = 2;
    assert_eq!(s.phase(), WavePhase::GameOver);
}

#[test]
fn byte_image_covers_every_field() {
    let s = State::blank(Rng::from_seed(5));
    let bytes = s.as_bytes();
    // header 20, generator 16, players 4 * 42, enemies 384 * 16, shots 256 * 20, wave 40,
    // events 64 * 16 + 8, flow 1200, hide & seek 28
    assert_eq!(bytes.len(), 20 + 16 + 168 + 6144 + 5120 + 40 + 1032 + 1200 + 28);
    assert_eq!(bytes.len(), STATE_BYTES);
    let mut t = s;
    t.flow.dir[1199] = 3;
    assert_ne!(t.as_bytes(), bytes);
    let mut u = s;
    u.players.ammo[3][3] = 1;
    assert_ne!(u.as_bytes(), bytes);
    u = s;
    u.players.reload_timer[2] = 1;
    assert_ne!(u.as_bytes(), bytes);
    assert_ne!(t.checksum(), s.checksum());
    assert_eq!(s.checksum(), State::blank(Rng::from_seed(5)).checksum());
}
