//! Rollback-able world state. Flat, fixed-size, no heap.

use crate::config::{EVENT_RING, MAX_ENEMIES, MAX_PLAYERS, MAX_SHOTS, TILES, WEAPON_COUNT};
use crate::fx::Fixed;
use crate::rng::Rng;
use vstd::prelude::*;

verus! {

/// Player lifecycle. Stored as `u8` (declaration order = stored value).
#[derive(Clone, Copy, Debug, PartialEq, Eq, Structural)]
pub enum Life {
    /// Slot unused.
    Empty,
    /// Playing.
    Alive,
    /// HP 0, can be revived.
    Downed,
    /// Waiting for next wave.
    Dead,
    /// Disconnected and removed.
    Gone,
}

/// Stored value of [`Life::Empty`].
pub const LIFE_EMPTY: u8 = 0;
/// Stored value of [`Life::Alive`].
pub const LIFE_ALIVE: u8 = 1;
/// Stored value of [`Life::Downed`].
pub const LIFE_DOWNED: u8 = 2;
/// Stored value of [`Life::Dead`].
pub const LIFE_DEAD: u8 = 3;
/// Stored value of [`Life::Gone`].
pub const LIFE_GONE: u8 = 4;

/// `a` with entry `i` replaced by `v`.
pub open spec fn upd<T, const N: usize>(a: [T; N], i: int, v: T) -> [T; N] {
    vstd::array::spec_array_update(a, i, v)
}

/// Decoding of a stored life value; unknown values map to `Empty`.
pub open spec fn life_of(v: u8) -> Life {
    if v == 1 {
        Life::Alive
    } else if v == 2 {
        Life::Downed
    } else if v == 3 {
        Life::Dead
    } else if v == 4 {
        Life::Gone
    } else {
        Life::Empty
    }
}

impl Life {
    /// Decode from storage; unknown values map to `Empty`.
    pub fn from_u8(v: u8) -> (r: Life)
        ensures
            r == life_of(v),
    {
        if v == 1 {
            Life::Alive
        } else if v == 2 {
            Life::Downed
        } else if v == 3 {
            Life::Dead
        } else if v == 4 {
            Life::Gone
        } else {
            Life::Empty
        }
    }
}

/// Players, structure-of-arrays.
#[derive(Clone, Copy, Debug)]
pub struct Players {
    /// Position x.
    pub x: [Fixed; MAX_PLAYERS],
    /// Position y.
    pub y: [Fixed; MAX_PLAYERS],
    /// Hit points.
    pub hp: [i32; MAX_PLAYERS],
    /// Kills credited.
    pub kills: [u32; MAX_PLAYERS],
    /// [`Life`] as u8.
    pub life: [u8; MAX_PLAYERS],
    /// Facing direction 1..=8.
    pub facing: [u8; MAX_PLAYERS],
    /// Equipped weapon index.
    pub weapon: [u8; MAX_PLAYERS],
    /// Hurt flash frames (render only, but deterministic).
    pub hurt_flash: [u8; MAX_PLAYERS],
    /// Frames until next shot.
    pub cooldown: [u16; MAX_PLAYERS],
    /// Previous frame input (edge detection).
    pub prev_input: [u16; MAX_PLAYERS],
    /// Downed countdown.
    pub down_timer: [u16; MAX_PLAYERS],
    /// Revive progress.
    pub revive: [u16; MAX_PLAYERS],
    /// Consecutive frames without `present`.
    pub absent: [u16; MAX_PLAYERS],
    /// Revives performed.
    pub revives_done: [u16; MAX_PLAYERS],
    /// Rounds left per weapon ([`crate::config::INFINITE_AMMO`] for a weapon that never runs out).
    pub ammo: [[u16; WEAPON_COUNT]; MAX_PLAYERS],
    /// Frames until the reload in progress completes; 0 = not reloading.
    pub reload_timer: [u16; MAX_PLAYERS],
}

/// Enemies, structure-of-arrays.
#[derive(Clone, Copy, Debug)]
pub struct Enemies {
    /// Position x.
    pub x: [Fixed; MAX_ENEMIES],
    /// Position y.
    pub y: [Fixed; MAX_ENEMIES],
    /// Hit points.
    pub hp: [i32; MAX_ENEMIES],
    /// [`crate::config::EnemyKind`] as u8.
    pub kind: [u8; MAX_ENEMIES],
    /// 1 if slot is in use.
    pub alive: [u8; MAX_ENEMIES],
    /// Frames until next attack.
    pub cooldown: [u8; MAX_ENEMIES],
    /// Frames of stagger remaining.
    pub stagger: [u8; MAX_ENEMIES],
}

/// Projectiles, structure-of-arrays.
#[derive(Clone, Copy, Debug)]
pub struct Shots {
    /// Position x.
    pub x: [Fixed; MAX_SHOTS],
    /// Position y.
    pub y: [Fixed; MAX_SHOTS],
    /// Velocity x.
    pub vx: [Fixed; MAX_SHOTS],
    /// Velocity y.
    pub vy: [Fixed; MAX_SHOTS],
    /// Frames left.
    pub ttl: [u8; MAX_SHOTS],
    /// Owner player index.
    pub owner: [u8; MAX_SHOTS],
    /// Damage.
    pub damage: [u8; MAX_SHOTS],
    /// Weapon kind (render).
    pub kind: [u8; MAX_SHOTS],
}

/// Wave phase (stored as `u32`: Intermission 0, Active 1, GameOver 2).
#[derive(Clone, Copy, Debug, PartialEq, Eq, Structural)]
pub enum WavePhase {
    /// Countdown before spawning.
    Intermission,
    /// Spawning and fighting.
    Active,
    /// Everyone is down.
    GameOver,
}

/// Stored value of [`WavePhase::Intermission`].
pub const PHASE_INTERMISSION: u32 = 0;
/// Stored value of [`WavePhase::Active`].
pub const PHASE_ACTIVE: u32 = 1;
/// Stored value of [`WavePhase::GameOver`].
pub const PHASE_GAME_OVER: u32 = 2;

/// Wave / scoring state.
#[derive(Clone, Copy, Debug, PartialEq, Eq, Structural)]
pub struct Wave {
    /// Current wave number (1-based once started).
    pub number: u32,
    /// [`WavePhase`] as u32.
    pub phase: u32,
    /// Phase timer (frames).
    pub timer: u32,
    /// Enemies left to spawn this wave.
    pub to_spawn: u32,
    /// Team score.
    pub team_score: u32,
    /// Current combo.
    pub combo: u32,
    /// Frames until combo resets.
    pub combo_timer: u32,
    /// Bitmask of unlocked weapons.
    pub unlocked: u32,
    /// Enemies alive (cached count).
    pub enemies_alive: u32,
    /// Best combo reached.
    pub best_combo: u32,
}

/// Feedback event kinds (stored as `u8`, see [`event_code`]).
#[derive(Clone, Copy, Debug, PartialEq, Eq, Structural)]
pub enum EventKind {
    /// Enemy hit.
    Hit,
    /// Enemy killed.
    Kill,
    /// Player took damage.
    PlayerHurt,
    /// Player downed.
    Down,
    /// Player revived.
    Revive,
    /// Weapon unlocked (a = weapon).
    Unlock,
    /// Wave started (a = wave number, saturating).
    WaveStart,
    /// Game over.
    GameOver,
    /// Shot fired (a = weapon).
    Fire,
    /// Hide & seek: a hider was caught (a = player).
    Found,
    /// Hide & seek: the round ended (a = winner).
    RoundEnd,
}

/// The stored code of an event kind (1-based; 0 marks an unused ring slot).
pub open spec fn event_code(k: EventKind) -> u8 {
    match k {
        EventKind::Hit => 1,
        EventKind::Kill => 2,
        EventKind::PlayerHurt => 3,
        EventKind::Down => 4,
        EventKind::Revive => 5,
        EventKind::Unlock => 6,
        EventKind::WaveStart => 7,
        EventKind::GameOver => 8,
        EventKind::Fire => 9,
        EventKind::Found => 10,
        EventKind::RoundEnd => 11,
    }
}

impl EventKind {
    /// The stored code of this kind.
    pub fn code(self) -> (r: u8)
        ensures
            r == event_code(self),
    {
        match self {
            EventKind::Hit => 1,
            EventKind::Kill => 2,
            EventKind::PlayerHurt => 3,
            EventKind::Down => 4,
            EventKind::Revive => 5,
            EventKind::Unlock => 6,
            EventKind::WaveStart => 7,
            EventKind::GameOver => 8,
            EventKind::Fire => 9,
            EventKind::Found => 10,
            EventKind::RoundEnd => 11,
        }
    }
}

/// One feedback event.
#[derive(Clone, Copy, Debug, Default, PartialEq, Eq, Structural)]
pub struct Event {
    /// Frame it happened.
    pub frame: u32,
    /// [`EventKind`] code.
    pub kind: u8,
    /// Payload a (player index, weapon, …).
    pub a: u8,
    /// Payload b.
    pub b: u8,
    /// Reserved (keeps layout padding-free).
    pub reserved: u8,
    /// Position x.
    pub x: Fixed,
    /// Position y.
    pub y: Fixed,
}

/// Ring buffer of recent events.
#[derive(Clone, Copy, Debug)]
pub struct EventRing {
    /// Storage.
    pub items: [Event; EVENT_RING],
    /// Next write index.
    pub head: u32,
    /// Total pushed (monotonic, wrapping).
    pub total: u32,
}

/// The ring after appending `ev`, overwriting the oldest entry.
pub open spec fn push_spec(r: EventRing, ev: Event) -> EventRing {
    EventRing {
        items: vstd::array::spec_array_update(r.items, (r.head % 64) as int, ev),
        head: ((r.head + 1) % 64) as u32,
        total: vstd::wrapping::u32_specs::wrapping_add(r.total, 1),
    }
}

impl EventRing {
    /// Append an event, overwriting the oldest.
    pub fn push(&mut self, ev: Event)
        ensures
            *final(self) == push_spec(*old(self), ev),
    {
        broadcast use vstd::array::group_array_axioms;

        let i = (self.head % 64) as usize;
        self.items[i] = ev;
        self.head = ((self.head as u64 + 1) % 64) as u32;
        self.total = self.total.wrapping_add(1);
        proof {
            assert(self.items =~= push_spec(*old(self), ev).items);
        }
    }
}

/// The ring after pushing `evs` in order.
pub open spec fn push_all(r: EventRing, evs: Seq<Event>) -> EventRing
    decreases evs.len(),
{
    if evs.len() == 0 {
        r
    } else {
        push_spec(push_all(r, evs.drop_last()), evs.last())
    }
}

proof fn lemma_mod64_distinct(h0: int, m: int, n: int)
    requires
        0 <= h0 < 64,
        0 <= m < n,
        n - m < 64,
    ensures
        (h0 + m) % 64 != (h0 + n) % 64,
{
    vstd::arithmetic::div_mod::lemma_fundamental_div_mod(h0 + m, 64);
    vstd::arithmetic::div_mod::lemma_fundamental_div_mod(h0 + n, 64);
    assert((h0 + m) % 64 != (h0 + n) % 64) by (nonlinear_arith)
        requires
            0 <= h0 < 64,
            0 <= m < n,
            n - m < 64,
            h0 + m == 64 * ((h0 + m) / 64) + (h0 + m) % 64,
            h0 + n == 64 * ((h0 + n) / 64) + (h0 + n) % 64,
            0 <= (h0 + m) % 64 < 64,
            0 <= (h0 + n) % 64 < 64,
    ;
}

proof fn lemma_mod64_next(h: int, n: int)
    requires
        0 <= h,
        0 <= n,
    ensures
        ((h + n) % 64 + 1) % 64 == (h + n + 1) % 64,
{
    vstd::arithmetic::div_mod::lemma_add_mod_noop(h + n, 1, 64);
}

proof fn lemma_push_all_slots(r: EventRing, evs: Seq<Event>)
    ensures
        push_all(r, evs).head % 64 == (r.head % 64 + evs.len()) % 64,
        evs.len() > 0 ==> push_all(r, evs).head < 64,
        push_all(r, evs).total == (r.total + evs.len()) % 0x1_0000_0000,
        forall|m: int|
            0 <= m < evs.len() && evs.len() - m <= 64 ==> #[trigger] push_all(r, evs).items[(r.head
                % 64 + m) % 64] == evs[m],
    decreases evs.len(),
{
    broadcast use vstd::array::group_array_axioms;

    if evs.len() > 0 {
        let n = (evs.len() - 1) as int;
        let p = evs.drop_last();
        lemma_push_all_slots(r, p);
        let q = push_all(r, p);
        let t = push_all(r, evs);
        let h0 = r.head % 64;
        assert(t == push_spec(q, evs.last()));
        assert(q.head % 64 == (h0 + n) % 64);
        lemma_mod64_next(h0 as int, n);
        assert(t.head == (q.head % 64 + 1) % 64);
        assert(t.head % 64 == (h0 + n + 1) % 64);
        vstd::arithmetic::div_mod::lemma_add_mod_noop(r.total + n, 1, 0x1_0000_0000);
        assert forall|m: int|
            0 <= m < evs.len() && evs.len() - m <= 64 implies #[trigger] t.items[(h0 + m) % 64]
            == evs[m] by {
            if m < n {
                assert(p[m] == evs[m]);
                lemma_mod64_distinct(h0 as int, m, n);
                assert(q.items[(h0 + m) % 64] == p[m]);
            }
        }
    }
}

/// The ring keeps the newest events: after 64 or more pushes its slots, read from `head`
/// onwards, hold the last 64 events pushed, oldest first; `total` counts every push (wrapping)
/// and `head` advances by one per push.
pub proof fn lemma_ring_keeps_newest(r: EventRing, evs: Seq<Event>)
    requires
        evs.len() >= EVENT_RING,
    ensures
        push_all(r, evs).total == (r.total + evs.len()) % 0x1_0000_0000,
        push_all(r, evs).head == (r.head % 64 + evs.len()) % 64,
        forall|j: int|
            0 <= j < EVENT_RING ==> #[trigger] push_all(r, evs).items[(push_all(r, evs).head + j)
                % 64] == evs[evs.len() - EVENT_RING + j],
{
    lemma_push_all_slots(r, evs);
    let t = push_all(r, evs);
    let h0 = r.head % 64;
    let k = evs.len();
    assert forall|j: int| 0 <= j < EVENT_RING implies #[trigger] t.items[(t.head + j) % 64] == evs[k
        - EVENT_RING + j] by {
        let m = k - 64 + j;
        assert((t.head + j) % 64 == (h0 + m) % 64);
    }
}

/// Flow field: per tile, direction (1..=8) toward the nearest alive player; 0 = unreachable/target.
#[derive(Clone, Copy, Debug)]
pub struct FlowField {
    /// Directions.
    pub dir: [u8; TILES],
}

/// Session constants mixed into state so every snapshot is self-describing.
#[derive(Clone, Copy, Debug, PartialEq, Eq, Structural)]
pub struct Header {
    /// Frames simulated.
    pub frame: u32,
    /// Players in the session.
    pub num_players: u32,
    /// Seed used at init.
    pub seed: u32,
    /// Map id.
    pub map_id: u32,
    /// [`GameMode`] as u32.
    pub mode: u32,
}

/// Session mode (stored as `u32`: Survival 0, HideSeek 1).
#[derive(Clone, Copy, Debug, PartialEq, Eq, Structural)]
pub enum GameMode {
    /// Waves of enemies, weapons, score.
    Survival,
    /// One seeker finds hiders by sight.
    HideSeek,
}

/// Hide & seek round phase (stored as `u32`: Hiding 0, Seeking 1, RoundOver 2).
#[derive(Clone, Copy, Debug, PartialEq, Eq, Structural)]
pub enum HideSeekPhase {
    /// Prep countdown; the seeker is frozen.
    Hiding,
    /// The seeker hunts.
    Seeking,
    /// Decided; nobody moves.
    RoundOver,
}

/// Stored value of [`HideSeekPhase::Hiding`].
pub const HS_HIDING: u32 = 0;
/// Stored value of [`HideSeekPhase::Seeking`].
pub const HS_SEEKING: u32 = 1;
/// Stored value of [`HideSeekPhase::RoundOver`].
pub const HS_ROUND_OVER: u32 = 2;

/// Hide & seek round state.
#[derive(Clone, Copy, Debug)]
pub struct HideSeek {
    /// [`HideSeekPhase`] as u32.
    pub phase: u32,
    /// Phase timer (frames).
    pub timer: u32,
    /// 0 undecided, 1 hiders won, 2 seeker won.
    pub winner: u32,
    /// 1 = seeker, 0 = hider.
    pub role: [u8; MAX_PLAYERS],
    /// 1 once caught.
    pub found: [u8; MAX_PLAYERS],
    /// Consecutive frames in the seeker's sight.
    pub spot_frames: [u16; MAX_PLAYERS],
}

/// The whole rollback-able world.
#[derive(Clone, Copy, Debug)]
pub struct State {
    /// Session header.
    pub header: Header,
    /// PRNG.
    pub rng: Rng,
    /// Players.
    pub players: Players,
    /// Enemies.
    pub enemies: Enemies,
    /// Projectiles.
    pub shots: Shots,
    /// Wave and score.
    pub wave: Wave,
    /// Feedback events.
    pub events: EventRing,
    /// Pathing.
    pub flow: FlowField,
    /// Hide & seek round.
    pub hide_seek: HideSeek,
}

/// The wave phase a stored value decodes to (unknown values read as Intermission).
pub open spec fn phase_of(v: u32) -> WavePhase {
    if v == 1 {
        WavePhase::Active
    } else if v == 2 {
        WavePhase::GameOver
    } else {
        WavePhase::Intermission
    }
}

/// The session mode a stored value decodes to (unknown values read as Survival).
pub open spec fn mode_of(v: u32) -> GameMode {
    if v == 1 {
        GameMode::HideSeek
    } else {
        GameMode::Survival
    }
}

/// The state with event `kind` (payload `a`, position `(x, y)`) appended for the current frame.
pub open spec fn emit_spec(s: State, kind: EventKind, a: u8, x: Fixed, y: Fixed) -> State {
    State {
        events: push_spec(
            s.events,
            Event { frame: s.header.frame, kind: event_code(kind), a, b: 0, reserved: 0, x, y },
        ),
        ..s
    }
}

impl State {
    /// Current wave phase.
    pub fn phase(&self) -> (r: WavePhase)
        ensures
            r == phase_of(self.wave.phase),
    {
        if self.wave.phase == 1 {
            WavePhase::Active
        } else if self.wave.phase == 2 {
            WavePhase::GameOver
        } else {
            WavePhase::Intermission
        }
    }

    /// Current session mode.
    pub fn mode(&self) -> (r: GameMode)
        ensures
            r == mode_of(self.header.mode),
    {
        if self.header.mode == 1 {
            GameMode::HideSeek
        } else {
            GameMode::Survival
        }
    }

    /// Player life.
    pub fn life(&self, i: usize) -> (r: Life)
        requires
            i < MAX_PLAYERS,
        ensures
            r == life_of(self.players.life[i as int]),
    {
        Life::from_u8(self.players.life[i])
    }

    /// Record a feedback event for the current frame.
    pub fn emit(&mut self, kind: EventKind, a: u8, x: Fixed, y: Fixed)
        ensures
            *final(self) == emit_spec(*old(self), kind, a, x, y),
    {
        let frame = self.header.frame;
        let code = kind.code();
        self.events.push(Event { frame, kind: code, a, b: 0, reserved: 0, x, y });
    }
}


/// A state with every field zero except the generator.
pub open spec fn blank_spec(rng: Rng) -> State {
    State {
        header: Header { frame: 0, num_players: 0, seed: 0, map_id: 0, mode: 0 },
        rng,
        players: Players {
            x: [Fixed(0); MAX_PLAYERS],
            y: [Fixed(0); MAX_PLAYERS],
            hp: [0i32; MAX_PLAYERS],
            kills: [0u32; MAX_PLAYERS],
            life: [0u8; MAX_PLAYERS],
            facing: [0u8; MAX_PLAYERS],
            weapon: [0u8; MAX_PLAYERS],
            hurt_flash: [0u8; MAX_PLAYERS],
            cooldown: [0u16; MAX_PLAYERS],
            prev_input: [0u16; MAX_PLAYERS],
            down_timer: [0u16; MAX_PLAYERS],
            revive: [0u16; MAX_PLAYERS],
            absent: [0u16; MAX_PLAYERS],
            revives_done: [0u16; MAX_PLAYERS],
            ammo: [[0u16; WEAPON_COUNT]; MAX_PLAYERS],
            reload_timer: [0u16; MAX_PLAYERS],
        },
        enemies: Enemies {
            x: [Fixed(0); MAX_ENEMIES],
            y: [Fixed(0); MAX_ENEMIES],
            hp: [0i32; MAX_ENEMIES],
            kind: [0u8; MAX_ENEMIES],
            alive: [0u8; MAX_ENEMIES],
            cooldown: [0u8; MAX_ENEMIES],
            stagger: [0u8; MAX_ENEMIES],
        },
        shots: Shots {
            x: [Fixed(0); MAX_SHOTS],
            y: [Fixed(0); MAX_SHOTS],
            vx: [Fixed(0); MAX_SHOTS],
            vy: [Fixed(0); MAX_SHOTS],
            ttl: [0u8; MAX_SHOTS],
            owner: [0u8; MAX_SHOTS],
            damage: [0u8; MAX_SHOTS],
            kind: [0u8; MAX_SHOTS],
        },
        wave: Wave {
            number: 0,
            phase: 0,
            timer: 0,
            to_spawn: 0,
            team_score: 0,
            combo: 0,
            combo_timer: 0,
            unlocked: 0,
            enemies_alive: 0,
            best_combo: 0,
        },
        events: EventRing {
            items: [Event { frame: 0, kind: 0, a: 0, b: 0, reserved: 0, x: Fixed(0), y: Fixed(0) }; EVENT_RING],
            head: 0,
            total: 0,
        },
        flow: FlowField { dir: [0u8; TILES] },
        hide_seek: HideSeek {
            phase: 0,
            timer: 0,
            winner: 0,
            role: [0u8; MAX_PLAYERS],
            found: [0u8; MAX_PLAYERS],
            spot_frames: [0u16; MAX_PLAYERS],
        },
    }
}

impl State {
    /// A state with every field zero except the generator.
    pub fn blank(rng: Rng) -> (r: State)
        ensures
            r == blank_spec(rng),
    {
        State {
            header: Header { frame: 0, num_players: 0, seed: 0, map_id: 0, mode: 0 },
            rng,
            players: Players {
                x: [Fixed(0); MAX_PLAYERS],
                y: [Fixed(0); MAX_PLAYERS],
                hp: [0i32; MAX_PLAYERS],
                kills: [0u32; MAX_PLAYERS],
                life: [0u8; MAX_PLAYERS],
                facing: [0u8; MAX_PLAYERS],
                weapon: [0u8; MAX_PLAYERS],
                hurt_flash: [0u8; MAX_PLAYERS],
                cooldown: [0u16; MAX_PLAYERS],
                prev_input: [0u16; MAX_PLAYERS],
                down_timer: [0u16; MAX_PLAYERS],
                revive: [0u16; MAX_PLAYERS],
                absent: [0u16; MAX_PLAYERS],
                revives_done: [0u16; MAX_PLAYERS],
                ammo: [[0u16; WEAPON_COUNT]; MAX_PLAYERS],
                reload_timer: [0u16; MAX_PLAYERS],
            },
            enemies: Enemies {
                x: [Fixed(0); MAX_ENEMIES],
                y: [Fixed(0); MAX_ENEMIES],
                hp: [0i32; MAX_ENEMIES],
                kind: [0u8; MAX_ENEMIES],
                alive: [0u8; MAX_ENEMIES],
                cooldown: [0u8; MAX_ENEMIES],
                stagger: [0u8; MAX_ENEMIES],
            },
            shots: Shots {
                x: [Fixed(0); MAX_SHOTS],
                y: [Fixed(0); MAX_SHOTS],
                vx: [Fixed(0); MAX_SHOTS],
                vy: [Fixed(0); MAX_SHOTS],
                ttl: [0u8; MAX_SHOTS],
                owner: [0u8; MAX_SHOTS],
                damage: [0u8; MAX_SHOTS],
                kind: [0u8; MAX_SHOTS],
            },
            wave: Wave {
                number: 0,
                phase: 0,
                timer: 0,
                to_spawn: 0,
                team_score: 0,
                combo: 0,
                combo_timer: 0,
                unlocked: 0,
                enemies_alive: 0,
                best_combo: 0,
            },
            events: EventRing {
                items: [Event { frame: 0, kind: 0, a: 0, b: 0, reserved: 0, x: Fixed(0), y: Fixed(0) }; EVENT_RING],
                head: 0,
                total: 0,
            },
            flow: FlowField { dir: [0u8; TILES] },
            hide_seek: HideSeek {
                phase: 0,
                timer: 0,
                winner: 0,
                role: [0u8; MAX_PLAYERS],
                found: [0u8; MAX_PLAYERS],
                spot_frames: [0u16; MAX_PLAYERS],
            },
        }
    }
}

} // verus!
