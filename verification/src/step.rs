//! The pure step function: the next state from the current one and the frame's inputs.
//! System order is part of the determinism contract.

use crate::config::{
    full_ammo, full_ammo_spec, INTERMISSION_FRAMES, MAX_ENEMIES, MAX_PLAYERS, MAX_SHOTS, PLAYER_HP,
    PLAYER_RADIUS, TILES,
};
use crate::enemies::{enemy_loop_ok, update_enemies, update_enemies_spec};
use crate::flow::{flow_spec, rebuild, FlowScratch};
use crate::fx::Fixed;
use crate::grid::EnemyGrid;
use crate::hide_seek::{hs_move_one, hs_moves_upto, hs_step_spec, init_spec, lemma_hs_round_over_frozen};
use crate::input::{lemma_sanitized_laws, sanitized_bits, PlayerInput};
use crate::inv::{
    alive_count, enemies_ok, flow_ok, lemma_alive_count_same, lemma_players_ok_frame,
    players_ok, standing, state_ok, MAX_WAVE,
};
use crate::map::{parse_upto, yard_rows, MapData};
use crate::physics::{box_clear, tile_of};
use crate::players::{
    lemma_fire_pellets_frame, presence_one, presence_upto, players_upto, revives_upto,
    update_players, update_presence, update_revives,
};
use crate::rng::Rng;
use crate::shots::{shot_loop_ok, shots_upto, update_shots};
use crate::state::{
    blank_spec, life_of, mode_of, phase_of, upd, FlowField, GameMode, Header, Life, Players,
    State, Wave, WavePhase, HS_HIDING, HS_ROUND_OVER, LIFE_ALIVE, PHASE_INTERMISSION,
};
use crate::waves::{
    centre, check_game_over, combo_spec, game_over_spec, lemma_centred_box_clear,
    update_combo, update_waves, waves_spec,
};
use vstd::prelude::*;

verus! {

broadcast use vstd::array::group_array_axioms;

/// Frames between flow-field rebuilds.
pub const FLOW_INTERVAL: u32 = 8;

// ---------------------------------------------------------------- inputs
/// Inputs `0..k` sanitized, the rest as given.
pub open spec fn sanitize_upto(inputs: [PlayerInput; MAX_PLAYERS], k: nat) -> [PlayerInput;
    MAX_PLAYERS]
    decreases k,
{
    if k == 0 {
        inputs
    } else {
        upd(
            sanitize_upto(inputs, (k - 1) as nat),
            k - 1,
            PlayerInput(sanitized_bits(inputs[k - 1].0)),
        )
    }
}

/// Every input of a frame sanitized.
pub open spec fn sanitized_inputs(inputs: [PlayerInput; MAX_PLAYERS]) -> [PlayerInput; MAX_PLAYERS] {
    sanitize_upto(inputs, MAX_PLAYERS as nat)
}

proof fn lemma_sanitize_upto(inputs: [PlayerInput; MAX_PLAYERS], k: nat)
    requires
        k <= MAX_PLAYERS,
    ensures
        forall|i: int|
            0 <= i < MAX_PLAYERS ==> (#[trigger] sanitize_upto(inputs, k)[i]).0 == if i < k {
                sanitized_bits(inputs[i].0)
            } else {
                inputs[i].0
            },
    decreases k,
{
    if k > 0 {
        let m = (k - 1) as nat;
        lemma_sanitize_upto(inputs, m);
        let prev = sanitize_upto(inputs, m);
        assert forall|i: int| 0 <= i < MAX_PLAYERS implies (#[trigger] sanitize_upto(
            inputs,
            k,
        )[i]).0 == if i < k {
            sanitized_bits(inputs[i].0)
        } else {
            inputs[i].0
        } by {
            assert(prev[i].0 == if i < m {
                sanitized_bits(inputs[i].0)
            } else {
                inputs[i].0
            });
        }
    }
}

fn sanitize_all(inputs: &[PlayerInput; MAX_PLAYERS]) -> (r: [PlayerInput; MAX_PLAYERS])
    ensures
        r == sanitized_inputs(*inputs),
{
    let mut r = *inputs;
    let mut i: usize = 0;
    while i < MAX_PLAYERS
        invariant
            i <= MAX_PLAYERS,
            r == sanitize_upto(*inputs, i as nat),
        decreases MAX_PLAYERS - i,
    {
        proof {
            lemma_sanitize_upto(*inputs, i as nat);
        }
        let v = r[i].sanitized();
        r[i] = v;
        proof {
            assert(r =~= sanitize_upto(*inputs, (i + 1) as nat));
        }
        i = i + 1;
    }
    r
}

/// Previous-input bits of players `0..k` replaced by this frame's.
pub open spec fn prev_upto(prev: [u16; MAX_PLAYERS], ins: [PlayerInput; MAX_PLAYERS], k: nat) -> [u16;
    MAX_PLAYERS]
    decreases k,
{
    if k == 0 {
        prev
    } else {
        upd(prev_upto(prev, ins, (k - 1) as nat), k - 1, ins[k - 1].0)
    }
}

// ---------------------------------------------------------------- tile crossings
/// Whether player `i`, alive in `b`, stands on another tile than at `(x[i], y[i])`.
pub open spec fn changed_tile(x: [Fixed; MAX_PLAYERS], y: [Fixed; MAX_PLAYERS], b: State, i: int) -> bool {
    &&& life_of(b.players.life[i]) == Life::Alive
    &&& (tile_of(x[i]) != tile_of(b.players.x[i]) || tile_of(y[i]) != tile_of(b.players.y[i]))
}

/// Whether some player among `0..n`, alive in `b`, left the tile it stood on at `(x, y)`.
pub open spec fn crossed_upto(x: [Fixed; MAX_PLAYERS], y: [Fixed; MAX_PLAYERS], b: State, n: nat) -> bool
    decreases n,
{
    n > 0 && (crossed_upto(x, y, b, (n - 1) as nat) || changed_tile(x, y, b, n - 1))
}

fn any_crossed(x: &[Fixed; MAX_PLAYERS], y: &[Fixed; MAX_PLAYERS], s: &State) -> (r: bool)
    ensures
        r == crossed_upto(*x, *y, *s, MAX_PLAYERS as nat),
{
    let mut r = false;
    let mut i: usize = 0;
    while i < MAX_PLAYERS
        invariant
            i <= MAX_PLAYERS,
            r == crossed_upto(*x, *y, *s, i as nat),
        decreases MAX_PLAYERS - i,
    {
        if s.life(i) == Life::Alive && (x[i].floor_int() != s.players.x[i].floor_int()
            || y[i].floor_int() != s.players.y[i].floor_int()) {
            r = true;
        }
        i = i + 1;
    }
    r
}

// ---------------------------------------------------------------- the step
/// One survival frame after the frame counter ticked, with sanitized inputs: presence,
/// players, revives, the flow field (every [`FLOW_INTERVAL`] frames, and at once on a frame
/// where an alive player crossed into another tile), enemies, projectiles, combo, waves, game
/// over, and the edge-detection inputs.
pub open spec fn survival_spec(s: State, map: MapData, ins: [PlayerInput; MAX_PLAYERS]) -> State {
    let s1 = presence_upto(s, ins, MAX_PLAYERS as nat);
    let s2 = players_upto(s1, map, ins, MAX_PLAYERS as nat);
    let s3 = revives_upto(s2, MAX_PLAYERS as nat);
    let s4 = if s3.header.frame % FLOW_INTERVAL == 0 || crossed_upto(
        s.players.x,
        s.players.y,
        s3,
        MAX_PLAYERS as nat,
    ) {
        State { flow: FlowField { dir: flow_spec(s3, map) }, ..s3 }
    } else {
        s3
    };
    let s5 = update_enemies_spec(s4, map, s4.enemies);
    let s6 = shots_upto(s5, map, s5.enemies, MAX_SHOTS as nat);
    let s7 = game_over_spec(waves_spec(combo_spec(s6), map));
    State {
        players: Players {
            prev_input: prev_upto(s7.players.prev_input, ins, MAX_PLAYERS as nat),
            ..s7.players
        },
        ..s7
    }
}

/// The next state: the frame counter ticks (wrapping), inputs are sanitized, and the mode's
/// step runs; a finished survival game only counts frames.
pub open spec fn step_spec(s: State, map: MapData, inputs: [PlayerInput; MAX_PLAYERS]) -> State {
    let s0 = State {
        header: Header {
            frame: vstd::wrapping::u32_specs::wrapping_add(s.header.frame, 1),
            ..s.header
        },
        ..s
    };
    let ins = sanitized_inputs(inputs);
    if mode_of(s0.header.mode) == GameMode::HideSeek {
        hs_step_spec(s0, map, ins)
    } else if phase_of(s0.wave.phase) == WavePhase::GameOver {
        s0
    } else {
        survival_spec(s0, map, ins)
    }
}

// ---------------------------------------------------------------- frame facts
proof fn lemma_presence_keeps(s: State, map: MapData, inputs: [PlayerInput; MAX_PLAYERS], n: nat)
    requires
        players_ok(s, map),
        n <= MAX_PLAYERS,
    ensures
        players_ok(presence_upto(s, inputs, n), map),
        presence_upto(s, inputs, n).enemies == s.enemies,
        presence_upto(s, inputs, n).wave == s.wave,
        presence_upto(s, inputs, n).flow == s.flow,
        presence_upto(s, inputs, n).header == s.header,
    decreases n,
{
    if n > 0 {
        let m = (n - 1) as nat;
        lemma_presence_keeps(s, map, inputs, m);
        let p = presence_upto(s, inputs, m);
        let r = presence_one(p, inputs[m as int], m as int);
        assert forall|j: int| 0 <= j < MAX_PLAYERS && #[trigger] standing(r, j) implies box_clear(
            map,
            r.players.x[j],
            r.players.y[j],
            Fixed(PLAYER_RADIUS),
        ) by {
            assert(standing(p, j));
        }
        assert forall|j: int| 0 <= j < MAX_PLAYERS implies #[trigger] r.players.hp[j] >= 0 by {
            assert(p.players.hp[j] >= 0);
        }
        assert forall|j: int| 0 <= j < MAX_PLAYERS implies #[trigger] r.players.revive[j]
            < crate::config::REVIVE_FRAMES by {
            assert(p.players.revive[j] < crate::config::REVIVE_FRAMES);
        }
    }
}

proof fn lemma_players_frame(s: State, map: MapData, inputs: [PlayerInput; MAX_PLAYERS], n: nat)
    ensures
        players_upto(s, map, inputs, n).enemies == s.enemies,
        players_upto(s, map, inputs, n).wave == s.wave,
        players_upto(s, map, inputs, n).flow == s.flow,
        players_upto(s, map, inputs, n).header == s.header,
    decreases n,
{
    broadcast use lemma_fire_pellets_frame;

    if n > 0 {
        lemma_players_frame(s, map, inputs, (n - 1) as nat);
    }
}

proof fn lemma_revives_frame(s: State, n: nat)
    ensures
        revives_upto(s, n).enemies == s.enemies,
        revives_upto(s, n).wave == s.wave,
        revives_upto(s, n).flow == s.flow,
        revives_upto(s, n).header == s.header,
    decreases n,
{
    if n > 0 {
        lemma_revives_frame(s, (n - 1) as nat);
    }
}

proof fn lemma_enemies_ok_frame(a: State, b: State, map: MapData)
    requires
        enemies_ok(a, map),
        a.enemies == b.enemies,
        a.wave.enemies_alive == b.wave.enemies_alive,
    ensures
        enemies_ok(b, map),
{
}


proof fn lemma_alive_count_none(en: crate::state::Enemies, n: nat)
    requires
        forall|j: int| 0 <= j < MAX_ENEMIES ==> #[trigger] en.alive[j] == 0,
        n <= MAX_ENEMIES,
    ensures
        alive_count(en, n) == 0,
    decreases n,
{
    if n > 0 {
        lemma_alive_count_none(en, (n - 1) as nat);
    }
}

// ---------------------------------------------------------------- world
/// Static map plus scratch buffers. Owns nothing that must roll back.
pub struct World {
    /// Map in use.
    pub map: MapData,
    flow: FlowScratch,
    grid: EnemyGrid,
}

/// A world is modelled by its map: the scratch buffers carry nothing between steps.
impl View for World {
    type V = MapData;

    closed spec fn view(&self) -> MapData {
        self.map
    }
}

/// The player count a game starts with: clamped into `1..=MAX_PLAYERS`.
pub open spec fn clamp_players(n: u8) -> int {
    if n < 1 {
        1
    } else if n > MAX_PLAYERS {
        MAX_PLAYERS as int
    } else {
        n as int
    }
}

/// Players `0..k` placed on their start tiles, alive, with full HP and full ammo, facing south.
pub open spec fn placed_upto(s: State, map: MapData, k: nat) -> State
    decreases k,
{
    if k == 0 {
        s
    } else {
        let p = placed_upto(s, map, (k - 1) as nat);
        let i = k - 1;
        State {
            players: Players {
                x: upd(p.players.x, i, centre(map.starts[i].0)),
                y: upd(p.players.y, i, centre(map.starts[i].1)),
                hp: upd(p.players.hp, i, PLAYER_HP),
                life: upd(p.players.life, i, LIFE_ALIVE),
                facing: upd(p.players.facing, i, 5u8),
                ammo: upd(p.players.ammo, i, full_ammo_spec()),
                ..p.players
            },
            ..p
        }
    }
}

/// A fresh game: `num_players` (clamped) on their start tiles, the PRNG seeded, then the
/// mode's setup (survival: a half intermission, the pistol unlocked and the flow field built;
/// hide & seek: the first round's roles).
pub open spec fn initial_spec(map: MapData, num_players: u8, seed: u32, mode: u8) -> State {
    let n = clamp_players(num_players);
    let z = blank_spec(Rng::seeded_rng(seed));
    let s0 = State {
        header: Header { num_players: n as u32, seed, mode: mode as u32, ..z.header },
        ..z
    };
    let s1 = placed_upto(s0, map, n as nat);
    if mode_of(s1.header.mode) == GameMode::Survival {
        let s2 = State {
            wave: Wave {
                phase: PHASE_INTERMISSION,
                timer: INTERMISSION_FRAMES / 2,
                unlocked: 1,
                ..s1.wave
            },
            ..s1
        };
        State { flow: FlowField { dir: flow_spec(s2, map) }, ..s2 }
    } else {
        init_spec(s1)
    }
}

impl World {
    /// Create a world for `map_id` (every id builds the yard).
    pub fn new(map_id: u8) -> (r: World)
        ensures
            r@ == parse_upto(yard_rows(), TILES as nat),
            r@.wf(),
    {
        World { map: MapData::by_id(map_id), flow: FlowScratch::new(), grid: EnemyGrid::new() }
    }

    /// The map in use.
    pub fn map(&self) -> (r: &MapData)
        ensures
            *r == self@,
    {
        &self.map
    }

    /// Fresh initial state. Boxed: `State` is tens of KiB. `mode` is [`GameMode`] as `u8`.
    pub fn initial_state(&self, num_players: u8, seed: u32, mode: u8) -> (r: Box<State>)
        requires
            self@.wf(),
        ensures
            *r == initial_spec(self@, num_players, seed, mode),
            state_ok(*r, self@),
    {
        let map = &self.map;
        let mut s = State::blank(Rng::from_seed(seed));
        let n: usize = if num_players < 1 {
            1
        } else if num_players as usize > MAX_PLAYERS {
            MAX_PLAYERS
        } else {
            num_players as usize
        };
        s.header.num_players = n as u32;
        s.header.seed = seed;
        s.header.mode = mode as u32;
        let ghost s0 = s;
        let mut i: usize = 0;
        while i < n
            invariant
                i <= n,
                1 <= n <= MAX_PLAYERS,
                n == clamp_players(num_players),
                map.wf(),
                s == placed_upto(s0, *map, i as nat),
                s0 == (State {
                    header: Header {
                        num_players: n as u32,
                        seed,
                        mode: mode as u32,
                        ..blank_spec(Rng::seeded_rng(seed)).header
                    },
                    ..blank_spec(Rng::seeded_rng(seed))
                }),
                forall|j: int|
                    0 <= j < i ==> {
                        &&& #[trigger] s.players.x[j] == centre(map.starts[j].0)
                        &&& s.players.y[j] == centre(map.starts[j].1)
                        &&& s.players.hp[j] == PLAYER_HP
                        &&& s.players.life[j] == LIFE_ALIVE
                    },
                forall|j: int| i <= j < MAX_PLAYERS ==> #[trigger] s.players.life[j] == 0,
                forall|j: int| 0 <= j < MAX_PLAYERS ==> #[trigger] s.players.hp[j] >= 0,
                s.players.revive == s0.players.revive,
                s.enemies == s0.enemies,
                s.wave == s0.wave,
                s.flow == s0.flow,
                s.header == s0.header,
                s.hide_seek == s0.hide_seek,
            decreases n - i,
        {
            let (tx, ty) = map.starts[i];
            let ghost p = s;
            s.players.x[i] = Fixed::from_int(tx as i32) + Fixed(crate::fx::HALF_RAW);
            s.players.y[i] = Fixed::from_int(ty as i32) + Fixed(crate::fx::HALF_RAW);
            s.players.hp[i] = PLAYER_HP;
            s.players.life[i] = LIFE_ALIVE;
            s.players.facing[i] = 5;
            s.players.ammo[i] = full_ammo();
            proof {
                let want = placed_upto(s0, *map, (i + 1) as nat);
                assert(s.players.x =~= want.players.x);
                assert(s.players.y =~= want.players.y);
                assert(s.players.hp =~= want.players.hp);
                assert(s.players.life =~= want.players.life);
                assert(s.players.facing =~= want.players.facing);
                assert(s.players.ammo =~= want.players.ammo);
            }
            i = i + 1;
        }
        proof {
            assert forall|j: int| 0 <= j < MAX_PLAYERS && #[trigger] standing(s, j) implies box_clear(
                *map,
                s.players.x[j],
                s.players.y[j],
                Fixed(PLAYER_RADIUS),
            ) by {
                assert(j < n);
                assert(s.players.x[j] == centre(map.starts[j].0));
                lemma_centred_box_clear(*map, map.starts[j].0, map.starts[j].1, Fixed(PLAYER_RADIUS));
            }
            assert forall|j: int| 0 <= j < MAX_PLAYERS implies #[trigger] s.players.revive[j]
                < crate::config::REVIVE_FRAMES by {
                assert(s0.players.revive[j] == 0);
            }
            assert(players_ok(s, *map));
            assert forall|j: int| 0 <= j < MAX_ENEMIES implies #[trigger] s.enemies.alive[j] == 0 by {
                assert(s0.enemies.alive[j] == 0);
            }
            lemma_alive_count_none(s.enemies, MAX_ENEMIES as nat);
            assert(enemies_ok(s, *map));
        }
        match s.mode() {
            GameMode::Survival => {
                s.wave.phase = PHASE_INTERMISSION;
                s.wave.timer = INTERMISSION_FRAMES / 2;
                s.wave.unlocked = 1;
                let ghost s2 = s;
                let mut scratch = FlowScratch::new();
                rebuild(&mut s, map, &mut scratch);
                proof {
                    lemma_players_ok_frame(s2, s, *map);
                }
            },
            GameMode::HideSeek => {
                let ghost s2 = s;
                crate::hide_seek::init(&mut s);
                proof {
                    lemma_players_ok_frame(s2, s, *map);
                    assert forall|t: int| 0 <= t < TILES implies #[trigger] s.flow.dir[t] <= 8 by {
                        assert(s0.flow.dir[t] == 0);
                    }
                }
            },
        }
        Box::new(s)
    }
}

impl World {
    /// Advance one frame.
    ///
    /// The next state is [`step_spec`] of the current one: a function of the state, the map
    /// and the inputs alone, so re-simulating from a saved state with the same inputs gives
    /// the same result, whatever the scratch buffers hold. The state invariant is kept as
    /// long as the wave counter has room for the next wave.
    pub fn step(&mut self, s: &mut State, inputs: &[PlayerInput; MAX_PLAYERS])
        requires
            old(self)@.wf(),
            state_ok(*old(s), old(self)@),
        ensures
            final(self)@ == old(self)@,
            *final(s) == step_spec(*old(s), old(self)@, *inputs),
            players_ok(*final(s), old(self)@),
            enemies_ok(*final(s), old(self)@),
            flow_ok(*final(s)),
            final(s).wave.number <= old(s).wave.number + 1,
            old(s).wave.number + 1 < MAX_WAVE ==> state_ok(*final(s), old(self)@),
            final(s).header == (Header {
                frame: vstd::wrapping::u32_specs::wrapping_add(old(s).header.frame, 1),
                ..old(s).header
            }),
    {
        let ghost b = *s;
        s.header.frame = s.header.frame.wrapping_add(1);
        let ins = sanitize_all(inputs);
        proof {
            lemma_players_ok_frame(b, *s, self.map);
        }
        if s.mode() == GameMode::HideSeek {
            proof {
                lemma_sanitize_upto(*inputs, MAX_PLAYERS as nat);
                assert forall|i: int| 0 <= i < MAX_PLAYERS implies #[trigger] ins[i].0 & 0x000F
                    <= 8 by {
                    lemma_sanitized_laws(inputs[i].0);
                }
            }
            crate::hide_seek::step(s, &self.map, ins);
            return;
        }
        if s.phase() == WavePhase::GameOver {
            return;
        }
        self.survival(s, ins);
    }

    fn survival(&mut self, s: &mut State, ins: [PlayerInput; MAX_PLAYERS])
        requires
            old(self).map.wf(),
            state_ok(*old(s), old(self).map),
        ensures
            final(self).map == old(self).map,
            *final(s) == survival_spec(*old(s), old(self).map, ins),
            players_ok(*final(s), old(self).map),
            enemies_ok(*final(s), old(self).map),
            flow_ok(*final(s)),
            final(s).wave.number <= old(s).wave.number + 1,
            final(s).header == old(s).header,
    {
        let ghost b = *s;
        let ghost map = self.map;
        let x0 = s.players.x;
        let y0 = s.players.y;
        update_presence(s, ins);
        proof {
            lemma_presence_keeps(b, map, ins, MAX_PLAYERS as nat);
        }
        let ghost s1 = *s;
        update_players(s, &self.map, ins);
        proof {
            lemma_players_frame(s1, map, ins, MAX_PLAYERS as nat);
        }
        let ghost s2 = *s;
        update_revives(s, &self.map);
        proof {
            lemma_revives_frame(s2, MAX_PLAYERS as nat);
        }
        let ghost s3 = *s;
        if s.header.frame % FLOW_INTERVAL == 0 || any_crossed(&x0, &y0, s) {
            rebuild(s, &self.map, &mut self.flow);
            proof {
                lemma_players_ok_frame(s3, *s, map);
            }
        }
        let ghost s4 = *s;
        self.grid.rebuild(&s.enemies);
        proof {
            assert(enemy_loop_ok(*s, map, self.grid.source()));
        }
        update_enemies(s, &self.map, &self.grid);
        let ghost s5 = *s;
        proof {
            lemma_alive_count_same(s4.enemies, s5.enemies, MAX_ENEMIES as nat);
            assert forall|e: int|
                0 <= e < MAX_ENEMIES && #[trigger] s5.enemies.alive[e] != 0 implies s5.enemies.hp[e]
                > 0 by {
                assert(s4.enemies.alive[e] != 0);
            }
            assert(enemies_ok(s5, map));
        }
        self.grid.rebuild(&s.enemies);
        update_shots(s, &self.map, &self.grid);
        let ghost s6 = *s;
        update_combo(s);
        proof {
            lemma_players_ok_frame(s6, *s, map);
            lemma_enemies_ok_frame(s6, *s, map);
        }
        update_waves(s, &self.map);
        let ghost s8 = *s;
        check_game_over(s);
        proof {
            lemma_players_ok_frame(s8, *s, map);
            lemma_enemies_ok_frame(s8, *s, map);
        }
        let ghost s9 = *s;
        let mut i: usize = 0;
        while i < MAX_PLAYERS
            invariant
                i <= MAX_PLAYERS,
                *s == (State {
                    players: Players {
                        prev_input: prev_upto(s9.players.prev_input, ins, i as nat),
                        ..s9.players
                    },
                    ..s9
                }),
            decreases MAX_PLAYERS - i,
        {
            s.players.prev_input[i] = ins[i].0;
            proof {
                assert(s.players.prev_input =~= prev_upto(s9.players.prev_input, ins, (i + 1) as nat));
            }
            i = i + 1;
        }
        proof {
            lemma_players_ok_frame(s9, *s, map);
            lemma_enemies_ok_frame(s9, *s, map);
        }
    }
}

// ---------------------------------------------------------------- laws
proof fn lemma_placed(s: State, map: MapData, k: nat)
    requires
        k <= MAX_PLAYERS,
    ensures
        forall|i: int|
            0 <= i < k ==> {
                &&& #[trigger] placed_upto(s, map, k).players.hp[i] == PLAYER_HP
                &&& placed_upto(s, map, k).players.life[i] == LIFE_ALIVE
                &&& placed_upto(s, map, k).players.x[i] == centre(map.starts[i].0)
                &&& placed_upto(s, map, k).players.y[i] == centre(map.starts[i].1)
                &&& placed_upto(s, map, k).players.ammo[i] == full_ammo_spec()
            },
        forall|i: int|
            k <= i < MAX_PLAYERS ==> #[trigger] placed_upto(s, map, k).players.life[i]
                == s.players.life[i],
        placed_upto(s, map, k).header == s.header,
        placed_upto(s, map, k).hide_seek == s.hide_seek,
        placed_upto(s, map, k).wave == s.wave,
        placed_upto(s, map, k).enemies == s.enemies,
    decreases k,
{
    if k > 0 {
        let m = (k - 1) as nat;
        lemma_placed(s, map, m);
        let p = placed_upto(s, map, m);
        let q = placed_upto(s, map, k);
        assert forall|i: int| 0 <= i < k implies {
            &&& #[trigger] q.players.hp[i] == PLAYER_HP
            &&& q.players.life[i] == LIFE_ALIVE
            &&& q.players.x[i] == centre(map.starts[i].0)
            &&& q.players.y[i] == centre(map.starts[i].1)
            &&& q.players.ammo[i] == full_ammo_spec()
        } by {
            if i < m {
                assert(p.players.hp[i] == PLAYER_HP);
            }
        }
        assert forall|i: int| k <= i < MAX_PLAYERS implies #[trigger] q.players.life[i]
            == s.players.life[i] by {
            assert(p.players.life[i] == s.players.life[i]);
        }
    }
}

/// A fresh game seats `clamp(num_players)` players, each alive at full health
/// ([`PLAYER_HP`]) with full ammo, centred on its start tile; the other slots are empty. No
/// enemy is alive, and the header records the player count, the seed and the mode.
pub proof fn lemma_fresh_game(map: MapData, num_players: u8, seed: u32, mode: u8)
    ensures
        ({
            let s = initial_spec(map, num_players, seed, mode);
            let n = clamp_players(num_players);
            &&& s.header.num_players == n
            &&& s.header.seed == seed
            &&& s.header.mode == mode
            &&& s.header.frame == 0
            &&& forall|i: int|
                0 <= i < n ==> {
                    &&& #[trigger] s.players.hp[i] == PLAYER_HP
                    &&& s.players.life[i] == LIFE_ALIVE
                    &&& s.players.x[i] == centre(map.starts[i].0)
                    &&& s.players.y[i] == centre(map.starts[i].1)
                    &&& s.players.ammo[i] == full_ammo_spec()
                }
            &&& forall|i: int| n <= i < MAX_PLAYERS ==> #[trigger] s.players.life[i] == 0
            &&& forall|e: int| 0 <= e < MAX_ENEMIES ==> #[trigger] s.enemies.alive[e] == 0
        }),
{
    let n = clamp_players(num_players);
    let z = blank_spec(Rng::seeded_rng(seed));
    let s0 = State {
        header: Header { num_players: n as u32, seed, mode: mode as u32, ..z.header },
        ..z
    };
    lemma_placed(s0, map, n as nat);
    let s = initial_spec(map, num_players, seed, mode);
    let s1 = placed_upto(s0, map, n as nat);
    assert(s.players == s1.players);
    assert forall|i: int| n <= i < MAX_PLAYERS implies #[trigger] s.players.life[i] == 0 by {
        assert(s1.players.life[i] == s0.players.life[i]);
    }
    assert forall|e: int| 0 <= e < MAX_ENEMIES implies #[trigger] s.enemies.alive[e] == 0 by {
        assert(s1.enemies == s0.enemies);
    }
}

/// The timeline from `s` under the inputs of `frames`, one step per frame.
pub open spec fn run_spec(s: State, map: MapData, frames: Seq<[PlayerInput; MAX_PLAYERS]>) -> State
    decreases frames.len(),
{
    if frames.len() == 0 {
        s
    } else {
        step_spec(run_spec(s, map, frames.drop_last()), map, frames.last())
    }
}

/// Rollback: re-simulating from the state saved after the frames `a` with the frames `b`
/// reproduces exactly the state reached by running `a` then `b` in one go.
pub proof fn lemma_resimulation(
    s: State,
    map: MapData,
    a: Seq<[PlayerInput; MAX_PLAYERS]>,
    b: Seq<[PlayerInput; MAX_PLAYERS]>,
)
    ensures
        run_spec(run_spec(s, map, a), map, b) == run_spec(s, map, a + b),
    decreases b.len(),
{
    if b.len() == 0 {
        assert(a + b =~= a);
    } else {
        lemma_resimulation(s, map, a, b.drop_last());
        assert((a + b).drop_last() =~= a + b.drop_last());
        assert((a + b).last() == b.last());
    }
}

/// Inputs are sanitized before use: a frame's inputs and their sanitized form give the same
/// next state.
pub proof fn lemma_step_sanitizes(s: State, map: MapData, inputs: [PlayerInput; MAX_PLAYERS])
    ensures
        step_spec(s, map, sanitized_inputs(inputs)) == step_spec(s, map, inputs),
{
    let once = sanitized_inputs(inputs);
    let twice = sanitized_inputs(once);
    lemma_sanitize_upto(inputs, MAX_PLAYERS as nat);
    lemma_sanitize_upto(once, MAX_PLAYERS as nat);
    assert forall|i: int| 0 <= i < MAX_PLAYERS implies #[trigger] twice[i] == once[i] by {
        lemma_sanitized_laws(inputs[i].0);
    }
    assert(twice =~= once);
}

/// A finished survival game stays finished: a step only counts the frame.
pub proof fn lemma_game_over_absorbing(s: State, map: MapData, inputs: [PlayerInput; MAX_PLAYERS])
    requires
        mode_of(s.header.mode) == GameMode::Survival,
        phase_of(s.wave.phase) == WavePhase::GameOver,
    ensures
        step_spec(s, map, inputs) == (State {
            header: Header {
                frame: vstd::wrapping::u32_specs::wrapping_add(s.header.frame, 1),
                ..s.header
            },
            ..s
        }),
{
}

/// Once a hide & seek round is decided nothing changes but the frame counter.
pub proof fn lemma_round_over_frozen(s: State, map: MapData, inputs: [PlayerInput; MAX_PLAYERS])
    requires
        mode_of(s.header.mode) == GameMode::HideSeek,
        s.hide_seek.phase == HS_ROUND_OVER,
    ensures
        step_spec(s, map, inputs) == (State {
            header: Header {
                frame: vstd::wrapping::u32_specs::wrapping_add(s.header.frame, 1),
                ..s.header
            },
            ..s
        }),
{
    let s0 = State {
        header: Header {
            frame: vstd::wrapping::u32_specs::wrapping_add(s.header.frame, 1),
            ..s.header
        },
        ..s
    };
    lemma_hs_round_over_frozen(s0, map, sanitized_inputs(inputs));
}

proof fn lemma_seeker_still(
    s: State,
    map: MapData,
    inputs: [PlayerInput; MAX_PLAYERS],
    i: int,
    k: nat,
)
    requires
        s.hide_seek.phase == HS_HIDING,
        0 <= i < MAX_PLAYERS,
        s.hide_seek.role[i] == 1,
        k <= MAX_PLAYERS,
    ensures
        hs_moves_upto(s, map, inputs, k).players.x[i] == s.players.x[i],
        hs_moves_upto(s, map, inputs, k).players.y[i] == s.players.y[i],
        hs_moves_upto(s, map, inputs, k).players.facing[i] == s.players.facing[i],
        hs_moves_upto(s, map, inputs, k).hide_seek == s.hide_seek,
    decreases k,
{
    if k > 0 {
        let j = k - 1;
        lemma_seeker_still(s, map, inputs, i, j as nat);
        let p = hs_moves_upto(s, map, inputs, j as nat);
        let r = hs_move_one(p, map, inputs[j], j);
        if j != i {
            let d = inputs[j].0 & 0x000F;
            let p1 = if d != 0 {
                State {
                    players: Players { facing: upd(p.players.facing, j, d as u8), ..p.players },
                    ..p
                }
            } else {
                p
            };
            assert(p1.players.facing[i] == p.players.facing[i]);
            assert(r.players.x[i] == p.players.x[i]);
            assert(r.players.y[i] == p.players.y[i]);
        }
    }
}

/// During the prep countdown the seeker stays where it is, facing the same way.
pub proof fn lemma_seeker_waits(
    s: State,
    map: MapData,
    inputs: [PlayerInput; MAX_PLAYERS],
    i: int,
)
    requires
        mode_of(s.header.mode) == GameMode::HideSeek,
        s.hide_seek.phase == HS_HIDING,
        0 <= i < MAX_PLAYERS,
        s.hide_seek.role[i] == 1,
        s.header.num_players <= MAX_PLAYERS,
    ensures
        step_spec(s, map, inputs).players.x[i] == s.players.x[i],
        step_spec(s, map, inputs).players.y[i] == s.players.y[i],
        step_spec(s, map, inputs).players.facing[i] == s.players.facing[i],
{
    let s0 = State {
        header: Header {
            frame: vstd::wrapping::u32_specs::wrapping_add(s.header.frame, 1),
            ..s.header
        },
        ..s
    };
    lemma_seeker_still(s0, map, sanitized_inputs(inputs), i, s0.header.num_players as nat);
}

} // verus!
