//! Wave system of a survival step: combo decay, intermissions, wave starts, spawning, game over.

use crate::config::{
    enemy, enemy_spec, player_count_mul_spec, player_count_mul_x100, INTERMISSION_FRAMES,
    MAX_ENEMIES, MAX_PLAYERS, PLAYER_RADIUS, RESPAWN_HP, SPAWN_INTERVAL, VIEW_HALF_H,
    VIEW_HALF_W,
};
use crate::enemies::{present_count, present_count_spec};
use crate::fx::{clamp_i32, floor_frac, Fixed, HALF_RAW};
use crate::input::iabs;
use crate::inv::{
    alive_count, enemies_ok, enemy_radius, kind_row, lemma_alive_count_free,
    lemma_alive_count_update, lemma_players_ok_frame, players_ok, standing, MAX_WAVE,
};
use crate::map::{MapData, MAX_SPAWNS};
use crate::physics::{box_clear, fadd, lemma_clear_box_in_map};
use crate::players::lemma_standing_in_map;
use crate::rng::{below_spec, output, Rng};
use crate::state::{
    emit_spec, life_of, phase_of, upd, Enemies, EventKind, Life, Players, State, Wave,
    WavePhase, LIFE_ALIVE, PHASE_ACTIVE, PHASE_GAME_OVER, PHASE_INTERMISSION,
};
use vstd::prelude::*;

verus! {

broadcast use vstd::array::group_array_axioms;

/// Frames between spawns in wave 0 (shrinks by 4 per wave down to [`SPAWN_INTERVAL`]).
pub const FIRST_SPAWN_GAP: u32 = 48;

// ---------------------------------------------------------------- combo
/// The combo timer runs down; when it expires the combo resets.
pub open spec fn combo_spec(s: State) -> State {
    if s.wave.combo_timer > 0 {
        let t = (s.wave.combo_timer - 1) as u32;
        State {
            wave: Wave {
                combo_timer: t,
                combo: if t == 0 {
                    0
                } else {
                    s.wave.combo
                },
                ..s.wave
            },
            ..s
        }
    } else {
        s
    }
}

pub fn update_combo(s: &mut State)
    ensures
        *final(s) == combo_spec(*old(s)),
{
    if s.wave.combo_timer > 0 {
        s.wave.combo_timer = s.wave.combo_timer - 1;
        if s.wave.combo_timer == 0 {
            s.wave.combo = 0;
        }
    }
}

// ---------------------------------------------------------------- helpers
/// Centre of tile `t` as a coordinate.
pub open spec fn centre(t: u8) -> Fixed {
    fadd(Fixed(clamp_i32(t * 65536)), Fixed(HALF_RAW))
}

fn centre_exec(t: u8) -> (r: Fixed)
    ensures
        r == centre(t),
        r.0 == t * 65536 + HALF_RAW,
{
    Fixed::from_int(t as i32) + Fixed(HALF_RAW)
}

/// A box narrower than a tile centred on a floor tile overlaps no wall.
pub proof fn lemma_centred_box_clear(map: MapData, tx: u8, ty: u8, r: Fixed)
    requires
        !map.is_solid(tx as int, ty as int),
        0 < r.0 < 32768,
    ensures
        box_clear(map, centre(tx), centre(ty), r),
{
    let x = tx * 65536 + HALF_RAW;
    let y = ty * 65536 + HALF_RAW;
    assert(floor_frac(x - r.0) == tx);
    assert(floor_frac(x + r.0 - 1) == tx);
    assert(floor_frac(y - r.0) == ty);
    assert(floor_frac(y + r.0 - 1) == ty);
}

/// Whether some standing player's camera shows tile `(tx, ty)`.
pub open spec fn visible_to_any(s: State, tx: int, ty: int) -> bool {
    exists|i: int|
        0 <= i < MAX_PLAYERS && #[trigger] standing(s, i) && iabs(
            tx - floor_frac(s.players.x[i].0 as int),
        ) <= VIEW_HALF_W && iabs(ty - floor_frac(s.players.y[i].0 as int)) <= VIEW_HALF_H
}

fn visible_to_any_exec(s: &State, tx: i32, ty: i32) -> (r: bool)
    requires
        0 <= tx < 256,
        0 <= ty < 256,
    ensures
        r == visible_to_any(*s, tx as int, ty as int),
{
    let mut i: usize = 0;
    while i < MAX_PLAYERS
        invariant
            i <= MAX_PLAYERS,
            0 <= tx < 256,
            0 <= ty < 256,
            forall|k: int|
                0 <= k < i ==> !(#[trigger] standing(*s, k) && iabs(
                    tx - floor_frac(s.players.x[k].0 as int),
                ) <= VIEW_HALF_W && iabs(ty - floor_frac(s.players.y[k].0 as int))
                    <= VIEW_HALF_H),
        decreases MAX_PLAYERS - i,
    {
        let l = s.life(i);
        if l == Life::Alive || l == Life::Downed {
            let px = s.players.x[i].floor_int();
            let py = s.players.y[i].floor_int();
            let dx = tx - px;
            let dy = ty - py;
            let ax = if dx < 0 {
                -dx
            } else {
                dx
            };
            let ay = if dy < 0 {
                -dy
            } else {
                dy
            };
            if ax <= VIEW_HALF_W && ay <= VIEW_HALF_H {
                proof {
                    assert(standing(*s, i as int));
                }
                return true;
            }
        }
        i = i + 1;
    }
    false
}

// ---------------------------------------------------------------- spawning
/// First free enemy slot at or after `j`.
pub open spec fn first_dead_from(en: Enemies, j: int) -> Option<int>
    decreases MAX_ENEMIES - j,
{
    if j >= MAX_ENEMIES || j < 0 {
        None
    } else if en.alive[j] == 0 {
        Some(j)
    } else {
        first_dead_from(en, j + 1)
    }
}

/// Manhattan distance (tiles) from door `k` to the nearest alive player among the first `n`
/// (`None` when there is none).
pub open spec fn door_nearest(s: State, map: MapData, k: int, n: nat) -> Option<int>
    decreases n,
{
    if n == 0 {
        None
    } else {
        let best = door_nearest(s, map, k, (n - 1) as nat);
        let i = n - 1;
        if life_of(s.players.life[i]) != Life::Alive {
            best
        } else {
            let d = iabs(map.spawns[k].0 - floor_frac(s.players.x[i].0 as int)) + iabs(
                map.spawns[k].1 - floor_frac(s.players.y[i].0 as int),
            );
            match best {
                None => Some(d),
                Some(b) => if d < b {
                    Some(d)
                } else {
                    best
                },
            }
        }
    }
}

/// Door `k`'s distance to the nearest alive player (0 when nobody is alive).
pub open spec fn door_score(s: State, map: MapData, k: int) -> int {
    match door_nearest(s, map, k, MAX_PLAYERS as nat) {
        Some(d) => d,
        None => 0,
    }
}

/// The door farthest from all alive players among doors `0..n` (ties: lowest index).
pub open spec fn farthest_door(s: State, map: MapData, n: nat) -> int
    decreases n,
{
    if n <= 1 {
        0
    } else {
        let best = farthest_door(s, map, (n - 1) as nat);
        if door_score(s, map, n - 1) > door_score(s, map, best) {
            n - 1
        } else {
            best
        }
    }
}

/// The first door, in rotation order starting at `offset`, that no camera shows (from the
/// `k`-th candidate on).
pub open spec fn hidden_door(s: State, map: MapData, offset: int, k: nat) -> Option<int>
    decreases MAX_SPAWNS - k,
{
    if k >= map.spawn_count || k >= MAX_SPAWNS {
        None
    } else {
        let door = (k + offset) % (map.spawn_count as int);
        if !visible_to_any(s, map.spawns[door].0 as int, map.spawns[door].1 as int) {
            Some(door)
        } else {
            hidden_door(s, map, offset, k + 1)
        }
    }
}

/// The spawn door: outside every camera if possible, else the one farthest from everyone.
pub open spec fn pick_door(s: State, map: MapData, offset: int) -> int {
    match hidden_door(s, map, offset, 0) {
        Some(d) => d,
        None => farthest_door(s, map, map.spawn_count as nat),
    }
}

/// Weight of Walkers in wave `w`.
pub open spec fn walker_weight(w: u32) -> u32 {
    let a = w.saturating_sub(10) as int;
    let base = if w >= 10 {
        0
    } else {
        10 - w
    };
    if base >= 3 {
        base as u32
    } else {
        3
    }
}

/// Weight of Runners in wave `w` (none before wave 3).
pub open spec fn runner_weight(w: u32) -> u32 {
    if w >= 3 {
        if w >= 8 {
            8
        } else {
            w
        }
    } else {
        0
    }
}

/// One enemy spawned (if the map has doors and a slot is free): door chosen by the PRNG
/// rotation, kind drawn by wave-dependent weights.
pub open spec fn spawn_one_spec(s: State, map: MapData) -> State {
    if map.spawn_count == 0 {
        State { wave: Wave { to_spawn: 0, ..s.wave }, ..s }
    } else {
        match first_dead_from(s.enemies, 0) {
            None => s,
            Some(slot) => {
                let offset = below_spec(output(s.rng@), map.spawn_count as u32) as int;
                let rng1 = s.rng.next_state();
                let door = pick_door(State { rng: rng1, ..s }, map, offset);
                let w = s.wave.number;
                let ww = walker_weight(w);
                let rw = runner_weight(w);
                let roll = below_spec(output(rng1@), (ww + rw) as u32);
                let rng2 = rng1.next_state();
                let kind: u8 = if roll < ww {
                    0
                } else {
                    1
                };
                let stats = enemy_spec(kind as int);
                let (tx, ty) = map.spawns[door];
                let en = s.enemies;
                State {
                    rng: rng2,
                    enemies: Enemies {
                        x: upd(en.x, slot, centre(tx)),
                        y: upd(en.y, slot, centre(ty)),
                        hp: upd(en.hp, slot, stats.hp),
                        kind: upd(en.kind, slot, kind),
                        alive: upd(en.alive, slot, 1u8),
                        cooldown: upd(en.cooldown, slot, stats.attack_cooldown),
                        stagger: upd(en.stagger, slot, 0u8),
                    },
                    wave: Wave {
                        enemies_alive: (s.wave.enemies_alive + 1) as u32,
                        to_spawn: (s.wave.to_spawn - 1) as u32,
                        ..s.wave
                    },
                    ..s
                }
            },
        }
    }
}

fn first_dead(en: &Enemies) -> (r: Option<usize>)
    ensures
        r matches Some(j) ==> first_dead_from(*en, 0) == Some(j as int) && j < MAX_ENEMIES
            && en.alive[j as int] == 0,
        r is None ==> first_dead_from(*en, 0) is None,
{
    let mut j: usize = 0;
    while j < MAX_ENEMIES
        invariant
            j <= MAX_ENEMIES,
            first_dead_from(*en, 0) == first_dead_from(*en, j as int),
        decreases MAX_ENEMIES - j,
    {
        if en.alive[j] == 0 {
            return Some(j);
        }
        j = j + 1;
    }
    None
}

fn door_score_exec(s: &State, map: &MapData, k: usize) -> (r: i32)
    requires
        k < MAX_SPAWNS,
        forall|j: int|
            0 <= j < MAX_PLAYERS && #[trigger] standing(*s, j) ==> {
                &&& 0 <= s.players.x[j].0 <= 0x100_0000
                &&& 0 <= s.players.y[j].0 <= 0x100_0000
            },
    ensures
        r == door_score(*s, *map, k as int),
        0 <= r <= 1024,
{
    let dx = map.spawns[k].0 as i32;
    let dy = map.spawns[k].1 as i32;
    let mut best: Option<i32> = None;
    let mut i: usize = 0;
    while i < MAX_PLAYERS
        invariant
            i <= MAX_PLAYERS,
            k < MAX_SPAWNS,
            dx == map.spawns[k as int].0,
            dy == map.spawns[k as int].1,
            forall|j: int|
                0 <= j < MAX_PLAYERS && #[trigger] standing(*s, j) ==> {
                    &&& 0 <= s.players.x[j].0 <= 0x100_0000
                    &&& 0 <= s.players.y[j].0 <= 0x100_0000
                },
            best matches Some(b) ==> door_nearest(*s, *map, k as int, i as nat) == Some(b as int)
                && 0 <= b <= 1024,
            best is None ==> door_nearest(*s, *map, k as int, i as nat) is None,
        decreases MAX_PLAYERS - i,
    {
        if s.life(i) == Life::Alive {
            proof {
                assert(standing(*s, i as int));
            }
            let px = s.players.x[i].floor_int();
            let py = s.players.y[i].floor_int();
            let ax = if dx - px < 0 {
                px - dx
            } else {
                dx - px
            };
            let ay = if dy - py < 0 {
                py - dy
            } else {
                dy - py
            };
            let d = ax + ay;
            match best {
                None => {
                    best = Some(d);
                },
                Some(b) => {
                    if d < b {
                        best = Some(d);
                    }
                },
            }
        }
        i = i + 1;
    }
    match best {
        Some(b) => b,
        None => 0,
    }
}

fn pick_door_exec(s: &State, map: &MapData, offset: usize) -> (r: usize)
    requires
        0 < map.spawn_count <= MAX_SPAWNS,
        offset < map.spawn_count,
        forall|j: int|
            0 <= j < MAX_PLAYERS && #[trigger] standing(*s, j) ==> {
                &&& 0 <= s.players.x[j].0 <= 0x100_0000
                &&& 0 <= s.players.y[j].0 <= 0x100_0000
            },
    ensures
        r == pick_door(*s, *map, offset as int),
        r < map.spawn_count,
{
    let count = map.spawn_count;
    let mut k: usize = 0;
    while k < count
        invariant
            k <= count,
            count == map.spawn_count,
            0 < count <= MAX_SPAWNS,
            offset < count,
            hidden_door(*s, *map, offset as int, 0) == hidden_door(*s, *map, offset as int, k as nat),
        decreases count - k,
    {
        let door = (k + offset) % count;
        let (tx, ty) = map.spawns[door];
        if !visible_to_any_exec(s, tx as i32, ty as i32) {
            return door;
        }
        k = k + 1;
    }
    // no hidden door: the one farthest from every alive player
    let mut best: usize = 0;
    let mut best_score = door_score_exec(s, map, 0);
    let mut k: usize = 1;
    while k < count
        invariant
            1 <= k <= count,
            count == map.spawn_count,
            0 < count <= MAX_SPAWNS,
            forall|j: int|
                0 <= j < MAX_PLAYERS && #[trigger] standing(*s, j) ==> {
                    &&& 0 <= s.players.x[j].0 <= 0x100_0000
                    &&& 0 <= s.players.y[j].0 <= 0x100_0000
                },
            best == farthest_door(*s, *map, k as nat),
            best < k,
            best_score == door_score(*s, *map, best as int),
        decreases count - k,
    {
        let sc = door_score_exec(s, map, k);
        if sc > best_score {
            best = k;
            best_score = sc;
        }
        k = k + 1;
    }
    best
}

fn spawn_one(s: &mut State, map: &MapData)
    requires
        map.wf(),
        old(s).wave.to_spawn > 0,
        players_ok(*old(s), *map),
        enemies_ok(*old(s), *map),
    ensures
        *final(s) == spawn_one_spec(*old(s), *map),
        players_ok(*final(s), *map),
        enemies_ok(*final(s), *map),
        final(s).wave.number == old(s).wave.number,
        final(s).header == old(s).header,
        final(s).flow == old(s).flow,
{
    let ghost b = *s;
    if map.spawn_count == 0 {
        s.wave.to_spawn = 0;
        proof {
            lemma_players_ok_frame(b, *s, *map);
        }
        return;
    }
    let slot = match first_dead(&s.enemies) {
        Some(j) => j,
        None => {
            return;
        },
    };
    let offset = s.rng.below(map.spawn_count as u32) as usize;
    proof {
        lemma_players_ok_frame(b, *s, *map);
        lemma_standing_in_map(*s, *map);
    }
    let door = pick_door_exec(s, map, offset);
    let w = s.wave.number;
    let walker_w = if 10u32.saturating_sub(w) >= 3 {
        10u32.saturating_sub(w)
    } else {
        3
    };
    let runner_w = if w >= 3 {
        if w >= 8 {
            8
        } else {
            w
        }
    } else {
        0
    };
    let roll = s.rng.below(walker_w + runner_w);
    let kind: u8 = if roll < walker_w {
        0
    } else {
        1
    };
    let stats = enemy(kind as usize);
    let (tx, ty) = map.spawns[door];
    let cx = centre_exec(tx);
    let cy = centre_exec(ty);
    proof {
        assert(walker_w == walker_weight(w));
        assert(runner_w == runner_weight(w));
        lemma_alive_count_free(b.enemies, MAX_ENEMIES as nat, slot as int);
        assert(!map.is_solid(tx as int, ty as int));
        lemma_centred_box_clear(*map, tx, ty, stats.radius);
    }
    let ghost s1 = *s;
    s.enemies.x[slot] = cx;
    s.enemies.y[slot] = cy;
    s.enemies.hp[slot] = stats.hp;
    s.enemies.kind[slot] = kind;
    s.enemies.alive[slot] = 1;
    s.enemies.cooldown[slot] = stats.attack_cooldown;
    s.enemies.stagger[slot] = 0;
    s.wave.enemies_alive = s.wave.enemies_alive + 1;
    s.wave.to_spawn = s.wave.to_spawn - 1;
    proof {
        let want = spawn_one_spec(b, *map);
        assert(s.enemies.x =~= want.enemies.x);
        assert(s.enemies.y =~= want.enemies.y);
        assert(s.enemies.hp =~= want.enemies.hp);
        assert(s.enemies.kind =~= want.enemies.kind);
        assert(s.enemies.alive =~= want.enemies.alive);
        assert(s.enemies.cooldown =~= want.enemies.cooldown);
        assert(s.enemies.stagger =~= want.enemies.stagger);
        lemma_alive_count_update(b.enemies, s.enemies, slot as int, MAX_ENEMIES as nat);
        lemma_players_ok_frame(b, *s, *map);
        assert forall|j: int|
            0 <= j < MAX_ENEMIES && #[trigger] s.enemies.alive[j] != 0 implies s.enemies.hp[j] > 0
            && box_clear(*map, s.enemies.x[j], s.enemies.y[j], enemy_radius(s.enemies, j)) by {
            if j != slot {
                assert(b.enemies.alive[j] != 0);
            } else {
                assert(kind_row(kind) == kind as int);
            }
        }
    }
}

// ---------------------------------------------------------------- waves
/// Dead players return at their start tile with partial HP (players `0..n`).
pub open spec fn respawn_upto(s: State, map: MapData, n: nat) -> State
    decreases n,
{
    if n == 0 {
        s
    } else {
        let s1 = respawn_upto(s, map, (n - 1) as nat);
        let i = n - 1;
        if life_of(s1.players.life[i]) == Life::Dead {
            let (tx, ty) = map.starts[i];
            State {
                players: Players {
                    life: upd(s1.players.life, i, LIFE_ALIVE),
                    hp: upd(s1.players.hp, i, RESPAWN_HP),
                    x: upd(s1.players.x, i, centre(tx)),
                    y: upd(s1.players.y, i, centre(ty)),
                    ..s1.players
                },
                ..s1
            }
        } else {
            s1
        }
    }
}

/// A new wave: its size scales with the wave number and the players present; dead players
/// respawn; a `WaveStart` event is emitted.
pub open spec fn start_wave_spec(s: State, map: MapData) -> State {
    let number = s.wave.number.saturating_add(1);
    let players = present_count_spec(s);
    let base = 8 + number * 4;
    let to_spawn = (if base * player_count_mul_spec(players as int) > u32::MAX {
        u32::MAX as int
    } else {
        base * player_count_mul_spec(players as int)
    }) / 100;
    let s1 = State {
        wave: Wave {
            number,
            phase: PHASE_ACTIVE,
            timer: 1,
            to_spawn: to_spawn as u32,
            ..s.wave
        },
        ..s
    };
    let s2 = respawn_upto(s1, map, MAX_PLAYERS as nat);
    emit_spec(
        s2,
        EventKind::WaveStart,
        if number > 255 {
            255u8
        } else {
            number as u8
        },
        Fixed(0),
        Fixed(0),
    )
}

proof fn lemma_respawn(s: State, map: MapData, n: nat)
    requires
        n <= MAX_PLAYERS,
    ensures
        ({
            let r = respawn_upto(s, map, n);
            &&& r.wave == s.wave
            &&& forall|i: int|
                0 <= i < n && life_of(s.players.life[i]) == Life::Dead ==> {
                    &&& #[trigger] r.players.life[i] == LIFE_ALIVE
                    &&& r.players.hp[i] == RESPAWN_HP
                    &&& r.players.x[i] == centre(map.starts[i].0)
                    &&& r.players.y[i] == centre(map.starts[i].1)
                }
            &&& forall|i: int|
                0 <= i < MAX_PLAYERS && !(i < n && life_of(s.players.life[i]) == Life::Dead) ==> {
                    &&& #[trigger] r.players.life[i] == s.players.life[i]
                    &&& r.players.hp[i] == s.players.hp[i]
                    &&& r.players.x[i] == s.players.x[i]
                    &&& r.players.y[i] == s.players.y[i]
                }
        }),
    decreases n,
{
    if n > 0 {
        let m = (n - 1) as nat;
        lemma_respawn(s, map, m);
        let p = respawn_upto(s, map, m);
        let r = respawn_upto(s, map, n);
        let k = m as int;
        assert(p.players.life[k] == s.players.life[k]);
        assert forall|i: int|
            0 <= i < n && life_of(s.players.life[i]) == Life::Dead implies {
                &&& #[trigger] r.players.life[i] == LIFE_ALIVE
                &&& r.players.hp[i] == RESPAWN_HP
                &&& r.players.x[i] == centre(map.starts[i].0)
                &&& r.players.y[i] == centre(map.starts[i].1)
            } by {
            if i < k {
                assert(p.players.life[i] == LIFE_ALIVE);
            }
        }
        assert forall|i: int|
            0 <= i < MAX_PLAYERS && !(i < n && life_of(s.players.life[i]) == Life::Dead) implies {
                &&& #[trigger] r.players.life[i] == s.players.life[i]
                &&& r.players.hp[i] == s.players.hp[i]
                &&& r.players.x[i] == s.players.x[i]
                &&& r.players.y[i] == s.players.y[i]
            } by {
            assert(p.players.life[i] == s.players.life[i]);
        }
    }
}

/// A wave start opens the next wave: the number goes up by one and the wave is active; a
/// solo wave holds `8 + 4 * number` enemies and more players never make it smaller (while the
/// scaled size fits a `u32`); every dead
/// player comes back alive at its start tile with [`RESPAWN_HP`], and everyone else keeps its
/// life, HP and place.
pub proof fn lemma_wave_start(s: State, map: MapData)
    requires
        s.wave.number < MAX_WAVE,
    ensures
        ({
            let r = start_wave_spec(s, map);
            let number = s.wave.number + 1;
            &&& r.wave.number == number
            &&& r.wave.phase == PHASE_ACTIVE
            &&& (8 + 4 * number) * 264 <= u32::MAX && present_count_spec(s) <= 1 ==> r.wave.to_spawn
                == 8 + 4 * number
            &&& (8 + 4 * number) * 264 <= u32::MAX ==> r.wave.to_spawn >= 8 + 4 * number
            &&& forall|i: int|
                0 <= i < MAX_PLAYERS && life_of(s.players.life[i]) == Life::Dead ==> {
                    &&& #[trigger] r.players.life[i] == LIFE_ALIVE
                    &&& r.players.hp[i] == RESPAWN_HP
                    &&& r.players.x[i] == centre(map.starts[i].0)
                    &&& r.players.y[i] == centre(map.starts[i].1)
                }
            &&& forall|i: int|
                0 <= i < MAX_PLAYERS && life_of(s.players.life[i]) != Life::Dead ==> {
                    &&& #[trigger] r.players.life[i] == s.players.life[i]
                    &&& r.players.hp[i] == s.players.hp[i]
                }
        }),
{
    let number = s.wave.number.saturating_add(1);
    let players = present_count_spec(s);
    let base = 8 + number * 4;
    let mul = player_count_mul_spec(players as int);
    assert(mul >= 100);
    if base * 264 <= u32::MAX {
        assert(base * mul <= base * 264) by (nonlinear_arith)
            requires
                mul <= 264,
                base >= 0,
        ;
        assert(base * mul / 100 >= base) by (nonlinear_arith)
            requires
                mul >= 100,
                base >= 0,
        ;
    }
    let to_spawn = ((if base * mul > u32::MAX {
        u32::MAX as int
    } else {
        base * mul
    }) / 100) as u32;
    let s1 = State {
        wave: Wave { number, phase: PHASE_ACTIVE, timer: 1, to_spawn, ..s.wave },
        ..s
    };
    lemma_respawn(s1, map, MAX_PLAYERS as nat);
    let s2 = respawn_upto(s1, map, MAX_PLAYERS as nat);
    let r = start_wave_spec(s, map);
    assert(r.players == s2.players);
    assert(r.wave == s1.wave);
    if players <= 1 {
        assert(mul == 100);
        assert(base * 100 / 100 == base) by (nonlinear_arith)
            requires
                base >= 0,
        ;
    }
    assert(r.wave.number == s.wave.number + 1);
    assert(r.wave.phase == PHASE_ACTIVE);
    assert(r.wave.to_spawn == to_spawn);
    if base * 264 <= u32::MAX {
        assert(r.wave.to_spawn >= base);
        if players <= 1 {
            assert(base * mul == base * 100);
            assert(r.wave.to_spawn == base);
        }
    }
    assert forall|i: int|
        0 <= i < MAX_PLAYERS && life_of(s.players.life[i]) == Life::Dead implies {
            &&& #[trigger] r.players.life[i] == LIFE_ALIVE
            &&& r.players.hp[i] == RESPAWN_HP
            &&& r.players.x[i] == centre(map.starts[i].0)
            &&& r.players.y[i] == centre(map.starts[i].1)
        } by {
        assert(s1.players.life[i] == s.players.life[i]);
        assert(s2.players.life[i] == LIFE_ALIVE);
    }
    assert forall|i: int|
        0 <= i < MAX_PLAYERS && life_of(s.players.life[i]) != Life::Dead implies {
            &&& #[trigger] r.players.life[i] == s.players.life[i]
            &&& r.players.hp[i] == s.players.hp[i]
        } by {
        assert(s1.players.life[i] == s.players.life[i]);
        assert(s2.players.life[i] == s1.players.life[i]);
    }
}

fn start_wave(s: &mut State, map: &MapData)
    requires
        map.wf(),
        old(s).wave.number < MAX_WAVE,
        players_ok(*old(s), *map),
        enemies_ok(*old(s), *map),
    ensures
        *final(s) == start_wave_spec(*old(s), *map),
        players_ok(*final(s), *map),
        enemies_ok(*final(s), *map),
        final(s).wave.number == old(s).wave.number + 1,
        final(s).header == old(s).header,
        final(s).flow == old(s).flow,
{
    let ghost b = *s;
    s.wave.number = s.wave.number + 1;
    s.wave.phase = PHASE_ACTIVE;
    s.wave.timer = 1;
    let players = present_count(s);
    let base = 8 + s.wave.number * 4;
    let m = player_count_mul_x100(players as usize) as u64;
    assert(base as u64 * m <= 0xFFFF_FFFF * 264) by (nonlinear_arith)
        requires
            base <= 0xFFFF_FFFF,
            m <= 264,
    ;
    let prod = base as u64 * m;
    proof {
        assert(present_count_spec(*s) == present_count_spec(b)) by {
            assert(s.players == b.players);
            lemma_present_same(*s, b, MAX_PLAYERS as nat);
        }
        assert(prod <= 0xFFFF_FFFF * 264) by (nonlinear_arith)
            requires
                prod == base * m,
                base <= 0xFFFF_FFFF,
                m <= 264,
        ;
    }
    let capped: u64 = if prod > u32::MAX as u64 {
        u32::MAX as u64
    } else {
        prod
    };
    s.wave.to_spawn = (capped / 100) as u32;
    let ghost s1 = *s;
    proof {
        lemma_players_ok_frame(b, s1, *map);
    }
    let mut i: usize = 0;
    while i < MAX_PLAYERS
        invariant
            i <= MAX_PLAYERS,
            map.wf(),
            *s == respawn_upto(s1, *map, i as nat),
            players_ok(*s, *map),
            s.enemies == s1.enemies,
            s.wave == s1.wave,
            s.header == s1.header,
            s.flow == s1.flow,
        decreases MAX_PLAYERS - i,
    {
        if s.life(i) == Life::Dead {
            let (tx, ty) = map.starts[i];
            let ghost c = *s;
            s.players.life[i] = LIFE_ALIVE;
            s.players.hp[i] = RESPAWN_HP;
            s.players.x[i] = centre_exec(tx);
            s.players.y[i] = centre_exec(ty);
            proof {
                assert(s.players.life =~= upd(c.players.life, i as int, LIFE_ALIVE));
                assert(s.players.hp =~= upd(c.players.hp, i as int, RESPAWN_HP));
                assert(s.players.x =~= upd(c.players.x, i as int, centre(tx)));
                assert(s.players.y =~= upd(c.players.y, i as int, centre(ty)));
                assert(!map.is_solid(tx as int, ty as int));
                lemma_centred_box_clear(*map, tx, ty, Fixed(PLAYER_RADIUS));
                assert(players_ok(*s, *map)) by {
                    assert forall|j: int|
                        0 <= j < MAX_PLAYERS && #[trigger] standing(*s, j) implies box_clear(
                        *map,
                        s.players.x[j],
                        s.players.y[j],
                        Fixed(PLAYER_RADIUS),
                    ) by {
                        if j != i {
                            assert(standing(c, j));
                        }
                    }
                }
            }
        }
        i = i + 1;
    }
    let n = s.wave.number;
    let a: u8 = if n > 255 {
        255
    } else {
        n as u8
    };
    let ghost s2 = *s;
    s.emit(EventKind::WaveStart, a, Fixed(0), Fixed(0));
    proof {
        lemma_players_ok_frame(s2, *s, *map);
        crate::inv::lemma_alive_count_same(b.enemies, s.enemies, MAX_ENEMIES as nat);
    }
}

proof fn lemma_present_same(a: State, b: State, n: nat)
    requires
        a.players == b.players,
    ensures
        crate::enemies::present_upto(a, n) == crate::enemies::present_upto(b, n),
    decreases n,
{
    if n > 0 {
        lemma_present_same(a, b, (n - 1) as nat);
    }
}

/// Gap between two spawns in wave `number`.
pub open spec fn spawn_gap(number: u32) -> u32 {
    let g = if number as int * 4 >= FIRST_SPAWN_GAP {
        0
    } else {
        FIRST_SPAWN_GAP - number * 4
    };
    if g >= SPAWN_INTERVAL {
        g as u32
    } else {
        SPAWN_INTERVAL
    }
}

/// The wave state machine: intermission countdown → wave start; during a wave, timed spawns
/// until the quota is met, then the next intermission once every enemy is dead.
pub open spec fn waves_spec(s: State, map: MapData) -> State {
    let ph = phase_of(s.wave.phase);
    if ph == WavePhase::Intermission {
        let t = s.wave.timer.saturating_sub(1);
        let s1 = State { wave: Wave { timer: t, ..s.wave }, ..s };
        if t == 0 {
            start_wave_spec(s1, map)
        } else {
            s1
        }
    } else if ph == WavePhase::Active {
        if s.wave.to_spawn > 0 {
            let t = s.wave.timer.saturating_sub(1);
            let s1 = State { wave: Wave { timer: t, ..s.wave }, ..s };
            if t == 0 {
                spawn_one_spec(
                    State { wave: Wave { timer: spawn_gap(s.wave.number), ..s1.wave }, ..s1 },
                    map,
                )
            } else {
                s1
            }
        } else if s.wave.enemies_alive == 0 {
            State { wave: Wave { phase: PHASE_INTERMISSION, timer: INTERMISSION_FRAMES, ..s.wave }, ..s }
        } else {
            s
        }
    } else {
        s
    }
}

pub fn update_waves(s: &mut State, map: &MapData)
    requires
        map.wf(),
        old(s).wave.number < MAX_WAVE,
        players_ok(*old(s), *map),
        enemies_ok(*old(s), *map),
    ensures
        *final(s) == waves_spec(*old(s), *map),
        players_ok(*final(s), *map),
        enemies_ok(*final(s), *map),
        final(s).wave.number <= old(s).wave.number + 1,
        final(s).header == old(s).header,
        final(s).flow == old(s).flow,
{
    let ghost b = *s;
    let ph = s.phase();
    if ph == WavePhase::Intermission {
        s.wave.timer = s.wave.timer.saturating_sub(1);
        proof {
            lemma_players_ok_frame(b, *s, *map);
        }
        if s.wave.timer == 0 {
            start_wave(s, map);
        }
    } else if ph == WavePhase::Active {
        if s.wave.to_spawn > 0 {
            s.wave.timer = s.wave.timer.saturating_sub(1);
            proof {
                lemma_players_ok_frame(b, *s, *map);
            }
            if s.wave.timer == 0 {
                let n4: u32 = if s.wave.number >= 0x4000_0000 {
                    u32::MAX
                } else {
                    s.wave.number * 4
                };
                let g = FIRST_SPAWN_GAP.saturating_sub(n4);
                s.wave.timer = if g >= SPAWN_INTERVAL {
                    g
                } else {
                    SPAWN_INTERVAL
                };
                proof {
                    assert(s.wave.timer == spawn_gap(b.wave.number));
                    lemma_players_ok_frame(b, *s, *map);
                }
                spawn_one(s, map);
            }
        } else if s.wave.enemies_alive == 0 {
            s.wave.phase = PHASE_INTERMISSION;
            s.wave.timer = INTERMISSION_FRAMES;
            proof {
                lemma_players_ok_frame(b, *s, *map);
            }
        }
    }
}

// ---------------------------------------------------------------- game over
/// Whether any player is still standing.
pub open spec fn anyone_standing(s: State) -> bool {
    exists|i: int| 0 <= i < MAX_PLAYERS && #[trigger] standing(s, i)
}

/// When nobody is standing the game is over.
pub open spec fn game_over_spec(s: State) -> State {
    if !anyone_standing(s) {
        emit_spec(
            State { wave: Wave { phase: PHASE_GAME_OVER, ..s.wave }, ..s },
            EventKind::GameOver,
            0,
            Fixed(0),
            Fixed(0),
        )
    } else {
        s
    }
}

/// The game ends exactly when nobody is left standing: if some player is alive or downed the
/// check changes nothing; if none is, the wave phase becomes game over and nothing else of
/// the players, enemies or wave counters changes.
pub proof fn lemma_game_over_when_all_out(s: State)
    ensures
        (exists|i: int| 0 <= i < MAX_PLAYERS && #[trigger] standing(s, i)) ==> game_over_spec(s)
            == s,
        (forall|i: int| 0 <= i < MAX_PLAYERS ==> !#[trigger] standing(s, i)) ==> {
            &&& game_over_spec(s).wave == (Wave { phase: PHASE_GAME_OVER, ..s.wave })
            &&& game_over_spec(s).players == s.players
            &&& game_over_spec(s).enemies == s.enemies
        },
{
}

pub fn check_game_over(s: &mut State)
    ensures
        *final(s) == game_over_spec(*old(s)),
{
    let mut i: usize = 0;
    let mut any = false;
    while i < MAX_PLAYERS && !any
        invariant
            i <= MAX_PLAYERS,
            any ==> anyone_standing(*s),
            !any ==> forall|k: int| 0 <= k < i ==> !#[trigger] standing(*s, k),
        decreases MAX_PLAYERS - i,
    {
        let l = s.life(i);
        if l == Life::Alive || l == Life::Downed {
            proof {
                assert(standing(*s, i as int));
            }
            any = true;
        }
        i = i + 1;
    }
    if !any {
        s.wave.phase = PHASE_GAME_OVER;
        s.emit(EventKind::GameOver, 0, Fixed(0), Fixed(0));
    }
}

// ---------------------------------------------------------------- laws
proof fn lemma_hidden_door_none(s: State, map: MapData, offset: int, j: nat, i: int)
    requires
        hidden_door(s, map, offset, j) is None,
        map.spawn_count <= MAX_SPAWNS,
        j <= i < map.spawn_count,
    ensures
        visible_to_any(
            s,
            map.spawns[(i + offset) % (map.spawn_count as int)].0 as int,
            map.spawns[(i + offset) % (map.spawn_count as int)].1 as int,
        ),
    decreases MAX_SPAWNS - j,
{
    if j < i {
        lemma_hidden_door_none(s, map, offset, j + 1, i);
    }
}

proof fn lemma_hidden_door_some(s: State, map: MapData, offset: int, j: nat)
    requires
        hidden_door(s, map, offset, j) is Some,
        0 < map.spawn_count,
    ensures
        ({
            let d = hidden_door(s, map, offset, j).unwrap();
            &&& 0 <= d < map.spawn_count
            &&& !visible_to_any(s, map.spawns[d].0 as int, map.spawns[d].1 as int)
        }),
    decreases MAX_SPAWNS - j,
{
    let door = (j + offset) % (map.spawn_count as int);
    if !visible_to_any(s, map.spawns[door].0 as int, map.spawns[door].1 as int) {
    } else {
        lemma_hidden_door_some(s, map, offset, j + 1);
    }
}

/// Spawns avoid the cameras: whenever some door is outside every standing player's view, the
/// door picked for a spawn is such a door (whatever the rotation offset).
pub proof fn lemma_spawn_door_hidden(s: State, map: MapData, offset: int, k: int)
    requires
        map.wf(),
        0 <= k < map.spawn_count,
        0 <= offset < map.spawn_count,
        !visible_to_any(s, map.spawns[k].0 as int, map.spawns[k].1 as int),
    ensures
        0 <= pick_door(s, map, offset) < map.spawn_count,
        !visible_to_any(
            s,
            map.spawns[pick_door(s, map, offset)].0 as int,
            map.spawns[pick_door(s, map, offset)].1 as int,
        ),
{
    let n = map.spawn_count as int;
    if hidden_door(s, map, offset, 0) is None {
        let i = (k - offset + n) % n;
        assert((i + offset) % n == k) by (nonlinear_arith)
            requires
                0 <= k < n,
                0 <= offset < n,
                i == (k - offset + n) % n,
        {
            assert(0 <= k - offset + n < 2 * n);
            if k - offset + n >= n {
                assert(i == k - offset);
            } else {
                assert(i == k - offset + n);
            }
        }
        lemma_hidden_door_none(s, map, offset, 0, i);
    } else {
        lemma_hidden_door_some(s, map, offset, 0);
    }
}

} // verus!
