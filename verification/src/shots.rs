//! Projectile system of a survival step: flight, wall hits, enemy hits, kills, score, unlocks.

use crate::config::{
    enemy, enemy_spec, weapon, weapon_spec, COMBO_CAP, COMBO_FRAMES, KNOCKBACK, MAP_H, MAP_W,
    MAX_ENEMIES, MAX_PLAYERS, MAX_SHOTS, SHOT_RADIUS, STAGGER_FRAMES, WEAPON_COUNT,
};
use crate::enemies::lemma_near_alive;
use crate::fx::{fmul, len_sq_spec, trunc_div, Fixed};
use crate::grid::{near_spec, EnemyGrid};
use crate::input::{dir8, dir8_spec, dir_from_delta, dir_from_delta_spec};
use crate::inv::{
    alive_count, enemies_ok, enemy_radius, kind_row, COUNT_SLACK, lemma_alive_count_update,
    lemma_len_sq_small, lemma_players_ok_frame, players_ok,
};
use crate::map::MapData;
use crate::physics::{
    box_clear, fadd, lemma_clear_box_in_map, lemma_move_box_stays_clear, move_box,
    move_box_spec, tile_of,
};
use crate::state::{emit_spec, upd, Enemies, EventKind, Players, Shots, State, Wave};
use vstd::prelude::*;

verus! {

broadcast use vstd::array::group_array_axioms;

// ---------------------------------------------------------------- unlocks
/// Weapon `w` unlocked (with an `Unlock` event) if the team score reached its threshold.
pub open spec fn unlock_one(s: State, w: int) -> State {
    let bit = 1u32 << (w as u32);
    if s.wave.unlocked & bit == 0 && s.wave.team_score >= weapon_spec(w).unlock_score {
        let s1 = State { wave: Wave { unlocked: s.wave.unlocked | bit, ..s.wave }, ..s };
        emit_spec(s1, EventKind::Unlock, w as u8, Fixed(0), Fixed(0))
    } else {
        s
    }
}

/// Unlock checks for weapons `0..n`.
pub open spec fn unlocks_upto(s: State, n: nat) -> State
    decreases n,
{
    if n == 0 {
        s
    } else {
        unlock_one(unlocks_upto(s, (n - 1) as nat), n - 1)
    }
}

fn unlock_weapons(s: &mut State)
    ensures
        *final(s) == unlocks_upto(*old(s), WEAPON_COUNT as nat),
        final(s).players == old(s).players,
        final(s).enemies == old(s).enemies,
        final(s).header == old(s).header,
        final(s).flow == old(s).flow,
        final(s).shots == old(s).shots,
        final(s).wave.enemies_alive == old(s).wave.enemies_alive,
        final(s).wave.number == old(s).wave.number,
{
    let ghost s0 = *s;
    let mut w: usize = 0;
    while w < WEAPON_COUNT
        invariant
            w <= WEAPON_COUNT,
            *s == unlocks_upto(s0, w as nat),
            s.players == s0.players,
            s.enemies == s0.enemies,
            s.header == s0.header,
            s.flow == s0.flow,
            s.shots == s0.shots,
            s.wave.enemies_alive == s0.wave.enemies_alive,
            s.wave.number == s0.wave.number,
        decreases WEAPON_COUNT - w,
    {
        let stats = weapon(w);
        let bit = 1u32 << (w as u32);
        if s.wave.unlocked & bit == 0 && s.wave.team_score >= stats.unlock_score {
            s.wave.unlocked = s.wave.unlocked | bit;
            s.emit(EventKind::Unlock, w as u8, Fixed(0), Fixed(0));
        }
        w = w + 1;
    }
}

// ---------------------------------------------------------------- hits
/// Enemy `e` hit by projectile `shot`: damage; a kill frees the slot and scores (combo
/// multiplier, capped) and may unlock weapons; otherwise knockback along the shot and stagger.
pub open spec fn hit_enemy_spec(s: State, map: MapData, e: int, shot: int) -> State {
    let owner = if s.shots.owner[shot] >= 3 {
        3
    } else {
        s.shots.owner[shot] as int
    };
    let kind = kind_row(s.enemies.kind[e]);
    let stats = enemy_spec(kind);
    let hp = s.enemies.hp[e] - s.shots.damage[shot];
    let (x, y) = (s.enemies.x[e], s.enemies.y[e]);
    let s1 = State { enemies: Enemies { hp: upd(s.enemies.hp, e, hp as i32), ..s.enemies }, ..s };
    if hp <= 0 {
        let combo = s1.wave.combo.saturating_add(1);
        let mult_x10 = 10 + if combo > COMBO_CAP {
            COMBO_CAP
        } else {
            combo
        };
        let s2 = State {
            enemies: Enemies { alive: upd(s1.enemies.alive, e, 0), ..s1.enemies },
            players: Players {
                kills: upd(s1.players.kills, owner, s1.players.kills[owner].saturating_add(1)),
                ..s1.players
            },
            wave: Wave {
                enemies_alive: s1.wave.enemies_alive.saturating_sub(1),
                combo,
                best_combo: if s1.wave.best_combo >= combo {
                    s1.wave.best_combo
                } else {
                    combo
                },
                combo_timer: COMBO_FRAMES,
                team_score: s1.wave.team_score.saturating_add(
                    (stats.score * mult_x10 / 10) as u32,
                ),
                ..s1.wave
            },
            ..s1
        };
        unlocks_upto(emit_spec(s2, EventKind::Kill, kind as u8, x, y), WEAPON_COUNT as nat)
    } else {
        let d = dir_from_delta_spec(s.shots.vx[shot], s.shots.vy[shot]);
        let (ux, uy) = dir8_spec(d as int);
        let (nx, ny) = move_box_spec(
            map,
            x,
            y,
            fmul(ux, Fixed(KNOCKBACK)),
            fmul(uy, Fixed(KNOCKBACK)),
            stats.radius,
        );
        let s2 = State {
            enemies: Enemies {
                x: upd(s1.enemies.x, e, nx),
                y: upd(s1.enemies.y, e, ny),
                stagger: upd(s1.enemies.stagger, e, STAGGER_FRAMES),
                ..s1.enemies
            },
            ..s1
        };
        emit_spec(s2, EventKind::Hit, kind as u8, x, y)
    }
}

proof fn lemma_unlocks_keep_players(s: State, n: nat)
    ensures
        unlocks_upto(s, n).players == s.players,
        unlocks_upto(s, n).enemies == s.enemies,
    decreases n,
{
    if n > 0 {
        lemma_unlocks_keep_players(s, (n - 1) as nat);
    }
}

proof fn lemma_or_bit(a: u32, k: u32, j: u32)
    by (bit_vector)
    requires
        k < 32,
        j < 32,
    ensures
        ((a | (1u32 << k)) & (1u32 << j) != 0) == ((a & (1u32 << j)) != 0 || j == k),
{
}

proof fn lemma_unlock_bits(s: State, n: nat)
    requires
        n <= WEAPON_COUNT,
    ensures
        ({
            let r = unlocks_upto(s, n);
            &&& r.wave.team_score == s.wave.team_score
            &&& forall|w: int|
                0 <= w < n ==> (#[trigger] (r.wave.unlocked & (1u32 << (w as u32))) != 0) == ((
                s.wave.unlocked & (1u32 << (w as u32))) != 0 || s.wave.team_score
                >= weapon_spec(w).unlock_score)
            &&& forall|w: int|
                n <= w < 32 ==> #[trigger] (r.wave.unlocked & (1u32 << (w as u32))) == (s.wave.unlocked
                    & (1u32 << (w as u32)))
        }),
    decreases n,
{
    if n > 0 {
        let m = (n - 1) as nat;
        lemma_unlock_bits(s, m);
        let p = unlocks_upto(s, m);
        let r = unlocks_upto(s, n);
        let k = m as int;
        let bit = 1u32 << (k as u32);
        if p.wave.unlocked & bit == 0 && p.wave.team_score >= weapon_spec(k).unlock_score {
            assert(r.wave.unlocked == p.wave.unlocked | bit);
            assert forall|w: int| 0 <= w < 32 implies (#[trigger] (r.wave.unlocked & (1u32 << (w as u32)))
                != 0) == ((p.wave.unlocked & (1u32 << (w as u32))) != 0 || w == k) by {
                lemma_or_bit(p.wave.unlocked, k as u32, w as u32);
            }
            assert forall|w: int| n <= w < 32 implies #[trigger] (r.wave.unlocked & (1u32 << (w as u32)))
                == (s.wave.unlocked & (1u32 << (w as u32))) by {
                let a = p.wave.unlocked;
                let ww = w as u32;
                let kk = k as u32;
                assert(((a | (1u32 << kk)) & (1u32 << ww)) == (a & (1u32 << ww))) by (bit_vector)
                    requires
                        kk < 32,
                        ww < 32,
                        kk != ww,
                ;
            }
        } else {
            assert(r.wave.unlocked == p.wave.unlocked);
        }
    }
}

/// Weapons unlock by score and never lock again: after the unlock check, each weapon is
/// unlocked exactly when it already was or the team score has reached its threshold.
pub proof fn lemma_unlocks_follow_score(s: State)
    ensures
        forall|w: int|
            0 <= w < WEAPON_COUNT ==> (#[trigger] (unlocks_upto(s, WEAPON_COUNT as nat).wave.unlocked
                & (1u32 << (w as u32))) != 0) == ((s.wave.unlocked & (1u32 << (w as u32))) != 0
                || s.wave.team_score >= weapon_spec(w).unlock_score),
        unlocks_upto(s, WEAPON_COUNT as nat).wave.team_score == s.wave.team_score,
{
    lemma_unlock_bits(s, WEAPON_COUNT as nat);
}

/// A kill scores: the team score rises by the enemy's score times the combo multiplier (tenths,
/// `10 + combo` capped at `10 + COMBO_CAP`, the combo counting this kill), saturating, and every
/// weapon whose threshold that score reaches is unlocked.
pub proof fn lemma_kill_scores(s: State, map: MapData, e: int, j: int)
    requires
        0 <= e < MAX_ENEMIES,
        0 <= j < MAX_SHOTS,
        s.enemies.hp[e] - s.shots.damage[j] <= 0,
    ensures
        ({
            let r = hit_enemy_spec(s, map, e, j);
            let combo = s.wave.combo.saturating_add(1);
            let mult = 10 + if combo > COMBO_CAP { COMBO_CAP } else { combo };
            let gain = enemy_spec(kind_row(s.enemies.kind[e])).score * mult / 10;
            let score = s.wave.team_score.saturating_add(gain as u32);
            &&& r.wave.combo == combo
            &&& r.wave.team_score == score
            &&& forall|w: int|
                0 <= w < WEAPON_COUNT && score >= weapon_spec(w).unlock_score ==> #[trigger] (
                r.wave.unlocked & (1u32 << (w as u32))) != 0
            &&& forall|w: int|
                0 <= w < WEAPON_COUNT && (s.wave.unlocked & (1u32 << (w as u32))) != 0
                    ==> #[trigger] (r.wave.unlocked & (1u32 << (w as u32))) != 0
        }),
{
    let kind = kind_row(s.enemies.kind[e]);
    let hp = s.enemies.hp[e] - s.shots.damage[j];
    let s1 = State { enemies: Enemies { hp: upd(s.enemies.hp, e, hp as i32), ..s.enemies }, ..s };
    let o = if s.shots.owner[j] >= 3 {
        3
    } else {
        s.shots.owner[j] as int
    };
    let combo = s1.wave.combo.saturating_add(1);
    let mult_x10 = 10 + if combo > COMBO_CAP {
        COMBO_CAP
    } else {
        combo
    };
    let stats = enemy_spec(kind);
    let s2 = State {
        enemies: Enemies { alive: upd(s1.enemies.alive, e, 0), ..s1.enemies },
        players: Players {
            kills: upd(s1.players.kills, o, s1.players.kills[o].saturating_add(1)),
            ..s1.players
        },
        wave: Wave {
            enemies_alive: s1.wave.enemies_alive.saturating_sub(1),
            combo,
            best_combo: if s1.wave.best_combo >= combo {
                s1.wave.best_combo
            } else {
                combo
            },
            combo_timer: COMBO_FRAMES,
            team_score: s1.wave.team_score.saturating_add((stats.score * mult_x10 / 10) as u32),
            ..s1.wave
        },
        ..s1
    };
    let s3 = emit_spec(s2, EventKind::Kill, kind as u8, s.enemies.x[e], s.enemies.y[e]);
    lemma_unlock_bits(s3, WEAPON_COUNT as nat);
    lemma_unlock_combo(s3, WEAPON_COUNT as nat);
    assert(hit_enemy_spec(s, map, e, j) == unlocks_upto(s3, WEAPON_COUNT as nat));
}

proof fn lemma_unlock_combo(s: State, n: nat)
    ensures
        unlocks_upto(s, n).wave.combo == s.wave.combo,
    decreases n,
{
    if n > 0 {
        lemma_unlock_combo(s, (n - 1) as nat);
    }
}

/// A hit is credited to the shooter: when projectile `j` brings enemy `e` to zero HP or below,
/// the enemy's slot is freed and the kill count of the projectile's owner (owners past the last
/// slot count as the last player) goes up by one, saturating; no other player's count changes.
/// A hit that leaves the enemy alive credits no kill and keeps it alive.
pub proof fn lemma_kill_credits_shooter(s: State, map: MapData, e: int, j: int)
    requires
        0 <= e < MAX_ENEMIES,
        0 <= j < MAX_SHOTS,
    ensures
        ({
            let r = hit_enemy_spec(s, map, e, j);
            let o = if s.shots.owner[j] < MAX_PLAYERS {
                s.shots.owner[j] as int
            } else {
                MAX_PLAYERS - 1
            };
            let killed = s.enemies.hp[e] - s.shots.damage[j] <= 0;
            &&& killed ==> r.players.kills[o] == s.players.kills[o].saturating_add(1)
            &&& killed ==> r.enemies.alive[e] == 0
            &&& killed ==> forall|p: int|
                0 <= p < MAX_PLAYERS && p != o ==> #[trigger] r.players.kills[p] == s.players.kills[p]
            &&& !killed ==> r.players.kills == s.players.kills
            &&& !killed ==> r.enemies.alive == s.enemies.alive
            &&& r.enemies.hp[e] == (s.enemies.hp[e] - s.shots.damage[j]) as i32
        }),
{
    let kind = kind_row(s.enemies.kind[e]);
    let hp = s.enemies.hp[e] - s.shots.damage[j];
    let s1 = State { enemies: Enemies { hp: upd(s.enemies.hp, e, hp as i32), ..s.enemies }, ..s };
    if hp <= 0 {
        let o = if s.shots.owner[j] >= 3 {
            3
        } else {
            s.shots.owner[j] as int
        };
        let combo = s1.wave.combo.saturating_add(1);
        let mult_x10 = 10 + if combo > COMBO_CAP {
            COMBO_CAP
        } else {
            combo
        };
        let stats = enemy_spec(kind);
        let s2 = State {
            enemies: Enemies { alive: upd(s1.enemies.alive, e, 0), ..s1.enemies },
            players: Players {
                kills: upd(s1.players.kills, o, s1.players.kills[o].saturating_add(1)),
                ..s1.players
            },
            wave: Wave {
                enemies_alive: s1.wave.enemies_alive.saturating_sub(1),
                combo,
                best_combo: if s1.wave.best_combo >= combo {
                    s1.wave.best_combo
                } else {
                    combo
                },
                combo_timer: COMBO_FRAMES,
                team_score: s1.wave.team_score.saturating_add((stats.score * mult_x10 / 10) as u32),
                ..s1.wave
            },
            ..s1
        };
        let s3 = emit_spec(s2, EventKind::Kill, kind as u8, s.enemies.x[e], s.enemies.y[e]);
        lemma_unlocks_keep_players(s3, WEAPON_COUNT as nat);
        assert(hit_enemy_spec(s, map, e, j) == unlocks_upto(s3, WEAPON_COUNT as nat));
    }
}

/// The facts the projectile loop relies on and keeps.
pub open spec fn shot_loop_ok(s: State, map: MapData) -> bool {
    &&& players_ok(s, map)
    &&& enemies_ok(s, map)
}

/// The projectile-loop facts only depend on players, enemies, the live count and the header.
proof fn lemma_shot_loop_ok_frame(a: State, b: State, map: MapData)
    requires
        shot_loop_ok(a, map),
        a.players == b.players,
        a.enemies == b.enemies,
        a.wave.enemies_alive == b.wave.enemies_alive,
        a.header == b.header,
    ensures
        shot_loop_ok(b, map),
{
    lemma_players_ok_frame(a, b, map);
}

fn kill_enemy(s: &mut State, map: &MapData, e: usize, owner: usize, kind: usize, x: Fixed, y: Fixed)
    requires
        e < MAX_ENEMIES,
        owner < MAX_PLAYERS,
        kind < 2,
        old(s).enemies.alive[e as int] != 0,
        old(s).enemies.hp[e as int] <= 0,
        players_ok(*old(s), *map),
        old(s).wave.enemies_alive <= alive_count(old(s).enemies, MAX_ENEMIES as nat) + COUNT_SLACK,
        forall|j: int|
            0 <= j < MAX_ENEMIES && j != e && #[trigger] old(s).enemies.alive[j] != 0
                ==> old(s).enemies.hp[j] > 0 && box_clear(
                *map,
                old(s).enemies.x[j],
                old(s).enemies.y[j],
                enemy_radius(old(s).enemies, j),
            ),
    ensures
        ({
            let b = *old(s);
            let stats = enemy_spec(kind as int);
            let combo = b.wave.combo.saturating_add(1);
            let mult_x10 = 10 + if combo > COMBO_CAP {
                COMBO_CAP
            } else {
                combo
            };
            let s2 = State {
                enemies: Enemies { alive: upd(b.enemies.alive, e as int, 0), ..b.enemies },
                players: Players {
                    kills: upd(b.players.kills, owner as int, b.players.kills[owner as int].saturating_add(1)),
                    ..b.players
                },
                wave: Wave {
                    enemies_alive: b.wave.enemies_alive.saturating_sub(1),
                    combo,
                    best_combo: if b.wave.best_combo >= combo {
                        b.wave.best_combo
                    } else {
                        combo
                    },
                    combo_timer: COMBO_FRAMES,
                    team_score: b.wave.team_score.saturating_add((stats.score * mult_x10 / 10) as u32),
                    ..b.wave
                },
                ..b
            };
            *final(s) == unlocks_upto(emit_spec(s2, EventKind::Kill, kind as u8, x, y), WEAPON_COUNT as nat)
        }),
        shot_loop_ok(*final(s), *map),
        final(s).header == old(s).header,
        final(s).flow == old(s).flow,
        final(s).shots == old(s).shots,
        final(s).wave.number == old(s).wave.number,
{
    let ghost b = *s;
    let stats = enemy(kind);
    assert(stats.score <= 15);
    s.enemies.alive[e] = 0;
    s.wave.enemies_alive = s.wave.enemies_alive.saturating_sub(1);
    s.players.kills[owner] = s.players.kills[owner].saturating_add(1);
    s.wave.combo = s.wave.combo.saturating_add(1);
    if s.wave.best_combo < s.wave.combo {
        s.wave.best_combo = s.wave.combo;
    }
    s.wave.combo_timer = COMBO_FRAMES;
    let combo = s.wave.combo;
    let mult_x10 = 10 + if combo > COMBO_CAP {
        COMBO_CAP
    } else {
        combo
    };
    assert(mult_x10 <= 60);
    assert(stats.score * mult_x10 <= 900) by (nonlinear_arith)
        requires
            stats.score <= 15,
            mult_x10 <= 60,
    ;
    s.wave.team_score = s.wave.team_score.saturating_add(stats.score * mult_x10 / 10);
    proof {
        assert(s.enemies.alive =~= upd(b.enemies.alive, e as int, 0));
        assert(s.players.kills =~= upd(
            b.players.kills,
            owner as int,
            b.players.kills[owner as int].saturating_add(1),
        ));
        lemma_alive_count_update(b.enemies, s.enemies, e as int, MAX_ENEMIES as nat);
        lemma_players_ok_frame(b, *s, *map);
        assert(s.wave.enemies_alive <= alive_count(s.enemies, MAX_ENEMIES as nat) + COUNT_SLACK);
        assert forall|j: int|
            0 <= j < MAX_ENEMIES && #[trigger] s.enemies.alive[j] != 0 implies s.enemies.hp[j] > 0
            && box_clear(*map, s.enemies.x[j], s.enemies.y[j], enemy_radius(s.enemies, j)) by {
            assert(j != e);
            assert(b.enemies.alive[j] != 0);
            assert(s.enemies.kind[j] == b.enemies.kind[j]);
        }
        assert(shot_loop_ok(*s, *map));
    }
    let ghost s2 = *s;
    s.emit(EventKind::Kill, kind as u8, x, y);
    unlock_weapons(s);
    proof {
        lemma_shot_loop_ok_frame(s2, *s, *map);
    }
}

fn knock_enemy(s: &mut State, map: &MapData, e: usize, shot: usize, kind: usize, x: Fixed, y: Fixed)
    requires
        e < MAX_ENEMIES,
        shot < MAX_SHOTS,
        kind < 2,
        old(s).enemies.alive[e as int] != 0,
        old(s).enemies.hp[e as int] > 0,
        kind == kind_row(old(s).enemies.kind[e as int]),
        x == old(s).enemies.x[e as int],
        y == old(s).enemies.y[e as int],
        shot_loop_ok(*old(s), *map),
    ensures
        ({
            let b = *old(s);
            let stats = enemy_spec(kind as int);
            let d = dir_from_delta_spec(b.shots.vx[shot as int], b.shots.vy[shot as int]);
            let (ux, uy) = dir8_spec(d as int);
            let (nx, ny) = move_box_spec(
                *map,
                x,
                y,
                fmul(ux, Fixed(KNOCKBACK)),
                fmul(uy, Fixed(KNOCKBACK)),
                stats.radius,
            );
            let s2 = State {
                enemies: Enemies {
                    x: upd(b.enemies.x, e as int, nx),
                    y: upd(b.enemies.y, e as int, ny),
                    stagger: upd(b.enemies.stagger, e as int, STAGGER_FRAMES),
                    ..b.enemies
                },
                ..b
            };
            *final(s) == emit_spec(s2, EventKind::Hit, kind as u8, x, y)
        }),
        shot_loop_ok(*final(s), *map),
        final(s).header == old(s).header,
        final(s).flow == old(s).flow,
        final(s).shots == old(s).shots,
        final(s).wave.number == old(s).wave.number,
{
    let ghost b = *s;
    let stats = enemy(kind);
    let (vx, vy) = (s.shots.vx[shot], s.shots.vy[shot]);
    let d = dir_from_delta(vx, vy);
    let (ux, uy) = dir8(d);
    let r = stats.radius;
    proof {
        crate::players::lemma_dir_step_small(d as int, KNOCKBACK);
    }
    let (nx, ny) = move_box(map, x, y, ux * Fixed(KNOCKBACK), uy * Fixed(KNOCKBACK), r);
    proof {
        lemma_move_box_stays_clear(*map, x, y, fmul(ux, Fixed(KNOCKBACK)), fmul(uy, Fixed(KNOCKBACK)), r);
    }
    s.enemies.x[e] = nx;
    s.enemies.y[e] = ny;
    s.enemies.stagger[e] = STAGGER_FRAMES;
    proof {
        assert(s.enemies.x =~= upd(b.enemies.x, e as int, nx));
        assert(s.enemies.y =~= upd(b.enemies.y, e as int, ny));
        assert(s.enemies.stagger =~= upd(b.enemies.stagger, e as int, STAGGER_FRAMES));
        lemma_players_ok_frame(b, *s, *map);
        crate::inv::lemma_alive_count_same(b.enemies, s.enemies, MAX_ENEMIES as nat);
        assert forall|j: int|
            0 <= j < MAX_ENEMIES && #[trigger] s.enemies.alive[j] != 0 implies s.enemies.hp[j] > 0
            && box_clear(*map, s.enemies.x[j], s.enemies.y[j], enemy_radius(s.enemies, j)) by {
            if j != e {
                assert(b.enemies.alive[j] != 0);
            }
        }
        assert(shot_loop_ok(*s, *map));
    }
    let ghost s2 = *s;
    s.emit(EventKind::Hit, kind as u8, x, y);
    proof {
        lemma_shot_loop_ok_frame(s2, *s, *map);
    }
}

fn hit_enemy(s: &mut State, map: &MapData, e: usize, shot: usize)
    requires
        e < MAX_ENEMIES,
        shot < MAX_SHOTS,
        old(s).enemies.alive[e as int] != 0,
        shot_loop_ok(*old(s), *map),
    ensures
        *final(s) == hit_enemy_spec(*old(s), *map, e as int, shot as int),
        shot_loop_ok(*final(s), *map),
        final(s).header == old(s).header,
        final(s).flow == old(s).flow,
        final(s).shots == old(s).shots,
        final(s).wave.number == old(s).wave.number,
{
    let ghost b = *s;
    let o = s.shots.owner[shot] as usize;
    let owner = if o >= MAX_PLAYERS - 1 {
        MAX_PLAYERS - 1
    } else {
        o
    };
    let k = s.enemies.kind[e];
    let kind: usize = if k == 0 {
        0
    } else {
        1
    };
    let hp = s.enemies.hp[e] - s.shots.damage[shot] as i32;
    s.enemies.hp[e] = hp;
    let x = s.enemies.x[e];
    let y = s.enemies.y[e];
    proof {
        assert(s.enemies.hp =~= upd(b.enemies.hp, e as int, hp));
        lemma_players_ok_frame(b, *s, *map);
        crate::inv::lemma_alive_count_same(b.enemies, s.enemies, MAX_ENEMIES as nat);
    }
    if hp <= 0 {
        proof {
            assert forall|j: int|
                0 <= j < MAX_ENEMIES && j != e && #[trigger] s.enemies.alive[j] != 0
                    implies s.enemies.hp[j] > 0 && box_clear(*map, s.enemies.x[j], s.enemies.y[j], enemy_radius(s.enemies, j)) by {
                assert(b.enemies.alive[j] != 0);
            }
        }
        kill_enemy(s, map, e, owner, kind, x, y);
    } else {
        proof {
            assert(shot_loop_ok(*s, *map)) by {
                assert forall|j: int|
                    0 <= j < MAX_ENEMIES && #[trigger] s.enemies.alive[j] != 0 implies s.enemies.hp[j] > 0
                    && box_clear(*map, s.enemies.x[j], s.enemies.y[j], enemy_radius(s.enemies, j)) by {
                    assert(b.enemies.alive[j] != 0);
                }
            }
        }
        knock_enemy(s, map, e, shot, kind, x, y);
    }
}

// ---------------------------------------------------------------- splash
/// The splash radius of projectile `j`'s weapon (zero: single target only).
pub open spec fn shot_splash(s: State, j: int) -> Fixed {
    let k = s.shots.kind[j];
    weapon_spec(if k >= 3 { 3 } else { k as int }).splash_radius
}

/// Whether live enemy `o` lies within radius `r` of the point `(x, y)`.
pub open spec fn in_blast(s: State, o: int, x: Fixed, y: Fixed, r: Fixed) -> bool {
    &&& s.enemies.alive[o] != 0
    &&& len_sq_spec(
        crate::physics::fsub(s.enemies.x[o], x),
        crate::physics::fsub(s.enemies.y[o], y),
    ) <= r.0 * r.0
}

/// The blast of projectile `j` at `(x, y)` after its direct hit on `e`: every other live enemy
/// among `0..n` within radius `r` is hit by the projectile too, in slot order.
pub open spec fn splash_upto(
    s: State,
    map: MapData,
    e: int,
    j: int,
    x: Fixed,
    y: Fixed,
    r: Fixed,
    n: nat,
) -> State
    decreases n,
{
    if n == 0 {
        s
    } else {
        let p = splash_upto(s, map, e, j, x, y, r, (n - 1) as nat);
        let o = n - 1;
        if o != e && in_blast(p, o, x, y, r) {
            hit_enemy_spec(p, map, o, j)
        } else {
            p
        }
    }
}

fn splash(s: &mut State, map: &MapData, e: usize, j: usize, x: Fixed, y: Fixed, r: Fixed)
    requires
        j < MAX_SHOTS,
        0 <= x.0 < MAP_W * 65536,
        0 <= y.0 < MAP_H * 65536,
        0 <= r.0 <= 0x20_0000,
        shot_loop_ok(*old(s), *map),
    ensures
        *final(s) == splash_upto(*old(s), *map, e as int, j as int, x, y, r, MAX_ENEMIES as nat),
        shot_loop_ok(*final(s), *map),
        final(s).header == old(s).header,
        final(s).flow == old(s).flow,
        final(s).shots == old(s).shots,
        final(s).wave.number == old(s).wave.number,
{
    let ghost s0 = *s;
    let rr = r.sq();
    let mut o: usize = 0;
    while o < MAX_ENEMIES
        invariant
            o <= MAX_ENEMIES,
            j < MAX_SHOTS,
            0 <= x.0 < MAP_W * 65536,
            0 <= y.0 < MAP_H * 65536,
            rr == r.0 * r.0,
            *s == splash_upto(s0, *map, e as int, j as int, x, y, r, o as nat),
            shot_loop_ok(*s, *map),
            s.header == s0.header,
            s.flow == s0.flow,
            s.shots == s0.shots,
            s.wave.number == s0.wave.number,
        decreases MAX_ENEMIES - o,
    {
        if o != e && s.enemies.alive[o] != 0 {
            proof {
                lemma_clear_box_in_map(*map, s.enemies.x[o as int], s.enemies.y[o as int], enemy_radius(s.enemies, o as int));
            }
            let dx = s.enemies.x[o] - x;
            let dy = s.enemies.y[o] - y;
            proof {
                lemma_len_sq_small(dx, dy);
            }
            if Fixed::len_sq(dx, dy) <= rr {
                hit_enemy(s, map, o, j);
            }
        }
        o = o + 1;
    }
}

// ---------------------------------------------------------------- flight
/// First live enemy in `list` (from index `j`) whose box touches the projectile at `(x, y)`.
pub open spec fn hit_search(s: State, list: Seq<usize>, j: nat, x: Fixed, y: Fixed) -> Option<int>
    decreases list.len() - j,
{
    if j >= list.len() {
        None
    } else {
        let e = list[j as int] as int;
        let r = fadd(enemy_radius(s.enemies, e), Fixed(SHOT_RADIUS));
        if s.enemies.alive[e] != 0 && len_sq_spec(
            crate::physics::fsub(s.enemies.x[e], x),
            crate::physics::fsub(s.enemies.y[e], y),
        ) <= r.0 * r.0 {
            Some(e)
        } else {
            hit_search(s, list, j + 1, x, y)
        }
    }
}

/// One half-step of projectile `j`: it advances half its velocity; a wall or an enemy (looked
/// up in the broadphase built from `e1`) ends it, and a weapon with a splash radius then hits
/// every other live enemy within that radius of the impact point. Returns whether it ended.
pub open spec fn substep(s: State, map: MapData, e1: Enemies, j: int) -> (State, bool) {
    let x = fadd(s.shots.x[j], Fixed(trunc_div(s.shots.vx[j].0 as int, 2) as i32));
    let y = fadd(s.shots.y[j], Fixed(trunc_div(s.shots.vy[j].0 as int, 2) as i32));
    let s1 = State { shots: Shots { x: upd(s.shots.x, j, x), y: upd(s.shots.y, j, y), ..s.shots }, ..s };
    if map.is_solid(tile_of(x), tile_of(y)) {
        (State { shots: Shots { ttl: upd(s1.shots.ttl, j, 0), ..s1.shots }, ..s1 }, true)
    } else {
        match hit_search(s1, near_spec(e1, tile_of(x), tile_of(y)), 0, x, y) {
            Some(e) => {
                let s2 = hit_enemy_spec(s1, map, e, j);
                let r = shot_splash(s1, j);
                let s3 = if r.0 > 0 {
                    splash_upto(s2, map, e, j, x, y, r, MAX_ENEMIES as nat)
                } else {
                    s2
                };
                (State { shots: Shots { ttl: upd(s3.shots.ttl, j, 0), ..s3.shots }, ..s3 }, true)
            },
            None => (s1, false),
        }
    }
}

/// One frame of projectile `j`: its lifetime ticks, then two half-steps (stopping early).
pub open spec fn shot_one(s: State, map: MapData, e1: Enemies, j: int) -> State {
    if s.shots.ttl[j] == 0 {
        s
    } else {
        let s1 = State {
            shots: Shots { ttl: upd(s.shots.ttl, j, (s.shots.ttl[j] - 1) as u8), ..s.shots },
            ..s
        };
        let (s2, stop) = substep(s1, map, e1, j);
        if stop {
            s2
        } else {
            substep(s2, map, e1, j).0
        }
    }
}

/// Projectiles `0..n` updated in slot order.
pub open spec fn shots_upto(s: State, map: MapData, e1: Enemies, n: nat) -> State
    decreases n,
{
    if n == 0 {
        s
    } else {
        shot_one(shots_upto(s, map, e1, (n - 1) as nat), map, e1, n - 1)
    }
}

fn half_toward_zero(v: i32) -> (r: i32)
    ensures
        r == trunc_div(v as int, 2),
{
    if v >= 0 {
        v / 2
    } else {
        -((-(v as i64)) / 2) as i32
    }
}

fn find_hit(s: &State, list: &Vec<usize>, x: Fixed, y: Fixed) -> (r: Option<usize>)
    requires
        0 <= x.0 < MAP_W * 65536,
        0 <= y.0 < MAP_H * 65536,
        forall|j: int|
            0 <= j < MAX_ENEMIES && #[trigger] s.enemies.alive[j] != 0 ==> {
                &&& 0 <= s.enemies.x[j].0 <= 0x100_0000
                &&& 0 <= s.enemies.y[j].0 <= 0x100_0000
            },
        forall|j: int| 0 <= j < list@.len() ==> #[trigger] list@[j] < MAX_ENEMIES,
    ensures
        r matches Some(e) ==> hit_search(*s, list@, 0, x, y) == Some(e as int) && e < MAX_ENEMIES
            && s.enemies.alive[e as int] != 0,
        r is None ==> hit_search(*s, list@, 0, x, y) is None,
{
    let mut j: usize = 0;
    while j < list.len()
        invariant
            j <= list@.len(),
            0 <= x.0 < MAP_W * 65536,
            0 <= y.0 < MAP_H * 65536,
            forall|k: int|
                0 <= k < MAX_ENEMIES && #[trigger] s.enemies.alive[k] != 0 ==> {
                    &&& 0 <= s.enemies.x[k].0 <= 0x100_0000
                    &&& 0 <= s.enemies.y[k].0 <= 0x100_0000
                },
            forall|k: int| 0 <= k < list@.len() ==> #[trigger] list@[k] < MAX_ENEMIES,
            hit_search(*s, list@, 0, x, y) == hit_search(*s, list@, j as nat, x, y),
        decreases list@.len() - j,
    {
        let e = list[j];
        if s.enemies.alive[e] != 0 {
            let k = s.enemies.kind[e];
            let radius = enemy(if k == 0 {
                0
            } else {
                1
            }).radius;
            let r = radius + Fixed(SHOT_RADIUS);
            let dx = s.enemies.x[e] - x;
            let dy = s.enemies.y[e] - y;
            proof {
                lemma_len_sq_small(dx, dy);
            }
            if Fixed::len_sq(dx, dy) <= r.sq() {
                return Some(e);
            }
        }
        j = j + 1;
    }
    None
}

fn do_substep(s: &mut State, map: &MapData, grid: &EnemyGrid, j: usize) -> (stop: bool)
    requires
        j < MAX_SHOTS,
        grid.wf(),
        shot_loop_ok(*old(s), *map),
    ensures
        (*final(s), stop) == substep(*old(s), *map, grid.source(), j as int),
        shot_loop_ok(*final(s), *map),
        final(s).header == old(s).header,
        final(s).flow == old(s).flow,
        final(s).wave.number == old(s).wave.number,
{
    let ghost b = *s;
    let x = s.shots.x[j] + Fixed(half_toward_zero(s.shots.vx[j].0));
    let y = s.shots.y[j] + Fixed(half_toward_zero(s.shots.vy[j].0));
    s.shots.x[j] = x;
    s.shots.y[j] = y;
    let ghost s1 = *s;
    proof {
        assert(s.shots.x =~= upd(b.shots.x, j as int, x));
        assert(s.shots.y =~= upd(b.shots.y, j as int, y));
        lemma_players_ok_frame(b, s1, *map);
        crate::inv::lemma_alive_count_same(b.enemies, s1.enemies, MAX_ENEMIES as nat);
    }
    let tx = x.floor_int();
    let ty = y.floor_int();
    if map.solid(tx, ty) {
        s.shots.ttl[j] = 0;
        proof {
            assert(s.shots.ttl =~= upd(s1.shots.ttl, j as int, 0));
            lemma_players_ok_frame(b, *s, *map);
        }
        return true;
    }
    proof {
        assert(0 <= tx < MAP_W && 0 <= ty < MAP_H);
        assert forall|k: int|
            0 <= k < MAX_ENEMIES && #[trigger] s.enemies.alive[k] != 0 implies {
                &&& 0 <= s.enemies.x[k].0 <= 0x100_0000
                &&& 0 <= s.enemies.y[k].0 <= 0x100_0000
            } by {
            let r = enemy_radius(s.enemies, k);
            lemma_clear_box_in_map(*map, s.enemies.x[k], s.enemies.y[k], r);
        }
    }
    let list = grid.for_each_near(tx, ty);
    proof {
        lemma_near_alive(grid.source(), tx as int, ty as int, 9);
    }
    match find_hit(s, &list, x, y) {
        Some(e) => {
            hit_enemy(s, map, e, j);
            let k = s.shots.kind[j] as usize;
            let r = weapon(if k >= WEAPON_COUNT - 1 {
                WEAPON_COUNT - 1
            } else {
                k
            }).splash_radius;
            if r.0 > 0 {
                splash(s, map, e, j, x, y, r);
            }
            let ghost s2 = *s;
            s.shots.ttl[j] = 0;
            proof {
                assert(s.shots.ttl =~= upd(s2.shots.ttl, j as int, 0));
                lemma_players_ok_frame(s2, *s, *map);
            }
            true
        },
        None => false,
    }
}

fn update_shot(s: &mut State, map: &MapData, grid: &EnemyGrid, j: usize)
    requires
        j < MAX_SHOTS,
        grid.wf(),
        shot_loop_ok(*old(s), *map),
    ensures
        *final(s) == shot_one(*old(s), *map, grid.source(), j as int),
        shot_loop_ok(*final(s), *map),
        final(s).header == old(s).header,
        final(s).flow == old(s).flow,
        final(s).wave.number == old(s).wave.number,
{
    let ghost b = *s;
    if s.shots.ttl[j] == 0 {
        return;
    }
    s.shots.ttl[j] = s.shots.ttl[j] - 1;
    proof {
        assert(s.shots.ttl =~= upd(b.shots.ttl, j as int, (b.shots.ttl[j as int] - 1) as u8));
        lemma_players_ok_frame(b, *s, *map);
        crate::inv::lemma_alive_count_same(b.enemies, s.enemies, MAX_ENEMIES as nat);
    }
    if !do_substep(s, map, grid, j) {
        do_substep(s, map, grid, j);
    }
}

pub fn update_shots(s: &mut State, map: &MapData, grid: &EnemyGrid)
    requires
        grid.wf(),
        shot_loop_ok(*old(s), *map),
    ensures
        *final(s) == shots_upto(*old(s), *map, grid.source(), MAX_SHOTS as nat),
        shot_loop_ok(*final(s), *map),
        final(s).header == old(s).header,
        final(s).flow == old(s).flow,
        final(s).wave.number == old(s).wave.number,
{
    let ghost s0 = *s;
    let mut j: usize = 0;
    while j < MAX_SHOTS
        invariant
            j <= MAX_SHOTS,
            grid.wf(),
            *s == shots_upto(s0, *map, grid.source(), j as nat),
            shot_loop_ok(*s, *map),
            s.header == s0.header,
            s.flow == s0.flow,
            s.wave.number == s0.wave.number,
        decreases MAX_SHOTS - j,
    {
        update_shot(s, map, grid, j);
        j = j + 1;
    }
}

} // verus!
