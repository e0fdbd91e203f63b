//! Enemy system of a survival step: target choice, contact attacks, flow-field steering,
//! separation, movement.

use crate::config::{
    enemy, enemy_spec, EnemyStats, DOWNED_FRAMES, MAP_W, MAX_ENEMIES, MAX_PLAYERS,
    PLAYER_RADIUS, TILES,
};
use crate::fx::{
    abs_spec, clamp_i32, fdiv, fmul, fneg, is_floor_sqrt, isqrt_u64, len_sq_spec, trunc_div,
    trunc_div_i64, Fixed, HALF_RAW,
};
use crate::grid::{cell_list, cell_slots, cell_spec, near_spec, near_upto, EnemyGrid};
use crate::inv::{
    enemy_radius, flow_ok, kind_row, lemma_len_sq_small, lemma_players_ok_frame, players_ok,
    standing,
};
use crate::map::MapData;
use crate::physics::{
    box_clear, fadd, fsub, lemma_clear_box_in_map, lemma_move_box_stays_clear, move_box,
    move_box_spec, tile_of,
};
use crate::players::lemma_standing_in_map;
use crate::state::{
    emit_spec, life_of, upd, Enemies, EventKind, Life, Players, State, LIFE_DEAD, LIFE_DOWNED,
};
use vstd::prelude::*;

verus! {

broadcast use vstd::array::group_array_axioms;

/// Max neighbours sampled for separation (bounds worst-case cost).
pub const SEPARATION_SAMPLES: u32 = 6;
/// Contact slack added to the two radii (0.05 tile).
pub const CONTACT_SLACK: i32 = 3276;
/// Per-frame speed bonus per wave (0.02).
pub const WAVE_SPEEDUP: i32 = 1310;
/// Largest per-frame enemy step (0.45 tile).
pub const MAX_STEP: i32 = 29491;
/// Negated [`MAX_STEP`].
pub const NEG_MAX_STEP: i32 = -29491;

// ---------------------------------------------------------------- players as targets
/// Players still in the session (neither empty nor gone) among the first `n`.
pub open spec fn present_upto(s: State, n: nat) -> nat
    decreases n,
{
    if n == 0 {
        0
    } else {
        let l = life_of(s.players.life[n - 1]);
        present_upto(s, (n - 1) as nat) + if l != Life::Empty && l != Life::Gone {
            1nat
        } else {
            0
        }
    }
}

/// Players still in the session.
pub open spec fn present_count_spec(s: State) -> nat {
    present_upto(s, MAX_PLAYERS as nat)
}

pub fn present_count(s: &State) -> (r: u32)
    ensures
        r == present_count_spec(*s),
        r <= MAX_PLAYERS,
{
    let mut n: u32 = 0;
    let mut i: usize = 0;
    while i < MAX_PLAYERS
        invariant
            i <= MAX_PLAYERS,
            n == present_upto(*s, i as nat),
            n <= i,
        decreases MAX_PLAYERS - i,
    {
        let l = s.life(i);
        if l != Life::Empty && l != Life::Gone {
            n = n + 1;
        }
        i = i + 1;
    }
    n
}

/// The nearest alive player among the first `n` to `(x, y)` with its squared distance
/// (ties go to the lower slot).
pub open spec fn nearest_upto(s: State, x: Fixed, y: Fixed, n: nat) -> Option<(int, int)>
    decreases n,
{
    if n == 0 {
        None
    } else {
        let best = nearest_upto(s, x, y, (n - 1) as nat);
        let i = n - 1;
        if life_of(s.players.life[i]) != Life::Alive {
            best
        } else {
            let d = len_sq_spec(fsub(s.players.x[i], x), fsub(s.players.y[i], y));
            match best {
                None => Some((i, d)),
                Some((bi, bd)) => if d < bd {
                    Some((i, d))
                } else {
                    best
                },
            }
        }
    }
}

/// Enemies go for the nearest player: the pick is an alive player at its squared distance,
/// no alive player is strictly nearer, and of equally near ones the lowest slot wins; there is
/// no pick only when no player is alive.
pub proof fn lemma_nearest_is_nearest(s: State, x: Fixed, y: Fixed, n: nat)
    requires
        n <= MAX_PLAYERS,
    ensures
        ({
            let dist = |q: int| len_sq_spec(fsub(s.players.x[q], x), fsub(s.players.y[q], y));
            match nearest_upto(s, x, y, n) {
                Some((t, d)) => {
                    &&& 0 <= t < n
                    &&& life_of(s.players.life[t]) == Life::Alive
                    &&& d == dist(t)
                    &&& forall|q: int|
                        0 <= q < n && life_of(#[trigger] s.players.life[q]) == Life::Alive ==> d
                            <= dist(q) && (dist(q) == d ==> t <= q)
                },
                None => forall|q: int|
                    0 <= q < n ==> life_of(#[trigger] s.players.life[q]) != Life::Alive,
            }
        }),
    decreases n,
{
    if n > 0 {
        lemma_nearest_is_nearest(s, x, y, (n - 1) as nat);
    }
}

fn nearest_alive_player(s: &State, x: Fixed, y: Fixed) -> (r: Option<(usize, i64)>)
    requires
        0 <= x.0 <= 0x100_0000,
        0 <= y.0 <= 0x100_0000,
        forall|j: int|
            0 <= j < MAX_PLAYERS && #[trigger] standing(*s, j) ==> {
                &&& 0 <= s.players.x[j].0 <= 0x100_0000
                &&& 0 <= s.players.y[j].0 <= 0x100_0000
            },
    ensures
        r matches Some((i, d)) ==> nearest_upto(*s, x, y, MAX_PLAYERS as nat) == Some(
            (i as int, d as int),
        ) && i < MAX_PLAYERS,
        r is None ==> nearest_upto(*s, x, y, MAX_PLAYERS as nat) is None,
{
    let mut best: Option<(usize, i64)> = None;
    let mut i: usize = 0;
    while i < MAX_PLAYERS
        invariant
            i <= MAX_PLAYERS,
            0 <= x.0 <= 0x100_0000,
            0 <= y.0 <= 0x100_0000,
            forall|j: int|
                0 <= j < MAX_PLAYERS && #[trigger] standing(*s, j) ==> {
                    &&& 0 <= s.players.x[j].0 <= 0x100_0000
                    &&& 0 <= s.players.y[j].0 <= 0x100_0000
                },
            best matches Some((bi, bd)) ==> nearest_upto(*s, x, y, i as nat) == Some(
                (bi as int, bd as int),
            ) && bi < MAX_PLAYERS,
            best is None ==> nearest_upto(*s, x, y, i as nat) is None,
        decreases MAX_PLAYERS - i,
    {
        if s.life(i) == Life::Alive {
            proof {
                assert(standing(*s, i as int));
            }
            let dx = s.players.x[i] - x;
            let dy = s.players.y[i] - y;
            proof {
                lemma_len_sq_small(dx, dy);
            }
            let d = Fixed::len_sq(dx, dy);
            match best {
                None => {
                    best = Some((i, d));
                },
                Some((_, bd)) => {
                    if d < bd {
                        best = Some((i, d));
                    }
                },
            }
        }
        i = i + 1;
    }
    best
}

/// Player `p` takes `amount` damage: hurt flash and event; at zero HP it is downed (or dead
/// when nobody else is left to revive it).
pub open spec fn damage_spec(s: State, p: int, amount: i32) -> State {
    let hp = s.players.hp[p] - amount;
    let (x, y) = (s.players.x[p], s.players.y[p]);
    let s1 = State {
        players: Players {
            hp: upd(s.players.hp, p, hp as i32),
            hurt_flash: upd(s.players.hurt_flash, p, 8u8),
            ..s.players
        },
        ..s
    };
    let s2 = emit_spec(s1, EventKind::PlayerHurt, p as u8, x, y);
    if hp <= 0 {
        let s3 = State { players: Players { hp: upd(s2.players.hp, p, 0), ..s2.players }, ..s2 };
        let s4 = if present_count_spec(s3) <= 1 {
            State { players: Players { life: upd(s3.players.life, p, LIFE_DEAD), ..s3.players }, ..s3 }
        } else {
            State {
                players: Players {
                    life: upd(s3.players.life, p, LIFE_DOWNED),
                    down_timer: upd(s3.players.down_timer, p, DOWNED_FRAMES),
                    revive: upd(s3.players.revive, p, 0),
                    ..s3.players
                },
                ..s3
            }
        };
        emit_spec(s4, EventKind::Down, p as u8, x, y)
    } else {
        s2
    }
}

proof fn lemma_present_upto_same(a: State, b: State, n: nat)
    requires
        a.players.life == b.players.life,
    ensures
        present_upto(a, n) == present_upto(b, n),
    decreases n,
{
    if n > 0 {
        lemma_present_upto_same(a, b, (n - 1) as nat);
    }
}

proof fn lemma_present_same(a: State, b: State)
    requires
        a.players.life == b.players.life,
    ensures
        present_count_spec(a) == present_count_spec(b),
{
    lemma_present_upto_same(a, b, MAX_PLAYERS as nat);
}

/// Damage lands on the one player hit: its HP drops by the amount, floored at zero, and it
/// flashes; at zero it goes down for [`DOWNED_FRAMES`] (or dies outright when nobody else is
/// present to revive it). No other player's HP or life changes.
pub proof fn lemma_damage_hits_one_player(s: State, p: int, amount: i32)
    requires
        0 <= p < MAX_PLAYERS,
        i32::MIN <= s.players.hp[p] - amount <= i32::MAX,
    ensures
        ({
            let r = damage_spec(s, p, amount);
            let hp = s.players.hp[p] - amount;
            &&& hp > 0 ==> r.players.hp[p] == hp && r.players.life == s.players.life
            &&& hp <= 0 ==> r.players.hp[p] == 0
            &&& hp <= 0 && present_count_spec(s) <= 1 ==> r.players.life[p] == LIFE_DEAD
            &&& hp <= 0 && present_count_spec(s) > 1 ==> r.players.life[p] == LIFE_DOWNED
                && r.players.down_timer[p] == DOWNED_FRAMES
            &&& r.players.hurt_flash[p] == 8
            &&& forall|q: int| 0 <= q < MAX_PLAYERS && q != p ==> #[trigger] r.players.hp[q]
                == s.players.hp[q] && r.players.life[q] == s.players.life[q]
        }),
{
    broadcast use vstd::array::group_array_axioms;

    let hp = s.players.hp[p] - amount;
    let s1 = State {
        players: Players {
            hp: upd(s.players.hp, p, hp as i32),
            hurt_flash: upd(s.players.hurt_flash, p, 8u8),
            ..s.players
        },
        ..s
    };
    let s2 = emit_spec(s1, EventKind::PlayerHurt, p as u8, s.players.x[p], s.players.y[p]);
    let s3 = State { players: Players { hp: upd(s2.players.hp, p, 0), ..s2.players }, ..s2 };
    assert(s3.players.life == s.players.life);
    lemma_present_same(s, s3);
}

fn damage_player(s: &mut State, map: &MapData, p: usize, amount: i32)
    requires
        p < MAX_PLAYERS,
        0 <= amount <= 100,
        players_ok(*old(s), *map),
        life_of(old(s).players.life[p as int]) == Life::Alive,
    ensures
        *final(s) == damage_spec(*old(s), p as int, amount),
        players_ok(*final(s), *map),
        final(s).enemies == old(s).enemies,
        final(s).flow == old(s).flow,
        final(s).wave == old(s).wave,
        final(s).header == old(s).header,
{
    let ghost b = *s;
    let hp = s.players.hp[p] - amount;
    s.players.hp[p] = hp;
    s.players.hurt_flash[p] = 8;
    let x = s.players.x[p];
    let y = s.players.y[p];
    proof {
        assert(s.players.hp =~= upd(b.players.hp, p as int, hp));
        assert(s.players.hurt_flash =~= upd(b.players.hurt_flash, p as int, 8u8));
    }
    s.emit(EventKind::PlayerHurt, p as u8, x, y);
    if hp <= 0 {
        let ghost s2 = *s;
        s.players.hp[p] = 0;
        let ghost s3 = *s;
        proof {
            assert(s.players.hp =~= upd(s2.players.hp, p as int, 0));
        }
        if present_count(s) <= 1 {
            s.players.life[p] = LIFE_DEAD;
            proof {
                assert(s.players.life =~= upd(s3.players.life, p as int, LIFE_DEAD));
            }
        } else {
            s.players.life[p] = LIFE_DOWNED;
            s.players.down_timer[p] = DOWNED_FRAMES;
            s.players.revive[p] = 0;
            proof {
                assert(s.players.life =~= upd(s3.players.life, p as int, LIFE_DOWNED));
                assert(s.players.down_timer =~= upd(s3.players.down_timer, p as int, DOWNED_FRAMES));
                assert(s.players.revive =~= upd(s3.players.revive, p as int, 0));
            }
        }
        s.emit(EventKind::Down, p as u8, x, y);
    }
    proof {
        assert(players_ok(*s, *map)) by {
            assert forall|j: int|
                0 <= j < MAX_PLAYERS && #[trigger] standing(*s, j) implies box_clear(
                *map,
                s.players.x[j],
                s.players.y[j],
                Fixed(PLAYER_RADIUS),
            ) by {
                assert(standing(b, j));
            }
        }
    }
}

// ---------------------------------------------------------------- steering
/// `floor(sqrt(n))` for `n >= 0`.
pub open spec fn floor_sqrt(n: int) -> int {
    choose|r: int| is_floor_sqrt(n, r)
}

/// The floor square root is unique.
pub proof fn lemma_floor_sqrt_unique(n: int, r: int)
    requires
        is_floor_sqrt(n, r),
    ensures
        floor_sqrt(n) == r,
{
    let q = floor_sqrt(n);
    assert(is_floor_sqrt(n, q));
    if q < r {
        assert((q + 1) * (q + 1) <= r * r) by (nonlinear_arith)
            requires
                0 <= q < r,
        ;
    } else if r < q {
        assert((r + 1) * (r + 1) <= q * q) by (nonlinear_arith)
            requires
                0 <= r < q,
        ;
    }
}

/// Vector `(dx, dy)` rescaled to length `len` (integer sqrt; zero stays zero).
pub open spec fn scale_to_spec(dx: Fixed, dy: Fixed, len: Fixed) -> (Fixed, Fixed) {
    let mag = floor_sqrt(len_sq_spec(dx, dy));
    if mag == 0 {
        (Fixed(0), Fixed(0))
    } else {
        (
            Fixed(trunc_div(dx.0 * len.0, mag) as i32),
            Fixed(trunc_div(dy.0 * len.0, mag) as i32),
        )
    }
}

fn scale_to(dx: Fixed, dy: Fixed, len: Fixed) -> (r: (Fixed, Fixed))
    requires
        -0x200_0000 <= dx.0 <= 0x200_0000,
        -0x200_0000 <= dy.0 <= 0x200_0000,
    ensures
        r == scale_to_spec(dx, dy, len),
{
    proof {
        lemma_len_sq_small(dx, dy);
    }
    let n = Fixed::len_sq(dx, dy);
    let m = isqrt_u64(n as u64);
    proof {
        lemma_floor_sqrt_unique(n as int, m as int);
        assert(m <= 0x1000_0000) by (nonlinear_arith)
            requires
                m * m <= n,
                n <= 0x8_0000_0000_0000,
        ;
    }
    let mag = m as i64;
    if mag == 0 {
        return (Fixed(0), Fixed(0));
    }
    let k = len.0 as i64;
    proof {
        assert(-0x4000_0000_0000_0000 <= dx.0 * k <= 0x4000_0000_0000_0000) by (nonlinear_arith)
            requires
                -0x200_0000 <= dx.0 <= 0x200_0000,
                -0x8000_0000 <= k <= 0x8000_0000,
        ;
        assert(-0x4000_0000_0000_0000 <= dy.0 * k <= 0x4000_0000_0000_0000) by (nonlinear_arith)
            requires
                -0x200_0000 <= dy.0 <= 0x200_0000,
                -0x8000_0000 <= k <= 0x8000_0000,
        ;
    }
    let qx = trunc_div_i64(dx.0 as i64 * k, mag);
    let qy = trunc_div_i64(dy.0 as i64 * k, mag);
    (Fixed(qx as i32), Fixed(qy as i32))
}

/// Tile offsets for DIR8 indices (0 = none).
pub open spec fn neighbour_spec(d: int) -> (int, int) {
    if d == 1 {
        (0, -1)
    } else if d == 2 {
        (1, -1)
    } else if d == 3 {
        (1, 0)
    } else if d == 4 {
        (1, 1)
    } else if d == 5 {
        (0, 1)
    } else if d == 6 {
        (-1, 1)
    } else if d == 7 {
        (-1, 0)
    } else if d == 8 {
        (-1, -1)
    } else {
        (0, 0)
    }
}

fn neighbour(d: u8) -> (r: (i32, i32))
    ensures
        r.0 == neighbour_spec(d as int).0,
        r.1 == neighbour_spec(d as int).1,
{
    if d == 1 {
        (0, -1)
    } else if d == 2 {
        (1, -1)
    } else if d == 3 {
        (1, 0)
    } else if d == 4 {
        (1, 1)
    } else if d == 5 {
        (0, 1)
    } else if d == 6 {
        (-1, 1)
    } else if d == 7 {
        (-1, 0)
    } else if d == 8 {
        (-1, -1)
    } else {
        (0, 0)
    }
}

/// The centre of tile `t` along one axis.
pub open spec fn tile_centre(t: int) -> Fixed {
    fadd(Fixed(clamp_i32(t * 65536)), Fixed(HALF_RAW))
}

/// One separation sample: push away from neighbour `o` when closer than two radii
/// (normalised by the L1 norm; an exact overlap pushes along slot order).
pub open spec fn sep_step(
    s: State,
    e: int,
    stats: EnemyStats,
    ex: Fixed,
    ey: Fixed,
    o: int,
    acc: (Fixed, Fixed, int),
) -> (Fixed, Fixed, int) {
    let (vx, vy, sampled) = acc;
    if o == e {
        acc
    } else {
        let dx = fsub(ex, s.enemies.x[o]);
        let dy = fsub(ey, s.enemies.y[o]);
        let min_d = clamp_i32(stats.radius.0 * 2);
        if len_sq_spec(dx, dy) < min_d * min_d {
            let l1 = fadd(Fixed(abs_spec(dx.0)), Fixed(abs_spec(dy.0)));
            if l1.0 == 0 {
                let push = if e < o {
                    fneg(stats.separation)
                } else {
                    stats.separation
                };
                (fadd(vx, push), vy, sampled + 1)
            } else {
                (
                    fadd(vx, fmul(fdiv(dx, l1), stats.separation)),
                    fadd(vy, fmul(fdiv(dy, l1), stats.separation)),
                    sampled + 1,
                )
            }
        } else {
            acc
        }
    }
}

/// Separation over the neighbour list from index `j`, stopping after
/// [`SEPARATION_SAMPLES`] close neighbours.
pub open spec fn sep_fold(
    s: State,
    e: int,
    stats: EnemyStats,
    ex: Fixed,
    ey: Fixed,
    list: Seq<usize>,
    j: nat,
    acc: (Fixed, Fixed, int),
) -> (Fixed, Fixed, int)
    decreases list.len() - j,
{
    if j >= list.len() {
        acc
    } else {
        let a = sep_step(s, e, stats, ex, ey, list[j as int] as int, acc);
        if a.2 >= SEPARATION_SAMPLES {
            a
        } else {
            sep_fold(s, e, stats, ex, ey, list, j + 1, a)
        }
    }
}

/// Enemy `e` steers toward `target` (along the flow field, or straight at the target once on
/// its tile), adds separation from nearby enemies of `e0`, and moves at most [`MAX_STEP`].
pub open spec fn steer_spec(
    s: State,
    map: MapData,
    e0: Enemies,
    e: int,
    stats: EnemyStats,
    speed_mul: Fixed,
    target: int,
) -> State {
    let (ex, ey) = (s.enemies.x[e], s.enemies.y[e]);
    let tx = tile_of(ex);
    let ty = tile_of(ey);
    let flow_dir = if map.is_solid(tx, ty) {
        0
    } else {
        s.flow.dir[ty * (MAP_W as int) + tx] as int
    };
    let (gx, gy) = if flow_dir == 0 {
        (s.players.x[target], s.players.y[target])
    } else {
        let (ox, oy) = neighbour_spec(flow_dir);
        (tile_centre(tx + ox), tile_centre(ty + oy))
    };
    let speed = fmul(stats.speed, speed_mul);
    let (vx, vy) = scale_to_spec(fsub(gx, ex), fsub(gy, ey), speed);
    let (vx2, vy2, _) = sep_fold(s, e, stats, ex, ey, near_spec(e0, tx, ty), 0, (vx, vy, 0));
    let cx = Fixed(
        if vx2.0 < NEG_MAX_STEP {
            NEG_MAX_STEP
        } else if vx2.0 > MAX_STEP {
            MAX_STEP
        } else {
            vx2.0
        },
    );
    let cy = Fixed(
        if vy2.0 < NEG_MAX_STEP {
            NEG_MAX_STEP
        } else if vy2.0 > MAX_STEP {
            MAX_STEP
        } else {
            vy2.0
        },
    );
    let (nx, ny) = move_box_spec(map, ex, ey, cx, cy, stats.radius);
    State {
        enemies: Enemies { x: upd(s.enemies.x, e, nx), y: upd(s.enemies.y, e, ny), ..s.enemies },
        ..s
    }
}

/// One frame of enemy `e`: cooldown ticks; a staggered enemy only recovers; otherwise it
/// attacks the nearest alive player in contact or steers toward it.
pub open spec fn enemy_one(s: State, map: MapData, e0: Enemies, speed_mul: Fixed, e: int) -> State {
    if s.enemies.alive[e] == 0 {
        s
    } else {
        let stats = enemy_spec(kind_row(s.enemies.kind[e]));
        let s1 = State {
            enemies: Enemies {
                cooldown: upd(s.enemies.cooldown, e, s.enemies.cooldown[e].saturating_sub(1)),
                ..s.enemies
            },
            ..s
        };
        if s1.enemies.stagger[e] > 0 {
            State {
                enemies: Enemies {
                    stagger: upd(s1.enemies.stagger, e, (s1.enemies.stagger[e] - 1) as u8),
                    ..s1.enemies
                },
                ..s1
            }
        } else {
            match nearest_upto(s1, s1.enemies.x[e], s1.enemies.y[e], MAX_PLAYERS as nat) {
                None => s1,
                Some((target, dist)) => {
                    let reach = fadd(
                        fadd(stats.radius, Fixed(PLAYER_RADIUS)),
                        Fixed(CONTACT_SLACK),
                    );
                    if dist <= reach.0 * reach.0 {
                        if s1.enemies.cooldown[e] == 0 {
                            let s2 = State {
                                enemies: Enemies {
                                    cooldown: upd(s1.enemies.cooldown, e, stats.attack_cooldown),
                                    ..s1.enemies
                                },
                                ..s1
                            };
                            damage_spec(s2, target, stats.damage)
                        } else {
                            s1
                        }
                    } else {
                        steer_spec(s1, map, e0, e, stats, speed_mul, target)
                    }
                },
            }
        }
    }
}

/// Enemies `0..n` updated in slot order.
pub open spec fn enemies_upto(s: State, map: MapData, e0: Enemies, speed_mul: Fixed, n: nat) -> State
    decreases n,
{
    if n == 0 {
        s
    } else {
        enemy_one(enemies_upto(s, map, e0, speed_mul, (n - 1) as nat), map, e0, speed_mul, n - 1)
    }
}

/// Wave speed multiplier: +2% per wave, capped at wave 20.
pub open spec fn speed_mul_spec(number: u32) -> Fixed {
    let n = if number > 20 {
        20
    } else {
        number as int
    };
    Fixed((65536 + WAVE_SPEEDUP * n) as i32)
}

/// The enemy update of a survival step (`e0` is the enemies the broadphase was built from).
pub open spec fn update_enemies_spec(s: State, map: MapData, e0: Enemies) -> State {
    enemies_upto(s, map, e0, speed_mul_spec(s.wave.number), MAX_ENEMIES as nat)
}

/// The facts the enemy loop relies on and keeps.
pub open spec fn enemy_loop_ok(s: State, map: MapData, e0: Enemies) -> bool {
    &&& players_ok(s, map)
    &&& flow_ok(s)
    &&& forall|j: int| 0 <= j < MAX_ENEMIES ==> #[trigger] s.enemies.alive[j] == e0.alive[j]
    &&& forall|j: int| 0 <= j < MAX_ENEMIES ==> #[trigger] s.enemies.kind[j] == e0.kind[j]
    &&& forall|j: int| 0 <= j < MAX_ENEMIES ==> #[trigger] s.enemies.hp[j] == e0.hp[j]
    &&& forall|j: int|
        0 <= j < MAX_ENEMIES && #[trigger] s.enemies.alive[j] != 0 ==> box_clear(
            map,
            s.enemies.x[j],
            s.enemies.y[j],
            enemy_radius(s.enemies, j),
        )
}

/// Every slot of a cell list sits in that cell, so it is a live enemy.
proof fn lemma_cell_slots_alive(e: Enemies, c: int, n: nat)
    requires
        c >= 0,
        n <= MAX_ENEMIES,
    ensures
        forall|k: int|
            0 <= k < cell_slots(e, c, n).len() ==> {
                let o = #[trigger] cell_slots(e, c, n)[k] as int;
                &&& 0 <= o < MAX_ENEMIES
                &&& e.alive[o] != 0
            },
    decreases n,
{
    if n > 0 {
        lemma_cell_slots_alive(e, c, (n - 1) as nat);
        let p = cell_slots(e, c, (n - 1) as nat);
        if cell_spec(e, n - 1) == c {
            assert forall|k: int| 0 <= k < cell_slots(e, c, n).len() implies {
                let o = #[trigger] cell_slots(e, c, n)[k] as int;
                &&& 0 <= o < MAX_ENEMIES
                &&& e.alive[o] != 0
            } by {
                if k < p.len() {
                    assert(cell_slots(e, c, n)[k] == p[k]);
                } else {
                    assert(cell_slots(e, c, n)[k] == (n - 1) as usize);
                }
            }
        }
    }
}

/// Every slot in a neighbourhood list is a live enemy.
pub proof fn lemma_near_alive(e: Enemies, tx: int, ty: int, k: nat)
    ensures
        forall|j: int|
            0 <= j < near_upto(e, tx, ty, k).len() ==> {
                let o = #[trigger] near_upto(e, tx, ty, k)[j] as int;
                &&& 0 <= o < MAX_ENEMIES
                &&& e.alive[o] != 0
            },
    decreases k,
{
    if k > 0 {
        lemma_near_alive(e, tx, ty, (k - 1) as nat);
        let j = k - 1;
        let cx = tx + j % 3 - 1;
        let cy = ty + j / 3 - 1;
        if 0 <= cx < MAP_W && 0 <= cy < crate::config::MAP_H {
            lemma_cell_slots_alive(e, cy * (MAP_W as int) + cx, MAX_ENEMIES as nat);
        }
        let a = near_upto(e, tx, ty, (k - 1) as nat);
        let b = cell_list(e, cx, cy);
        assert forall|i: int| 0 <= i < (a + b).len() implies {
            let o = #[trigger] (a + b)[i] as int;
            &&& 0 <= o < MAX_ENEMIES
            &&& e.alive[o] != 0
        } by {
            if i < a.len() {
                assert((a + b)[i] == a[i]);
            } else {
                assert((a + b)[i] == b[i - a.len()]);
            }
        }
    }
}

/// A live enemy's coordinates are small (it is inside the map).
proof fn lemma_enemy_in_map(s: State, map: MapData, e0: Enemies, j: int)
    requires
        enemy_loop_ok(s, map, e0),
        0 <= j < MAX_ENEMIES,
        s.enemies.alive[j] != 0,
    ensures
        0 <= s.enemies.x[j].0 <= 0x100_0000,
        0 <= s.enemies.y[j].0 <= 0x100_0000,
{
    let r = enemy_radius(s.enemies, j);
    assert(r.0 > 0);
    lemma_clear_box_in_map(map, s.enemies.x[j], s.enemies.y[j], r);
}

fn separation(
    s: &State,
    map: &MapData,
    e0: Ghost<Enemies>,
    e: usize,
    stats: EnemyStats,
    ex: Fixed,
    ey: Fixed,
    list: &Vec<usize>,
    vx0: Fixed,
    vy0: Fixed,
) -> (r: (Fixed, Fixed))
    requires
        e < MAX_ENEMIES,
        enemy_loop_ok(*s, *map, e0@),
        0 <= ex.0 <= 0x100_0000,
        0 <= ey.0 <= 0x100_0000,
        stats == enemy_spec(kind_row(s.enemies.kind[e as int])),
        forall|j: int|
            0 <= j < list@.len() ==> {
                let o = #[trigger] list@[j] as int;
                &&& 0 <= o < MAX_ENEMIES
                &&& e0@.alive[o] != 0
            },
    ensures
        ({
            let a = sep_fold(*s, e as int, stats, ex, ey, list@, 0, (vx0, vy0, 0));
            r.0 == a.0 && r.1 == a.1
        }),
{
    let mut vx = vx0;
    let mut vy = vy0;
    let mut sampled: u32 = 0;
    let mut j: usize = 0;
    let min_d = stats.radius.mul_int(2);
    while j < list.len()
        invariant
            j <= list@.len(),
            e < MAX_ENEMIES,
            enemy_loop_ok(*s, *map, e0@),
            0 <= ex.0 <= 0x100_0000,
            0 <= ey.0 <= 0x100_0000,
            stats == enemy_spec(kind_row(s.enemies.kind[e as int])),
            min_d.0 == clamp_i32(stats.radius.0 * 2),
            sampled < SEPARATION_SAMPLES,
            forall|k: int|
                0 <= k < list@.len() ==> {
                    let o = #[trigger] list@[k] as int;
                    &&& 0 <= o < MAX_ENEMIES
                    &&& e0@.alive[o] != 0
                },
            sep_fold(*s, e as int, stats, ex, ey, list@, 0, (vx0, vy0, 0)) == sep_fold(
                *s,
                e as int,
                stats,
                ex,
                ey,
                list@,
                j as nat,
                (vx, vy, sampled as int),
            ),
        decreases list@.len() - j,
    {
        let o = list[j];
        let ghost acc = (vx, vy, sampled as int);
        if o != e {
            proof {
                lemma_enemy_in_map(*s, *map, e0@, o as int);
            }
            let dx = ex - s.enemies.x[o];
            let dy = ey - s.enemies.y[o];
            proof {
                lemma_len_sq_small(dx, dy);
            }
            if Fixed::len_sq(dx, dy) < min_d.sq() {
                let l1 = dx.abs() + dy.abs();
                if l1.0 == 0 {
                    let push = if e < o {
                        Fixed(0) - stats.separation
                    } else {
                        stats.separation
                    };
                    vx = vx + push;
                } else {
                    vx = vx + (dx / l1) * stats.separation;
                    vy = vy + (dy / l1) * stats.separation;
                }
                sampled = sampled + 1;
            }
        }
        proof {
            assert(sep_step(*s, e as int, stats, ex, ey, o as int, acc) == (vx, vy, sampled as int));
        }
        if sampled >= SEPARATION_SAMPLES {
            return (vx, vy);
        }
        j = j + 1;
    }
    (vx, vy)
}

fn steer(
    s: &mut State,
    map: &MapData,
    grid: &EnemyGrid,
    e: usize,
    stats: EnemyStats,
    speed_mul: Fixed,
    target: usize,
)
    requires
        e < MAX_ENEMIES,
        target < MAX_PLAYERS,
        life_of(old(s).players.life[target as int]) == Life::Alive,
        enemy_loop_ok(*old(s), *map, grid.source()),
        grid.wf(),
        old(s).enemies.alive[e as int] != 0,
        stats == enemy_spec(kind_row(old(s).enemies.kind[e as int])),
        0 <= speed_mul.0 <= 0x20_0000,
    ensures
        *final(s) == steer_spec(*old(s), *map, grid.source(), e as int, stats, speed_mul, target as int),
        enemy_loop_ok(*final(s), *map, grid.source()),
{
    let ghost b = *s;
    let ghost e0 = grid.source();
    let ex = s.enemies.x[e];
    let ey = s.enemies.y[e];
    proof {
        lemma_enemy_in_map(b, *map, e0, e as int);
        lemma_standing_in_map(b, *map);
        assert(standing(b, target as int));
    }
    let tx = ex.floor_int();
    let ty = ey.floor_int();
    let flow_dir = if map.solid(tx, ty) {
        0
    } else {
        s.flow.dir[ty as usize * MAP_W + tx as usize]
    };
    let (gx, gy) = if flow_dir == 0 {
        (s.players.x[target], s.players.y[target])
    } else {
        let (ox, oy) = neighbour(flow_dir);
        (
            Fixed::from_int(tx + ox) + Fixed(HALF_RAW),
            Fixed::from_int(ty + oy) + Fixed(HALF_RAW),
        )
    };
    proof {
        if flow_dir != 0 {
            assert(0 <= tx < MAP_W && 0 <= ty < crate::config::MAP_H);
        }
    }
    let speed = stats.speed * speed_mul;
    let (vx, vy) = scale_to(gx - ex, gy - ey, speed);
    let list = grid.for_each_near(tx, ty);
    proof {
        lemma_near_alive(e0, tx as int, ty as int, 9);
    }
    let (vx2, vy2) = separation(s, map, Ghost(e0), e, stats, ex, ey, &list, vx, vy);
    let max_step = Fixed(MAX_STEP);
    let cx = vx2.clamp(Fixed(NEG_MAX_STEP), max_step);
    let cy = vy2.clamp(Fixed(NEG_MAX_STEP), max_step);
    let (nx, ny) = move_box(map, ex, ey, cx, cy, stats.radius);
    proof {
        lemma_move_box_stays_clear(*map, ex, ey, cx, cy, stats.radius);
    }
    s.enemies.x[e] = nx;
    s.enemies.y[e] = ny;
    proof {
        let want = steer_spec(b, *map, e0, e as int, stats, speed_mul, target as int);
        assert(s.enemies.x =~= want.enemies.x);
        assert(s.enemies.y =~= want.enemies.y);
        assert(enemy_loop_ok(*s, *map, e0)) by {
            assert forall|j: int|
                0 <= j < MAX_ENEMIES && #[trigger] s.enemies.alive[j] != 0 implies box_clear(
                *map,
                s.enemies.x[j],
                s.enemies.y[j],
                enemy_radius(s.enemies, j),
            ) by {
                if j != e {
                    assert(b.enemies.alive[j] != 0);
                }
            }
            lemma_players_ok_frame(b, *s, *map);
        }
    }
}

fn enemy_tick(s: &mut State, map: &MapData, grid: &EnemyGrid, speed_mul: Fixed, e: usize)
    requires
        e < MAX_ENEMIES,
        enemy_loop_ok(*old(s), *map, grid.source()),
        grid.wf(),
        0 <= speed_mul.0 <= 0x20_0000,
    ensures
        *final(s) == enemy_one(*old(s), *map, grid.source(), speed_mul, e as int),
        enemy_loop_ok(*final(s), *map, grid.source()),
        final(s).wave == old(s).wave,
        final(s).header == old(s).header,
{
    let ghost b = *s;
    let ghost e0 = grid.source();
    if s.enemies.alive[e] == 0 {
        return;
    }
    let kind = s.enemies.kind[e];
    let stats = enemy(if kind == 0 {
        0
    } else {
        1
    });
    s.enemies.cooldown[e] = s.enemies.cooldown[e].saturating_sub(1);
    let ghost s1 = *s;
    proof {
        assert(s.enemies.cooldown =~= upd(b.enemies.cooldown, e as int, b.enemies.cooldown[e as int].saturating_sub(1)));
        assert(enemy_loop_ok(s1, *map, e0)) by {
            lemma_players_ok_frame(b, s1, *map);
        }
    }
    if s.enemies.stagger[e] > 0 {
        s.enemies.stagger[e] = s.enemies.stagger[e] - 1;
        proof {
            assert(s.enemies.stagger =~= upd(s1.enemies.stagger, e as int, (s1.enemies.stagger[e as int] - 1) as u8));
            assert(enemy_loop_ok(*s, *map, e0)) by {
                lemma_players_ok_frame(s1, *s, *map);
            }
        }
        return;
    }
    let ex = s.enemies.x[e];
    let ey = s.enemies.y[e];
    proof {
        lemma_enemy_in_map(s1, *map, e0, e as int);
        lemma_standing_in_map(s1, *map);
    }
    let near = nearest_alive_player(s, ex, ey);
    match near {
        None => {},
        Some((target, dist_sq)) => {
            let reach = stats.radius + Fixed(PLAYER_RADIUS) + Fixed(CONTACT_SLACK);
            if dist_sq <= reach.sq() {
                if s.enemies.cooldown[e] == 0 {
                    s.enemies.cooldown[e] = stats.attack_cooldown;
                    let ghost s2 = *s;
                    proof {
                        assert(s.enemies.cooldown =~= upd(s1.enemies.cooldown, e as int, stats.attack_cooldown));
                        lemma_players_ok_frame(s1, s2, *map);
                        assert(life_of(s2.players.life[target as int]) == Life::Alive) by {
                            assert(nearest_upto(s1, ex, ey, MAX_PLAYERS as nat) == Some((target as int, dist_sq as int)));
                            lemma_nearest_is_alive(s1, ex, ey, MAX_PLAYERS as nat);
                        }
                    }
                    damage_player(s, map, target, stats.damage);
                    proof {
                        assert(enemy_loop_ok(*s, *map, e0));
                    }
                }
            } else {
                proof {
                    lemma_nearest_is_alive(s1, ex, ey, MAX_PLAYERS as nat);
                }
                steer(s, map, grid, e, stats, speed_mul, target);
            }
        },
    }
}

/// The nearest player found is alive and a real slot.
proof fn lemma_nearest_is_alive(s: State, x: Fixed, y: Fixed, n: nat)
    requires
        n <= MAX_PLAYERS,
    ensures
        nearest_upto(s, x, y, n) matches Some((i, d)) ==> 0 <= i < n && life_of(s.players.life[i])
            == Life::Alive,
    decreases n,
{
    if n > 0 {
        lemma_nearest_is_alive(s, x, y, (n - 1) as nat);
    }
}

pub fn update_enemies(s: &mut State, map: &MapData, grid: &EnemyGrid)
    requires
        enemy_loop_ok(*old(s), *map, grid.source()),
        grid.wf(),
    ensures
        *final(s) == update_enemies_spec(*old(s), *map, grid.source()),
        enemy_loop_ok(*final(s), *map, grid.source()),
        final(s).wave == old(s).wave,
        final(s).header == old(s).header,
{
    let ghost s0 = *s;
    let n = if s.wave.number > 20 {
        20
    } else {
        s.wave.number as i32
    };
    let speed_mul = Fixed::one() + Fixed(WAVE_SPEEDUP).mul_int(n);
    proof {
        assert(speed_mul == speed_mul_spec(s0.wave.number));
    }
    let mut e: usize = 0;
    while e < MAX_ENEMIES
        invariant
            e <= MAX_ENEMIES,
            grid.wf(),
            speed_mul == speed_mul_spec(s0.wave.number),
            0 <= speed_mul.0 <= 0x20_0000,
            *s == enemies_upto(s0, *map, grid.source(), speed_mul, e as nat),
            enemy_loop_ok(*s, *map, grid.source()),
            s.wave == s0.wave,
            s.header == s0.header,
        decreases MAX_ENEMIES - e,
    {
        enemy_tick(s, map, grid, speed_mul, e);
        e = e + 1;
    }
}

} // verus!
