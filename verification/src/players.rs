//! Player systems of a survival step: presence, movement, weapons, firing, revives.

use crate::config::{
    weapon, weapon_spec, WeaponStats, ABSENT_FRAMES, DOWNED_SPEED, INFINITE_AMMO, MAX_PLAYERS,
    MAX_SHOTS, PLAYER_RADIUS, PLAYER_SPEED, RELOAD_FRAMES, REVIVE_FRAMES, REVIVE_HP, REVIVE_RANGE,
    WEAPON_COUNT, WEAPON_SWITCH_FRAMES,
};
use crate::fx::{fmul, fneg, len_sq_spec, Fixed, HALF_RAW, ONE_RAW};
use crate::input::{dir8, dir8_spec, dir_from_delta_spec, PlayerInput, DIAG, NEG_DIAG, NEG_ONE};
use crate::inv::{players_ok, standing};
use crate::map::MapData;
use crate::physics::{
    box_clear, fadd, fsub, lemma_clear_box_in_map, lemma_move_box_stays_clear, move_box,
    move_box_spec,
};
use crate::rng::{below_spec, output};
use crate::state::{
    emit_spec, life_of, upd, EventKind, Life, Players, Shots, State, LIFE_ALIVE, LIFE_DEAD,
    LIFE_GONE,
};
use vstd::prelude::*;

verus! {

broadcast use vstd::array::group_array_axioms;

// ---------------------------------------------------------------- presence
/// Presence bookkeeping for player `i`: a present input resets the absence counter, an absent
/// one counts up and removes the player after [`ABSENT_FRAMES`].
pub open spec fn presence_one(s: State, input: PlayerInput, i: int) -> State {
    let l = life_of(s.players.life[i]);
    if l == Life::Empty || l == Life::Gone {
        s
    } else if input.0 & PlayerInput::PRESENT != 0 {
        State { players: Players { absent: upd(s.players.absent, i, 0), ..s.players }, ..s }
    } else {
        let a = s.players.absent[i].saturating_add(1);
        let p1 = Players { absent: upd(s.players.absent, i, a), ..s.players };
        if a >= ABSENT_FRAMES {
            State { players: Players { life: upd(p1.life, i, LIFE_GONE), ..p1 }, ..s }
        } else {
            State { players: p1, ..s }
        }
    }
}

/// A seated player who stops sending input leaves after [`ABSENT_FRAMES`] frames in a row: a
/// present input clears the absence count and keeps the player; an absent one adds a frame,
/// and the player is gone exactly when the count reaches [`ABSENT_FRAMES`]. Empty and departed
/// slots are untouched, and nobody else's life changes.
pub proof fn lemma_absent_players_leave(s: State, input: PlayerInput, i: int)
    requires
        0 <= i < MAX_PLAYERS,
    ensures
        ({
            let r = presence_one(s, input, i);
            let l = life_of(s.players.life[i]);
            let seated = l != Life::Empty && l != Life::Gone;
            let a = s.players.absent[i].saturating_add(1);
            &&& !seated ==> r == s
            &&& seated && input.0 & PlayerInput::PRESENT != 0 ==> r.players.absent[i] == 0
                && r.players.life == s.players.life
            &&& seated && input.0 & PlayerInput::PRESENT == 0 ==> r.players.absent[i] == a
                && (r.players.life[i] == LIFE_GONE <==> a >= ABSENT_FRAMES)
                && (a < ABSENT_FRAMES ==> r.players.life[i] == s.players.life[i])
            &&& forall|q: int| 0 <= q < MAX_PLAYERS && q != i ==> #[trigger] r.players.life[q]
                == s.players.life[q]
        }),
{
    broadcast use vstd::array::group_array_axioms;
}

/// Presence bookkeeping for players `0..n`.
pub open spec fn presence_upto(s: State, inputs: [PlayerInput; MAX_PLAYERS], n: nat) -> State
    decreases n,
{
    if n == 0 {
        s
    } else {
        presence_one(presence_upto(s, inputs, (n - 1) as nat), inputs[n - 1], n - 1)
    }
}

pub fn update_presence(s: &mut State, inputs: [PlayerInput; MAX_PLAYERS])
    ensures
        *final(s) == presence_upto(*old(s), inputs, MAX_PLAYERS as nat),
{
    let ghost s0 = *s;
    let mut i: usize = 0;
    while i < MAX_PLAYERS
        invariant
            i <= MAX_PLAYERS,
            *s == presence_upto(s0, inputs, i as nat),
        decreases MAX_PLAYERS - i,
    {
        let ghost b = *s;
        let l = s.life(i);
        if l == Life::Empty || l == Life::Gone {
        } else if inputs[i].has(PlayerInput::PRESENT) {
            s.players.absent[i] = 0;
            proof {
                assert(s.players.absent =~= presence_one(b, inputs[i as int], i as int).players.absent);
            }
        } else {
            s.players.absent[i] = s.players.absent[i].saturating_add(1);
            if s.players.absent[i] >= ABSENT_FRAMES {
                s.players.life[i] = LIFE_GONE;
            }
            proof {
                let want = presence_one(b, inputs[i as int], i as int);
                assert(s.players.absent =~= want.players.absent);
                assert(s.players.life =~= want.players.life);
            }
        }
        i = i + 1;
    }
}

// ---------------------------------------------------------------- movement
/// Player `i` moved one frame in direction `d` at `speed`, colliding with walls.
pub open spec fn player_moved(s: State, map: MapData, i: int, d: int, speed: i32) -> State {
    let (ux, uy) = dir8_spec(d);
    let (nx, ny) = move_box_spec(
        map,
        s.players.x[i],
        s.players.y[i],
        fmul(ux, Fixed(speed)),
        fmul(uy, Fixed(speed)),
        Fixed(PLAYER_RADIUS),
    );
    State { players: Players { x: upd(s.players.x, i, nx), y: upd(s.players.y, i, ny), ..s.players }, ..s }
}

/// Moving a table direction at a tile-or-less speed is a step of at most one tile per axis.
pub proof fn lemma_dir_step_small(d: int, speed: i32)
    requires
        0 <= speed <= ONE_RAW,
    ensures
        -ONE_RAW <= fmul(dir8_spec(d).0, Fixed(speed)).0 <= ONE_RAW,
        -ONE_RAW <= fmul(dir8_spec(d).1, Fixed(speed)).0 <= ONE_RAW,
{
    let (ux, uy) = dir8_spec(d);
    assert(-65536 <= ux.0 <= 65536);
    assert(-65536 <= uy.0 <= 65536);
    assert(-65536 * 65536 <= ux.0 * speed <= 65536 * 65536) by (nonlinear_arith)
        requires
            -65536 <= ux.0 <= 65536,
            0 <= speed <= 65536,
    ;
    assert(-65536 * 65536 <= uy.0 * speed <= 65536 * 65536) by (nonlinear_arith)
        requires
            -65536 <= uy.0 <= 65536,
            0 <= speed <= 65536,
    ;
}

pub(crate) fn move_player(s: &mut State, map: &MapData, i: usize, d: u8, speed: i32)
    requires
        i < MAX_PLAYERS,
        0 <= speed <= ONE_RAW,
    ensures
        *final(s) == player_moved(*old(s), *map, i as int, d as int, speed),
        box_clear(*map, old(s).players.x[i as int], old(s).players.y[i as int], Fixed(PLAYER_RADIUS))
            ==> box_clear(
            *map,
            final(s).players.x[i as int],
            final(s).players.y[i as int],
            Fixed(PLAYER_RADIUS),
        ),
{
    let (ux, uy) = dir8(d);
    let (nx, ny) = move_box(
        map,
        s.players.x[i],
        s.players.y[i],
        ux * Fixed(speed),
        uy * Fixed(speed),
        Fixed(PLAYER_RADIUS),
    );
    proof {
        lemma_dir_step_small(d as int, speed);
        if box_clear(*map, s.players.x[i as int], s.players.y[i as int], Fixed(PLAYER_RADIUS)) {
            lemma_move_box_stays_clear(
                *map,
                s.players.x[i as int],
                s.players.y[i as int],
                fmul(ux, Fixed(speed)),
                fmul(uy, Fixed(speed)),
                Fixed(PLAYER_RADIUS),
            );
        }
    }
    let ghost b = *s;
    s.players.x[i] = nx;
    s.players.y[i] = ny;
    proof {
        let want = player_moved(b, *map, i as int, d as int, speed);
        assert(s.players.x =~= want.players.x);
        assert(s.players.y =~= want.players.y);
    }
}

// ---------------------------------------------------------------- weapons
/// The weapon reached from `w` by stepping `step` (mod 4) until an unlocked one is found,
/// trying at most `n` times (the last candidate if none is unlocked).
pub open spec fn cycle_target(w: int, unlocked: u32, step: int, n: nat) -> int
    decreases n,
{
    if n == 0 {
        w
    } else {
        let w1 = (w + step) % 4;
        if unlocked & (1u32 << (w1 as u32)) != 0 {
            w1
        } else {
            cycle_target(w1, unlocked, step, (n - 1) as nat)
        }
    }
}

/// Switch player `i` to the next unlocked weapon in direction `step`; switching costs
/// [`WEAPON_SWITCH_FRAMES`] of cooldown and abandons a reload in progress.
pub open spec fn cycle_weapon_spec(s: State, i: int, step: int) -> State {
    let w = cycle_target(s.players.weapon[i] as int, s.wave.unlocked, step, 4);
    if s.players.weapon[i] as int != w {
        let cd = if s.players.cooldown[i] >= WEAPON_SWITCH_FRAMES {
            s.players.cooldown[i]
        } else {
            WEAPON_SWITCH_FRAMES
        };
        State {
            players: Players {
                weapon: upd(s.players.weapon, i, w as u8),
                cooldown: upd(s.players.cooldown, i, cd),
                reload_timer: upd(s.players.reload_timer, i, 0),
                ..s.players
            },
            ..s
        }
    } else {
        s
    }
}

fn cycle_weapon(s: &mut State, i: usize, step: usize)
    requires
        i < MAX_PLAYERS,
        step < WEAPON_COUNT,
    ensures
        *final(s) == cycle_weapon_spec(*old(s), i as int, step as int),
{
    let ghost b = *s;
    let mut w = s.players.weapon[i] as usize;
    let mut k: usize = 0;
    let mut found = false;
    while k < WEAPON_COUNT && !found
        invariant
            k <= WEAPON_COUNT,
            step < WEAPON_COUNT,
            w < 256,
            *s == b,
            i < MAX_PLAYERS,
            found ==> w == cycle_target(b.players.weapon[i as int] as int, b.wave.unlocked, step as int, 4),
            !found ==> cycle_target(b.players.weapon[i as int] as int, b.wave.unlocked, step as int, 4)
                == cycle_target(w as int, b.wave.unlocked, step as int, (4 - k) as nat),
        decreases WEAPON_COUNT - k,
    {
        w = (w + step) % WEAPON_COUNT;
        if s.wave.unlocked & (1u32 << (w as u32)) != 0 {
            found = true;
        }
        k = k + 1;
    }
    if s.players.weapon[i] as usize != w {
        s.players.weapon[i] = w as u8;
        if s.players.cooldown[i] < WEAPON_SWITCH_FRAMES {
            s.players.cooldown[i] = WEAPON_SWITCH_FRAMES;
        }
        s.players.reload_timer[i] = 0;
        proof {
            let want = cycle_weapon_spec(b, i as int, step as int);
            assert(s.players.weapon =~= want.players.weapon);
            assert(s.players.cooldown =~= want.players.cooldown);
            assert(s.players.reload_timer =~= want.players.reload_timer);
        }
    }
}

// ---------------------------------------------------------------- firing
/// First free projectile slot at or after `j`.
pub open spec fn first_free_from(ttl: [u8; MAX_SHOTS], j: int) -> Option<int>
    decreases MAX_SHOTS - j,
{
    if j >= MAX_SHOTS || j < 0 {
        None
    } else if ttl[j] == 0 {
        Some(j)
    } else {
        first_free_from(ttl, j + 1)
    }
}

/// The weapon player `i` fires with (out-of-range values read the last table row).
pub open spec fn held_weapon(s: State, i: int) -> int {
    if s.players.weapon[i] >= 3 {
        3
    } else {
        s.players.weapon[i] as int
    }
}

/// Facing direction clamped into `1..=8`.
pub open spec fn facing_dir(s: State, i: int) -> int {
    let f = s.players.facing[i] as int;
    if f < 1 {
        1
    } else if f > 8 {
        8
    } else {
        f
    }
}

/// Pellet `k` of a shot by player `i` with weapon `w`: spawned in the first free slot (if any)
/// half a tile ahead, fanned out (shotgun) or jittered by the PRNG (smg).
pub open spec fn fire_pellet(s: State, i: int, w: int, k: int) -> State {
    let stats = weapon_spec(w);
    let (ux, uy) = dir8_spec(facing_dir(s, i));
    let px = fneg(uy);
    let py = ux;
    let pellets = stats.pellets as int;
    match first_free_from(s.shots.ttl, 0) {
        None => s,
        Some(slot) => {
            let lateral = if pellets > 1 {
                Fixed(crate::fx::clamp_i32(stats.spread.0 * (k - pellets / 2)))
            } else if stats.spread.0 != 0 {
                Fixed(
                    (-stats.spread.0 + below_spec(
                        output(s.rng@),
                        (2 * stats.spread.0 + 1) as u32,
                    )) as i32,
                )
            } else {
                Fixed(0)
            };
            let rng = if pellets <= 1 && stats.spread.0 != 0 {
                s.rng.next_state()
            } else {
                s.rng
            };
            let sh = s.shots;
            State {
                shots: Shots {
                    x: upd(sh.x, slot, fadd(s.players.x[i], fmul(ux, Fixed(HALF_RAW)))),
                    y: upd(sh.y, slot, fadd(s.players.y[i], fmul(uy, Fixed(HALF_RAW)))),
                    vx: upd(sh.vx, slot, fadd(fmul(ux, stats.speed), fmul(px, lateral))),
                    vy: upd(sh.vy, slot, fadd(fmul(uy, stats.speed), fmul(py, lateral))),
                    ttl: upd(sh.ttl, slot, stats.ttl),
                    owner: upd(sh.owner, slot, i as u8),
                    damage: upd(sh.damage, slot, stats.damage),
                    kind: upd(sh.kind, slot, w as u8),
                },
                rng,
                ..s
            }
        },
    }
}

/// A shot of a single-pellet weapon without spread (pistol, rocket) takes the first free
/// projectile slot, belongs to the shooter, carries the weapon's damage, kind and lifetime, and
/// flies the way the shooter faces; with every slot in use nothing is fired.
pub proof fn lemma_shot_flies_where_facing(s: State, i: int, w: int)
    requires
        0 <= i < MAX_PLAYERS,
        w == 0 || w == 3,
    ensures
        ({
            let r = fire_pellet(s, i, w, 0);
            match first_free_from(s.shots.ttl, 0) {
                Some(j) => {
                    &&& s.shots.ttl[j] == 0
                    &&& r.shots.owner[j] == i
                    &&& r.shots.damage[j] == weapon_spec(w).damage
                    &&& r.shots.kind[j] == w
                    &&& r.shots.ttl[j] == weapon_spec(w).ttl
                    &&& dir_from_delta_spec(r.shots.vx[j], r.shots.vy[j]) == facing_dir(s, i)
                },
                None => r == s,
            }
        }),
{
    broadcast use vstd::array::group_array_axioms;

    lemma_first_free(s.shots.ttl, 0);
    let d = facing_dir(s, i);
    let sp = weapon_spec(w).speed;
    let (ux, uy) = dir8_spec(d);
    let a = fneg(uy).0;
    let b = ux.0;
    assert(a * 0 == 0 && b * 0 == 0) by (nonlinear_arith);
    assert(fmul(fneg(uy), Fixed(0)) == Fixed(0));
    assert(fmul(ux, Fixed(0)) == Fixed(0));
    if w == 0 {
        assert(sp.0 == 39321);
    } else {
        assert(sp.0 == 29491);
    }
    assert(fmul(Fixed(65536), sp) == sp);
    assert(fmul(Fixed(NEG_ONE), sp).0 == -sp.0);
    assert(fmul(Fixed(0), sp).0 == 0);
    let pd = fmul(Fixed(DIAG), sp).0;
    let nd = fmul(Fixed(NEG_DIAG), sp).0;
    assert(pd > 0 && nd < 0 && (pd == -nd || pd == -nd - 1));
}

proof fn lemma_first_free(ttl: [u8; MAX_SHOTS], j: int)
    requires
        0 <= j,
    ensures
        first_free_from(ttl, j) matches Some(k) ==> j <= k < MAX_SHOTS && ttl[k] == 0,
    decreases MAX_SHOTS - j,
{
    if j < MAX_SHOTS && ttl[j] != 0 {
        lemma_first_free(ttl, j + 1);
    }
}

/// Pellets `0..n` of a shot.
pub open spec fn fire_pellets(s: State, i: int, w: int, n: nat) -> State
    decreases n,
{
    if n == 0 {
        s
    } else {
        fire_pellet(fire_pellets(s, i, w, (n - 1) as nat), i, w, n - 1)
    }
}

/// Firing pellets only touches projectiles and the PRNG.
pub broadcast proof fn lemma_fire_pellets_frame(s: State, i: int, w: int, n: nat)
    ensures
        #[trigger] fire_pellets(s, i, w, n).players == s.players,
        fire_pellets(s, i, w, n).header == s.header,
        fire_pellets(s, i, w, n).wave == s.wave,
        fire_pellets(s, i, w, n).enemies == s.enemies,
        fire_pellets(s, i, w, n).flow == s.flow,
        fire_pellets(s, i, w, n).events == s.events,
        fire_pellets(s, i, w, n).hide_seek == s.hide_seek,
    decreases n,
{
    if n > 0 {
        lemma_fire_pellets_frame(s, i, w, (n - 1) as nat);
    }
}

/// Player `i` fires its weapon: pellets, cooldown, and a `Fire` event.
pub open spec fn fire_spec(s: State, i: int) -> State {
    let w = held_weapon(s, i);
    let stats = weapon_spec(w);
    let s1 = fire_pellets(s, i, w, stats.pellets as nat);
    let s2 = State {
        players: Players { cooldown: upd(s1.players.cooldown, i, stats.cooldown), ..s1.players },
        ..s1
    };
    emit_spec(s2, EventKind::Fire, w as u8, s.players.x[i], s.players.y[i])
}

fn first_free(ttl: &[u8; MAX_SHOTS]) -> (r: Option<usize>)
    ensures
        r matches Some(j) ==> first_free_from(*ttl, 0) == Some(j as int) && j < MAX_SHOTS,
        r is None ==> first_free_from(*ttl, 0) is None,
{
    let mut j: usize = 0;
    while j < MAX_SHOTS
        invariant
            j <= MAX_SHOTS,
            first_free_from(*ttl, 0) == first_free_from(*ttl, j as int),
        decreases MAX_SHOTS - j,
    {
        if ttl[j] == 0 {
            return Some(j);
        }
        j = j + 1;
    }
    None
}

fn fire_one_pellet(s: &mut State, i: usize, w: usize, stats: WeaponStats, k: i32)
    requires
        i < MAX_PLAYERS,
        w < WEAPON_COUNT,
        stats == weapon_spec(w as int),
        0 <= k < 8,
    ensures
        *final(s) == fire_pellet(*old(s), i as int, w as int, k as int),
{
    let ghost b = *s;
    let f = s.players.facing[i];
    let facing = if f < 1 {
        1
    } else if f > 8 {
        8
    } else {
        f
    };
    let (ux, uy) = dir8(facing);
    let px = Fixed(0) - uy;
    let py = ux;
    let pellets = stats.pellets as i32;
    if let Some(slot) = first_free(&s.shots.ttl) {
        let lateral = if pellets > 1 {
            stats.spread.mul_int(k - pellets / 2)
        } else if stats.spread.0 != 0 {
            Fixed(s.rng.range_i32(-stats.spread.0, stats.spread.0))
        } else {
            Fixed(0)
        };
        let sx = s.players.x[i] + ux * Fixed(HALF_RAW);
        let sy = s.players.y[i] + uy * Fixed(HALF_RAW);
        let vx = ux * stats.speed + px * lateral;
        let vy = uy * stats.speed + py * lateral;
        s.shots.x[slot] = sx;
        s.shots.y[slot] = sy;
        s.shots.vx[slot] = vx;
        s.shots.vy[slot] = vy;
        s.shots.ttl[slot] = stats.ttl;
        s.shots.owner[slot] = i as u8;
        s.shots.damage[slot] = stats.damage;
        s.shots.kind[slot] = w as u8;
        proof {
            let want = fire_pellet(b, i as int, w as int, k as int);
            assert(s.shots.x =~= want.shots.x);
            assert(s.shots.y =~= want.shots.y);
            assert(s.shots.vx =~= want.shots.vx);
            assert(s.shots.vy =~= want.shots.vy);
            assert(s.shots.ttl =~= want.shots.ttl);
            assert(s.shots.owner =~= want.shots.owner);
            assert(s.shots.damage =~= want.shots.damage);
            assert(s.shots.kind =~= want.shots.kind);
        }
    }
}

fn fire(s: &mut State, i: usize)
    requires
        i < MAX_PLAYERS,
    ensures
        *final(s) == fire_spec(*old(s), i as int),
{
    let ghost b = *s;
    let w0 = s.players.weapon[i] as usize;
    let w = if w0 >= WEAPON_COUNT - 1 {
        WEAPON_COUNT - 1
    } else {
        w0
    };
    let stats = weapon(w);
    let pellets = stats.pellets as i32;
    let mut k: i32 = 0;
    while k < pellets
        invariant
            0 <= k <= pellets,
            pellets == stats.pellets,
            pellets <= 5,
            i < MAX_PLAYERS,
            w < WEAPON_COUNT,
            w == held_weapon(b, i as int),
            stats == weapon_spec(w as int),
            *s == fire_pellets(b, i as int, w as int, k as nat),
            s.players == b.players,
            s.header == b.header,
        decreases pellets - k,
    {
        fire_one_pellet(s, i, w, stats, k);
        k = k + 1;
    }
    s.players.cooldown[i] = stats.cooldown;
    let ghost s2 = *s;
    let x = s.players.x[i];
    let y = s.players.y[i];
    s.emit(EventKind::Fire, w as u8, x, y);
    proof {
        let s1 = fire_pellets(b, i as int, w as int, stats.pellets as nat);
        assert(s2.players.cooldown =~= upd(s1.players.cooldown, i as int, stats.cooldown));
    }
}

// ---------------------------------------------------------------- ammo and reload
/// Player `i` with weapon `w`'s round count set to `v`.
pub open spec fn set_ammo(s: State, i: int, w: int, v: u16) -> State {
    State {
        players: Players {
            ammo: upd(s.players.ammo, i, upd(s.players.ammo[i], w, v)),
            ..s.players
        },
        ..s
    }
}

/// Player `i` with its reload countdown set to `t`.
pub open spec fn set_reload(s: State, i: int, t: u16) -> State {
    State { players: Players { reload_timer: upd(s.players.reload_timer, i, t), ..s.players }, ..s }
}

/// A reload in progress counts down; on its last frame the held weapon is refilled to its
/// capacity.
pub open spec fn reload_tick(s: State, i: int) -> State {
    let t = s.players.reload_timer[i];
    if t == 0 {
        s
    } else if t == 1 {
        let w = held_weapon(s, i);
        set_ammo(set_reload(s, i, 0), i, w, weapon_spec(w).max_ammo)
    } else {
        set_reload(s, i, (t - 1) as u16)
    }
}

/// The trigger of player `i`. While reloading nothing happens. Otherwise a rising edge of
/// `RELOAD` starts a reload of a finite weapon that is not full; holding `FIRE` with an empty
/// finite weapon starts one too; else holding `FIRE` shoots once the cooldown is over, spending a
/// round of a finite weapon. A weapon with [`INFINITE_AMMO`] never reloads.
pub open spec fn trigger_spec(s: State, i: int, input: PlayerInput, prev: PlayerInput) -> State {
    let w = held_weapon(s, i);
    let cap = weapon_spec(w).max_ammo;
    let rounds = s.players.ammo[i][w];
    let finite = cap != INFINITE_AMMO;
    if s.players.reload_timer[i] != 0 {
        s
    } else if input.0 & PlayerInput::RELOAD != 0 && prev.0 & PlayerInput::RELOAD == 0 && finite
        && rounds < cap {
        set_reload(s, i, RELOAD_FRAMES)
    } else if input.0 & PlayerInput::FIRE != 0 {
        if finite && rounds == 0 {
            set_reload(s, i, RELOAD_FRAMES)
        } else if s.players.cooldown[i] == 0 {
            let s1 = fire_spec(s, i);
            if finite {
                set_ammo(s1, i, w, (rounds - 1) as u16)
            } else {
                s1
            }
        } else {
            s
        }
    } else {
        s
    }
}

/// The trigger spends and reloads ammo as a magazine does. While a reload runs nothing
/// happens. Otherwise a shot with a finite weapon that has rounds left (cooldown over, no
/// reload requested) spends exactly one round of the held weapon, leaves every other weapon's
/// rounds alone, and restarts the weapon's cooldown; firing an empty finite weapon starts a
/// reload of [`RELOAD_FRAMES`]; a weapon with [`INFINITE_AMMO`] never changes its rounds.
pub proof fn lemma_trigger_ammo(s: State, i: int, input: PlayerInput, prev: PlayerInput)
    requires
        0 <= i < MAX_PLAYERS,
    ensures
        ({
            let w = held_weapon(s, i);
            let cap = weapon_spec(w).max_ammo;
            let rounds = s.players.ammo[i][w];
            let r = trigger_spec(s, i, input, prev);
            let asks_reload = input.0 & PlayerInput::RELOAD != 0 && prev.0 & PlayerInput::RELOAD
                == 0;
            let fires = input.0 & PlayerInput::FIRE != 0;
            &&& s.players.reload_timer[i] != 0 ==> r == s
            &&& (s.players.reload_timer[i] == 0 && fires && cap != INFINITE_AMMO && rounds > 0
                && s.players.cooldown[i] == 0 && !(asks_reload && rounds < cap)) ==> {
                &&& r.players.ammo[i][w] == rounds - 1
                &&& forall|v: int| 0 <= v < WEAPON_COUNT && v != w ==> #[trigger] r.players.ammo[i][v]
                    == s.players.ammo[i][v]
                &&& r.players.cooldown[i] == weapon_spec(w).cooldown
                &&& r.players.reload_timer[i] == 0
            }
            &&& (s.players.reload_timer[i] == 0 && fires && cap != INFINITE_AMMO && rounds == 0)
                ==> r.players.reload_timer[i] == RELOAD_FRAMES && r.players.ammo == s.players.ammo
            &&& cap == INFINITE_AMMO ==> r.players.ammo == s.players.ammo
                && r.players.reload_timer[i] == s.players.reload_timer[i]
        }),
{
    broadcast use vstd::array::group_array_axioms;

    let w = held_weapon(s, i);
    lemma_fire_pellets_frame(s, i, w, weapon_spec(w).pellets as nat);
}

/// A reload completes on its last frame: the countdown drops by one each frame, and when it
/// runs out the held weapon is refilled to its capacity; no other weapon's rounds change.
pub proof fn lemma_reload_refills(s: State, i: int)
    requires
        0 <= i < MAX_PLAYERS,
    ensures
        ({
            let w = held_weapon(s, i);
            let t = s.players.reload_timer[i];
            let r = reload_tick(s, i);
            &&& t == 0 ==> r == s
            &&& t > 0 ==> r.players.reload_timer[i] == t - 1
            &&& t == 1 ==> r.players.ammo[i][w] == weapon_spec(w).max_ammo
            &&& t > 1 ==> r.players.ammo == s.players.ammo
            &&& forall|v: int| 0 <= v < WEAPON_COUNT && v != w ==> #[trigger] r.players.ammo[i][v]
                == s.players.ammo[i][v]
        }),
{
    broadcast use vstd::array::group_array_axioms;
}

/// A weapon with [`INFINITE_AMMO`] never reloads: a player not reloading who holds such a
/// weapon at the end of a frame did not start a reload during it, whatever the input.
pub proof fn lemma_infinite_weapon_never_reloads(s: State, map: MapData, input: PlayerInput, i: int)
    requires
        0 <= i < MAX_PLAYERS,
        s.players.reload_timer[i] == 0,
        weapon_spec(held_weapon(player_one(s, map, input, i), i)).max_ammo == INFINITE_AMMO,
    ensures
        player_one(s, map, input, i).players.reload_timer[i] == 0,
{
    let prev = PlayerInput(s.players.prev_input[i]);
    let s1 = State {
        players: Players {
            hurt_flash: upd(s.players.hurt_flash, i, s.players.hurt_flash[i].saturating_sub(1)),
            cooldown: upd(s.players.cooldown, i, s.players.cooldown[i].saturating_sub(1)),
            ..s.players
        },
        ..s
    };
    if life_of(s1.players.life[i]) == Life::Alive {
        let d = (input.0 & 0x000F) as int;
        let sr = reload_tick(s1, i);
        assert(sr == s1);
        let s2 = if d != 0 && input.0 & PlayerInput::STRAFE == 0 {
            State { players: Players { facing: upd(sr.players.facing, i, d as u8), ..sr.players }, ..sr }
        } else {
            sr
        };
        let s3 = player_moved(s2, map, i, d, PLAYER_SPEED);
        let s4 = if input.0 & PlayerInput::WEAPON_NEXT != 0 && prev.0 & PlayerInput::WEAPON_NEXT
            == 0 {
            cycle_weapon_spec(s3, i, 1)
        } else if input.0 & PlayerInput::WEAPON_PREV != 0 && prev.0 & PlayerInput::WEAPON_PREV
            == 0 {
            cycle_weapon_spec(s3, i, 3)
        } else {
            s3
        };
        assert(s4.players.reload_timer[i] == 0);
        let w = held_weapon(s4, i);
        lemma_fire_pellets_frame(s4, i, w, weapon_spec(w).pellets as nat);
        let t = trigger_spec(s4, i, input, prev);
        assert(t.players.weapon == s4.players.weapon);
        assert(player_one(s, map, input, i) == t);
    }
}

fn held(s: &State, i: usize) -> (w: usize)
    requires
        i < MAX_PLAYERS,
    ensures
        w == held_weapon(*s, i as int),
        w < WEAPON_COUNT,
{
    let w0 = s.players.weapon[i] as usize;
    if w0 >= WEAPON_COUNT - 1 {
        WEAPON_COUNT - 1
    } else {
        w0
    }
}

fn store_ammo(s: &mut State, i: usize, w: usize, v: u16)
    requires
        i < MAX_PLAYERS,
        w < WEAPON_COUNT,
    ensures
        *final(s) == set_ammo(*old(s), i as int, w as int, v),
{
    let ghost b = *s;
    let mut row = s.players.ammo[i];
    row[w] = v;
    s.players.ammo[i] = row;
    proof {
        assert(row =~= upd(b.players.ammo[i as int], w as int, v));
        assert(s.players.ammo =~= upd(b.players.ammo, i as int, row));
    }
}

fn tick_reload(s: &mut State, i: usize)
    requires
        i < MAX_PLAYERS,
    ensures
        *final(s) == reload_tick(*old(s), i as int),
{
    let ghost b = *s;
    let t = s.players.reload_timer[i];
    if t == 0 {
        return;
    }
    s.players.reload_timer[i] = t - 1;
    proof {
        assert(s.players.reload_timer =~= upd(b.players.reload_timer, i as int, (t - 1) as u16));
    }
    if t == 1 {
        let w = held(s, i);
        let cap = weapon(w).max_ammo;
        store_ammo(s, i, w, cap);
    }
}

fn pull_trigger(s: &mut State, i: usize, input: PlayerInput, prev: PlayerInput)
    requires
        i < MAX_PLAYERS,
    ensures
        *final(s) == trigger_spec(*old(s), i as int, input, prev),
        final(s).players.x == old(s).players.x,
        final(s).players.y == old(s).players.y,
        final(s).players.life == old(s).players.life,
        final(s).players.hp == old(s).players.hp,
        final(s).players.revive == old(s).players.revive,
        final(s).header == old(s).header,
{
    let ghost b = *s;
    if s.players.reload_timer[i] != 0 {
        return;
    }
    let w = held(s, i);
    let cap = weapon(w).max_ammo;
    let rounds = s.players.ammo[i][w];
    let finite = cap != INFINITE_AMMO;
    if input.pressed(prev, PlayerInput::RELOAD) && finite && rounds < cap {
        s.players.reload_timer[i] = RELOAD_FRAMES;
        proof {
            assert(s.players.reload_timer =~= upd(b.players.reload_timer, i as int, RELOAD_FRAMES));
        }
    } else if input.has(PlayerInput::FIRE) {
        if finite && rounds == 0 {
            s.players.reload_timer[i] = RELOAD_FRAMES;
            proof {
                assert(s.players.reload_timer =~= upd(b.players.reload_timer, i as int, RELOAD_FRAMES));
            }
        } else if s.players.cooldown[i] == 0 {
            fire(s, i);
            proof {
                lemma_fire_pellets_frame(b, i as int, w as int, weapon_spec(w as int).pellets as nat);
            }
            if finite {
                store_ammo(s, i, w, rounds - 1);
            }
        }
    }
}

// ---------------------------------------------------------------- update_players
/// One frame of player `i`: timers tick down; an alive player advances its reload, turns,
/// moves, switches weapon on a rising edge and pulls the trigger; a downed one crawls and bleeds
/// out.
pub open spec fn player_one(s: State, map: MapData, input: PlayerInput, i: int) -> State {
    let prev = PlayerInput(s.players.prev_input[i]);
    let s1 = State {
        players: Players {
            hurt_flash: upd(s.players.hurt_flash, i, s.players.hurt_flash[i].saturating_sub(1)),
            cooldown: upd(s.players.cooldown, i, s.players.cooldown[i].saturating_sub(1)),
            ..s.players
        },
        ..s
    };
    let l = life_of(s1.players.life[i]);
    if l == Life::Alive {
        let d = (input.0 & 0x000F) as int;
        let sr = reload_tick(s1, i);
        let s2 = if d != 0 && input.0 & PlayerInput::STRAFE == 0 {
            State { players: Players { facing: upd(sr.players.facing, i, d as u8), ..sr.players }, ..sr }
        } else {
            sr
        };
        let s3 = player_moved(s2, map, i, d, PLAYER_SPEED);
        let s4 = if input.0 & PlayerInput::WEAPON_NEXT != 0 && prev.0 & PlayerInput::WEAPON_NEXT
            == 0 {
            cycle_weapon_spec(s3, i, 1)
        } else if input.0 & PlayerInput::WEAPON_PREV != 0 && prev.0 & PlayerInput::WEAPON_PREV
            == 0 {
            cycle_weapon_spec(s3, i, 3)
        } else {
            s3
        };
        trigger_spec(s4, i, input, prev)
    } else if l == Life::Downed {
        let s2 = player_moved(s1, map, i, (input.0 & 0x000F) as int, DOWNED_SPEED);
        let t = s2.players.down_timer[i].saturating_sub(1);
        let p2 = Players { down_timer: upd(s2.players.down_timer, i, t), ..s2.players };
        if t == 0 {
            State { players: Players { life: upd(p2.life, i, LIFE_DEAD), ..p2 }, ..s2 }
        } else {
            State { players: p2, ..s2 }
        }
    } else {
        s1
    }
}

/// Players `0..n` updated in slot order.
pub open spec fn players_upto(s: State, map: MapData, inputs: [PlayerInput; MAX_PLAYERS], n: nat) -> State
    decreases n,
{
    if n == 0 {
        s
    } else {
        player_one(players_upto(s, map, inputs, (n - 1) as nat), map, inputs[n - 1], n - 1)
    }
}

fn update_player(s: &mut State, map: &MapData, input: PlayerInput, i: usize)
    requires
        i < MAX_PLAYERS,
        players_ok(*old(s), *map),
    ensures
        *final(s) == player_one(*old(s), *map, input, i as int),
        players_ok(*final(s), *map),
{
    let ghost b = *s;
    let prev = PlayerInput(s.players.prev_input[i]);
    s.players.hurt_flash[i] = s.players.hurt_flash[i].saturating_sub(1);
    s.players.cooldown[i] = s.players.cooldown[i].saturating_sub(1);
    let ghost s1 = *s;
    proof {
        let want = player_one(b, *map, input, i as int);
        assert(s.players.hurt_flash =~= upd(b.players.hurt_flash, i as int, b.players.hurt_flash[i as int].saturating_sub(1)));
        assert(s.players.cooldown =~= upd(b.players.cooldown, i as int, b.players.cooldown[i as int].saturating_sub(1)));
        assert(players_ok(s1, *map)) by {
            assert forall|j: int| 0 <= j < MAX_PLAYERS implies #[trigger] standing(s1, j) == standing(b, j) by {}
        }
    }
    let l = s.life(i);
    if l == Life::Alive {
        let d = input.dir();
        tick_reload(s, i);
        let ghost sr = *s;
        if d != 0 && !input.has(PlayerInput::STRAFE) {
            s.players.facing[i] = d;
            proof {
                assert(s.players.facing =~= upd(sr.players.facing, i as int, d));
            }
        }
        let ghost s2 = *s;
        proof {
            assert(players_ok(s2, *map)) by {
                assert forall|j: int| 0 <= j < MAX_PLAYERS implies #[trigger] standing(s2, j) == standing(s1, j) by {}
            }
        }
        move_player(s, map, i, d, PLAYER_SPEED);
        proof {
            assert(players_ok(*s, *map)) by {
                assert forall|j: int| 0 <= j < MAX_PLAYERS && #[trigger] standing(*s, j) implies box_clear(*map, s.players.x[j], s.players.y[j], Fixed(PLAYER_RADIUS)) by {
                    assert(standing(s2, j));
                }
            }
        }
        let ghost s3 = *s;
        if input.pressed(prev, PlayerInput::WEAPON_NEXT) {
            cycle_weapon(s, i, 1);
        } else if input.pressed(prev, PlayerInput::WEAPON_PREV) {
            cycle_weapon(s, i, WEAPON_COUNT - 1);
        }
        proof {
            assert(players_ok(*s, *map)) by {
                assert forall|j: int| 0 <= j < MAX_PLAYERS implies #[trigger] standing(*s, j) == standing(s3, j) by {}
            }
        }
        let ghost s4 = *s;
        pull_trigger(s, i, input, prev);
        proof {
            assert(players_ok(*s, *map)) by {
                assert forall|j: int| 0 <= j < MAX_PLAYERS implies #[trigger] standing(*s, j) == standing(s4, j) by {}
            }
        }
    } else if l == Life::Downed {
        let d = input.dir();
        move_player(s, map, i, d, DOWNED_SPEED);
        let ghost s2 = *s;
        s.players.down_timer[i] = s.players.down_timer[i].saturating_sub(1);
        if s.players.down_timer[i] == 0 {
            s.players.life[i] = LIFE_DEAD;
        }
        proof {
            let t = s2.players.down_timer[i as int].saturating_sub(1);
            assert(s.players.down_timer =~= upd(s2.players.down_timer, i as int, t));
            if t == 0 {
                assert(s.players.life =~= upd(s2.players.life, i as int, LIFE_DEAD));
            }
            assert(players_ok(*s, *map)) by {
                assert forall|j: int| 0 <= j < MAX_PLAYERS && #[trigger] standing(*s, j) implies box_clear(*map, s.players.x[j], s.players.y[j], Fixed(PLAYER_RADIUS)) by {
                    assert(standing(s1, j));
                }
            }
        }
    }
}

pub fn update_players(s: &mut State, map: &MapData, inputs: [PlayerInput; MAX_PLAYERS])
    requires
        players_ok(*old(s), *map),
    ensures
        *final(s) == players_upto(*old(s), *map, inputs, MAX_PLAYERS as nat),
        players_ok(*final(s), *map),
{
    let ghost s0 = *s;
    let mut i: usize = 0;
    while i < MAX_PLAYERS
        invariant
            i <= MAX_PLAYERS,
            *s == players_upto(s0, *map, inputs, i as nat),
            players_ok(*s, *map),
        decreases MAX_PLAYERS - i,
    {
        update_player(s, map, inputs[i], i);
        i = i + 1;
    }
}

// ---------------------------------------------------------------- revives
/// Whether an alive teammate of downed player `d` stands within [`REVIVE_RANGE`].
pub open spec fn revive_helped(s: State, d: int) -> bool {
    exists|h: int|
        0 <= h < MAX_PLAYERS && h != d && life_of(s.players.life[h]) == Life::Alive && len_sq_spec(
            fsub(s.players.x[h], s.players.x[d]),
            fsub(s.players.y[h], s.players.y[d]),
        ) <= REVIVE_RANGE * REVIVE_RANGE
}

/// First alive player other than `d`, searching from `h`.
pub open spec fn first_alive_other(s: State, d: int, h: int) -> Option<int>
    decreases MAX_PLAYERS - h,
{
    if h >= MAX_PLAYERS || h < 0 {
        None
    } else if h != d && life_of(s.players.life[h]) == Life::Alive {
        Some(h)
    } else {
        first_alive_other(s, d, h + 1)
    }
}

/// Revive progress of player `d`: a downed player with a teammate in range gains a frame of
/// progress and is revived after [`REVIVE_FRAMES`] (credited to the first alive teammate);
/// without help the progress resets.
pub open spec fn revive_one(s: State, d: int) -> State {
    if life_of(s.players.life[d]) != Life::Downed {
        s
    } else if revive_helped(s, d) {
        let r = (s.players.revive[d] + 1) as u16;
        if r >= REVIVE_FRAMES {
            let s1 = State {
                players: Players {
                    life: upd(s.players.life, d, LIFE_ALIVE),
                    hp: upd(s.players.hp, d, REVIVE_HP),
                    revive: upd(s.players.revive, d, 0),
                    ..s.players
                },
                ..s
            };
            let s2 = match first_alive_other(s1, d, 0) {
                Some(h) => State {
                    players: Players {
                        revives_done: upd(
                            s1.players.revives_done,
                            h,
                            s1.players.revives_done[h].saturating_add(1),
                        ),
                        ..s1.players
                    },
                    ..s1
                },
                None => s1,
            };
            emit_spec(s2, EventKind::Revive, d as u8, s.players.x[d], s.players.y[d])
        } else {
            State { players: Players { revive: upd(s.players.revive, d, r), ..s.players }, ..s }
        }
    } else {
        State { players: Players { revive: upd(s.players.revive, d, 0), ..s.players }, ..s }
    }
}

/// Reviving takes an unbroken helping hand: a downed player with a helper nearby gains one
/// frame of revive progress, and on reaching [`REVIVE_FRAMES`] stands up alive with
/// [`REVIVE_HP`] and its progress cleared; without a helper its progress drops to zero. Players
/// who are not downed are left alone, and no other player's life or HP changes.
pub proof fn lemma_revive_progress(s: State, d: int)
    requires
        0 <= d < MAX_PLAYERS,
        s.players.revive[d] < REVIVE_FRAMES,
    ensures
        ({
            let r = revive_one(s, d);
            let downed = life_of(s.players.life[d]) == Life::Downed;
            &&& !downed ==> r == s
            &&& downed && !revive_helped(s, d) ==> r.players.revive[d] == 0
                && r.players.life == s.players.life && r.players.hp == s.players.hp
            &&& downed && revive_helped(s, d) && s.players.revive[d] + 1 < REVIVE_FRAMES
                ==> r.players.revive[d] == s.players.revive[d] + 1 && r.players.life
                == s.players.life && r.players.hp == s.players.hp
            &&& downed && revive_helped(s, d) && s.players.revive[d] + 1 >= REVIVE_FRAMES ==> {
                &&& r.players.life[d] == LIFE_ALIVE
                &&& r.players.hp[d] == REVIVE_HP
                &&& r.players.revive[d] == 0
            }
            &&& forall|q: int| 0 <= q < MAX_PLAYERS && q != d ==> #[trigger] r.players.hp[q]
                == s.players.hp[q] && r.players.life[q] == s.players.life[q]
        }),
{
    broadcast use vstd::array::group_array_axioms;
}

/// Revives for players `0..n` in slot order.
pub open spec fn revives_upto(s: State, n: nat) -> State
    decreases n,
{
    if n == 0 {
        s
    } else {
        revive_one(revives_upto(s, (n - 1) as nat), n - 1)
    }
}

fn revive_check(s: &State, d: usize) -> (r: bool)
    requires
        d < MAX_PLAYERS,
        life_of(s.players.life[d as int]) == Life::Downed,
        forall|j: int|
            0 <= j < MAX_PLAYERS && #[trigger] standing(*s, j) ==> {
                &&& 0 <= s.players.x[j].0 <= 0x100_0000
                &&& 0 <= s.players.y[j].0 <= 0x100_0000
            },
    ensures
        r == revive_helped(*s, d as int),
{
    let mut h: usize = 0;
    while h < MAX_PLAYERS
        invariant
            h <= MAX_PLAYERS,
            d < MAX_PLAYERS,
            life_of(s.players.life[d as int]) == Life::Downed,
            forall|j: int|
                0 <= j < MAX_PLAYERS && #[trigger] standing(*s, j) ==> {
                    &&& 0 <= s.players.x[j].0 <= 0x100_0000
                    &&& 0 <= s.players.y[j].0 <= 0x100_0000
                },
            forall|k: int|
                0 <= k < h ==> !(k != d && life_of(s.players.life[k]) == Life::Alive && len_sq_spec(
                    fsub(s.players.x[k], s.players.x[d as int]),
                    fsub(s.players.y[k], s.players.y[d as int]),
                ) <= REVIVE_RANGE * REVIVE_RANGE),
        decreases MAX_PLAYERS - h,
    {
        if h != d && s.life(h) == Life::Alive {
            proof {
                assert(standing(*s, h as int));
                assert(standing(*s, d as int));
            }
            let dx = s.players.x[h] - s.players.x[d];
            let dy = s.players.y[h] - s.players.y[d];
            proof {
                crate::inv::lemma_len_sq_small(dx, dy);
            }
            if Fixed::len_sq(dx, dy) <= Fixed(REVIVE_RANGE).sq() {
                return true;
            }
        }
        h = h + 1;
    }
    false
}

fn first_alive_other_exec(s: &State, d: usize) -> (r: Option<usize>)
    requires
        d < MAX_PLAYERS,
    ensures
        r matches Some(h) ==> first_alive_other(*s, d as int, 0) == Some(h as int) && h < MAX_PLAYERS,
        r is None ==> first_alive_other(*s, d as int, 0) is None,
{
    let mut h: usize = 0;
    while h < MAX_PLAYERS
        invariant
            h <= MAX_PLAYERS,
            first_alive_other(*s, d as int, 0) == first_alive_other(*s, d as int, h as int),
        decreases MAX_PLAYERS - h,
    {
        if h != d && s.life(h) == Life::Alive {
            return Some(h);
        }
        h = h + 1;
    }
    None
}

/// Standing players' coordinates are small (they are inside the map).
pub proof fn lemma_standing_in_map(s: State, map: MapData)
    requires
        players_ok(s, map),
    ensures
        forall|j: int|
            0 <= j < MAX_PLAYERS && #[trigger] standing(s, j) ==> {
                &&& 0 <= s.players.x[j].0 <= 0x100_0000
                &&& 0 <= s.players.y[j].0 <= 0x100_0000
            },
{
    assert forall|j: int| 0 <= j < MAX_PLAYERS && #[trigger] standing(s, j) implies {
        &&& 0 <= s.players.x[j].0 <= 0x100_0000
        &&& 0 <= s.players.y[j].0 <= 0x100_0000
    } by {
        lemma_clear_box_in_map(map, s.players.x[j], s.players.y[j], Fixed(PLAYER_RADIUS));
    }
}

fn revive_player(s: &mut State, map: &MapData, d: usize)
    requires
        d < MAX_PLAYERS,
        players_ok(*old(s), *map),
    ensures
        *final(s) == revive_one(*old(s), d as int),
        players_ok(*final(s), *map),
{
    let ghost b = *s;
    if s.life(d) != Life::Downed {
        return;
    }
    proof {
        lemma_standing_in_map(b, *map);
    }
    if revive_check(s, d) {
        let r = s.players.revive[d] + 1;
        if r >= REVIVE_FRAMES {
            s.players.life[d] = LIFE_ALIVE;
            s.players.hp[d] = REVIVE_HP;
            s.players.revive[d] = 0;
            let ghost s1 = *s;
            proof {
                let want = revive_one(b, d as int);
                assert(s.players.life =~= upd(b.players.life, d as int, LIFE_ALIVE));
                assert(s.players.hp =~= upd(b.players.hp, d as int, REVIVE_HP));
                assert(s.players.revive =~= upd(b.players.revive, d as int, 0));
            }
            if let Some(h) = first_alive_other_exec(s, d) {
                s.players.revives_done[h] = s.players.revives_done[h].saturating_add(1);
                proof {
                    assert(s.players.revives_done =~= upd(
                        s1.players.revives_done,
                        h as int,
                        s1.players.revives_done[h as int].saturating_add(1),
                    ));
                }
            }
            let x = s.players.x[d];
            let y = s.players.y[d];
            s.emit(EventKind::Revive, d as u8, x, y);
            proof {
                assert(players_ok(*s, *map)) by {
                    assert forall|j: int| 0 <= j < MAX_PLAYERS implies #[trigger] standing(*s, j)
                        == standing(b, j) by {}
                }
            }
        } else {
            s.players.revive[d] = r;
            proof {
                assert(s.players.revive =~= upd(b.players.revive, d as int, r));
                crate::inv::lemma_players_ok_frame(b, *s, *map);
            }
        }
    } else {
        s.players.revive[d] = 0;
        proof {
            assert(s.players.revive =~= upd(b.players.revive, d as int, 0));
            crate::inv::lemma_players_ok_frame(b, *s, *map);
        }
    }
}

pub fn update_revives(s: &mut State, map: &MapData)
    requires
        players_ok(*old(s), *map),
    ensures
        *final(s) == revives_upto(*old(s), MAX_PLAYERS as nat),
        players_ok(*final(s), *map),
{
    let ghost s0 = *s;
    let mut d: usize = 0;
    while d < MAX_PLAYERS
        invariant
            d <= MAX_PLAYERS,
            *s == revives_upto(s0, d as nat),
            players_ok(*s, *map),
        decreases MAX_PLAYERS - d,
    {
        revive_player(s, map, d);
        d = d + 1;
    }
}

} // verus!
