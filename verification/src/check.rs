//! Run-time check of the state invariant, for states that come from outside the library
//! (a rollback snapshot, a test fixture).

use crate::config::{enemy, MAX_ENEMIES, MAX_PLAYERS, PLAYER_RADIUS, REVIVE_FRAMES, TILES};
use crate::fx::{floor_frac, Fixed};
use crate::inv::{
    alive_count, enemies_ok, enemy_radius, flow_ok, players_ok, standing, state_ok, COUNT_SLACK,
    MAX_WAVE,
};
use crate::map::MapData;
use crate::physics::{box_clear, col_blocked, col_has_solid};
use crate::state::{Life, State};
use vstd::prelude::*;

verus! {

/// `floor(v / 2^16)`.
fn floor_tile(v: i64) -> (r: i64)
    requires
        -0x1_0000_0000 <= v <= 0x1_0000_0000,
    ensures
        r == floor_frac(v as int),
        -0x1_0000 <= r <= 0x1_0000,
{
    if v >= 0 {
        v / 65536
    } else {
        let q = (65535 - v) / 65536;
        proof {
            assert(q * 65536 <= 65535 - v < q * 65536 + 65536);
        }
        -q
    }
}

/// Whether the box of half-size `r` at `(x, y)` overlaps no wall.
fn box_is_clear(map: &MapData, x: Fixed, y: Fixed, r: Fixed) -> (ok: bool)
    requires
        0 <= r.0 < 65536,
    ensures
        ok == box_clear(*map, x, y, r),
{
    let left = floor_tile(x.0 as i64 - r.0 as i64);
    let right = floor_tile(x.0 as i64 + r.0 as i64 - 1);
    let top = floor_tile(y.0 as i64 - r.0 as i64);
    let bottom = floor_tile(y.0 as i64 + r.0 as i64 - 1);
    let top32 = top as i32;
    let bottom32 = bottom as i32;
    let mut tx = left;
    while tx <= right
        invariant
            left <= tx <= right + 1,
            -0x1_0000 <= left,
            right <= 0x1_0000,
            left == floor_frac(x.0 - r.0),
            right == floor_frac(x.0 + r.0 - 1),
            top32 == floor_frac(y.0 - r.0),
            bottom32 == floor_frac(y.0 + r.0 - 1),
            -0x1_0000 <= bottom32 <= 0x1_0000,
            forall|cx: int, cy: int|
                left <= cx < tx && top32 <= cy <= bottom32 ==> !#[trigger] map.is_solid(cx, cy),
        decreases right + 1 - tx,
    {
        if col_has_solid(map, tx as i32, top32, bottom32) {
            return false;
        }
        tx = tx + 1;
    }
    true
}

/// Whether `s` satisfies the state invariant on `map`.
pub fn check_state(s: &State, map: &MapData) -> (r: bool)
    ensures
        r == state_ok(*s, *map),
{
    if s.wave.number >= MAX_WAVE || s.header.num_players as usize > MAX_PLAYERS {
        return false;
    }
    // players
    let mut i: usize = 0;
    while i < MAX_PLAYERS
        invariant
            i <= MAX_PLAYERS,
            forall|j: int|
                0 <= j < i ==> (#[trigger] standing(*s, j) ==> box_clear(
                    *map,
                    s.players.x[j],
                    s.players.y[j],
                    Fixed(PLAYER_RADIUS),
                )),
            forall|j: int| 0 <= j < i ==> #[trigger] s.players.hp[j] >= 0,
            forall|j: int| 0 <= j < i ==> #[trigger] s.players.revive[j] < REVIVE_FRAMES,
        decreases MAX_PLAYERS - i,
    {
        let l = s.life(i);
        if l == Life::Alive || l == Life::Downed {
            if !box_is_clear(map, s.players.x[i], s.players.y[i], Fixed(PLAYER_RADIUS)) {
                proof {
                    assert(standing(*s, i as int));
                }
                return false;
            }
        }
        if s.players.hp[i] < 0 || s.players.revive[i] >= REVIVE_FRAMES {
            return false;
        }
        i = i + 1;
    }
    // enemies
    let mut count: u32 = 0;
    let mut e: usize = 0;
    while e < MAX_ENEMIES
        invariant
            e <= MAX_ENEMIES,
            count == alive_count(s.enemies, e as nat),
            count <= e,
            forall|j: int|
                0 <= j < e && #[trigger] s.enemies.alive[j] != 0 ==> s.enemies.hp[j] > 0
                    && box_clear(*map, s.enemies.x[j], s.enemies.y[j], enemy_radius(s.enemies, j)),
        decreases MAX_ENEMIES - e,
    {
        if s.enemies.alive[e] != 0 {
            let radius = enemy(if s.enemies.kind[e] == 0 {
                0
            } else {
                1
            }).radius;
            if s.enemies.hp[e] <= 0 || !box_is_clear(map, s.enemies.x[e], s.enemies.y[e], radius) {
                return false;
            }
            count = count + 1;
        }
        e = e + 1;
    }
    if s.wave.enemies_alive > count && s.wave.enemies_alive - count > COUNT_SLACK {
        return false;
    }
    // flow field
    let mut t: usize = 0;
    while t < TILES
        invariant
            t <= TILES,
            forall|k: int| 0 <= k < t ==> #[trigger] s.flow.dir[k] <= 8,
        decreases TILES - t,
    {
        if s.flow.dir[t] > 8 {
            return false;
        }
        t = t + 1;
    }
    true
}

} // verus!
