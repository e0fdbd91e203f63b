//! Hide & seek mode: one seeker finds hiders by sight. Reuses the survival map and player
//! slots but none of its weapons, waves or HP logic.

use crate::config::{MAX_PLAYERS, PLAYER_RADIUS, PLAYER_SPEED};
use crate::fx::{floor_frac, fmul, Fixed};
use crate::input::{dir8, dir8_spec, iabs, PlayerInput};
use crate::inv::{players_ok, standing};
use crate::map::MapData;
use crate::physics::{box_clear, fadd, fsub};
use crate::players::{lemma_standing_in_map, move_player, player_moved};
use crate::state::{
    emit_spec, life_of, upd, EventKind, HideSeek, Life, Players, State, HS_HIDING,
    HS_ROUND_OVER, HS_SEEKING,
};
use vstd::prelude::*;

verus! {

// ---------------------------------------------------------------- line of sight
/// Direction of the walk from `a` toward `b` on one axis (`-1` when already there).
pub open spec fn step_toward(a: int, b: int) -> int {
    if a < b {
        1
    } else {
        -1
    }
}

/// The Bresenham walk from `(x0, y0)` toward `(x1, y1)` after `k` steps: the cell reached and
/// the error term. Once it arrives the walk stays put.
pub open spec fn line_walk(x0: int, y0: int, x1: int, y1: int, k: nat) -> (int, int, int)
    decreases k,
{
    if k == 0 {
        (x0, y0, iabs(x1 - x0) - iabs(y1 - y0))
    } else {
        let (x, y, err) = line_walk(x0, y0, x1, y1, (k - 1) as nat);
        if x == x1 && y == y1 {
            (x, y, err)
        } else {
            let dx = iabs(x1 - x0);
            let dy = -iabs(y1 - y0);
            let e2 = 2 * err;
            let (x2, err2) = if e2 >= dy {
                (x + step_toward(x0, x1), err + dy)
            } else {
                (x, err)
            };
            let (y2, err3) = if e2 <= dx {
                (y + step_toward(y0, y1), err2 + dx)
            } else {
                (y, err2)
            };
            (x2, y2, err3)
        }
    }
}

/// Whether the walk has arrived after `k` steps.
pub open spec fn line_arrived(x0: int, y0: int, x1: int, y1: int, k: nat) -> bool {
    line_walk(x0, y0, x1, y1, k).0 == x1 && line_walk(x0, y0, x1, y1, k).1 == y1
}

/// No wall lies strictly between the two cells: every cell the walk visits before it
/// arrives, the start excluded, is floor.
pub open spec fn line_clear_spec(map: MapData, x0: int, y0: int, x1: int, y1: int) -> bool {
    forall|k: nat|
        1 <= k <= iabs(x1 - x0) + iabs(y1 - y0) ==> #[trigger] line_arrived(x0, y0, x1, y1, k)
            || !map.is_solid(line_walk(x0, y0, x1, y1, k).0, line_walk(x0, y0, x1, y1, k).1)
}

/// The walk stays between the endpoints, its error term is the running Bresenham sum, and
/// every step before arrival brings it one cell or more closer: it arrives within
/// `|x1 - x0| + |y1 - y0|` steps.
pub proof fn lemma_line_walk(x0: int, y0: int, x1: int, y1: int, k: nat)
    ensures
        ({
            let (x, y, err) = line_walk(x0, y0, x1, y1, k);
            let dx = iabs(x1 - x0);
            let dyp = iabs(y1 - y0);
            let i = iabs(x - x0);
            let j = iabs(y - y0);
            &&& step_toward(x0, x1) == 1 ==> x0 <= x <= x1
            &&& step_toward(x0, x1) == -1 ==> x1 <= x <= x0
            &&& step_toward(y0, y1) == 1 ==> y0 <= y <= y1
            &&& step_toward(y0, y1) == -1 ==> y1 <= y <= y0
            &&& err == dx * (1 + j) - dyp * (1 + i)
            &&& line_arrived(x0, y0, x1, y1, k) || k + iabs(x1 - x) + iabs(y1 - y) <= dx + dyp
        }),
    decreases k,
{
    let dx = iabs(x1 - x0);
    let dyp = iabs(y1 - y0);
    if k == 0 {
        assert(dx * 1 == dx);
        assert(dyp * 1 == dyp);
    } else {
        let km = (k - 1) as nat;
        lemma_line_walk(x0, y0, x1, y1, km);
        let (x, y, err) = line_walk(x0, y0, x1, y1, km);
        if !(x == x1 && y == y1) {
            let i = iabs(x - x0);
            let j = iabs(y - y0);
            assert(0 <= i <= dx);
            assert(0 <= j <= dyp);
            let e2 = 2 * err;
            // no step past the end on the x axis
            if x == x1 {
                assert(j + 1 <= dyp);
                assert(i == dx);
                assert(dx * (1 + j) <= dx * dyp) by (nonlinear_arith)
                    requires
                        j + 1 <= dyp,
                        dx >= 0,
                ;
                assert(dyp * (1 + i) == dyp + dx * dyp) by (nonlinear_arith)
                    requires
                        i == dx,
                ;
                assert(e2 < -dyp);
            }
            // no step past the end on the y axis
            if y == y1 {
                assert(i + 1 <= dx);
                assert(j == dyp);
                assert(dyp * (1 + i) <= dyp * dx) by (nonlinear_arith)
                    requires
                        i + 1 <= dx,
                        dyp >= 0,
                ;
                assert(dx * (1 + j) == dx + dx * dyp) by (nonlinear_arith)
                    requires
                        j == dyp,
                ;
                assert(dyp * dx == dx * dyp) by (nonlinear_arith);
                assert(e2 > dx);
            }
            assert(dx * (1 + j + 1) == dx * (1 + j) + dx) by (nonlinear_arith);
            assert(dyp * (1 + i + 1) == dyp * (1 + i) + dyp) by (nonlinear_arith);
        }
    }
}

/// Once arrived, the walk stays at the end.
pub proof fn lemma_line_stays(x0: int, y0: int, x1: int, y1: int, k: nat, m: nat)
    requires
        line_arrived(x0, y0, x1, y1, k),
        k <= m,
    ensures
        line_walk(x0, y0, x1, y1, m) == line_walk(x0, y0, x1, y1, k),
    decreases m,
{
    if m > k {
        lemma_line_stays(x0, y0, x1, y1, k, (m - 1) as nat);
    }
}

/// Bresenham line: true if no wall tile lies strictly between (exclusive) the two endpoints.
fn line_clear(map: &MapData, x0: i32, y0: i32, x1: i32, y1: i32) -> (r: bool)
    requires
        -4096 <= x0 <= 4096,
        -4096 <= y0 <= 4096,
        -4096 <= x1 <= 4096,
        -4096 <= y1 <= 4096,
    ensures
        r == line_clear_spec(*map, x0 as int, y0 as int, x1 as int, y1 as int),
{
    let dx: i32 = if x1 >= x0 {
        x1 - x0
    } else {
        x0 - x1
    };
    let dy: i32 = if y1 >= y0 {
        y0 - y1
    } else {
        y1 - y0
    };
    let sx: i32 = if x0 < x1 {
        1
    } else {
        -1
    };
    let sy: i32 = if y0 < y1 {
        1
    } else {
        -1
    };
    let ghost total: int = dx - dy;
    let mut err: i32 = dx + dy;
    let mut x = x0;
    let mut y = y0;
    let mut first = true;
    let ghost mut k: nat = 0;
    loop
        invariant
            -4096 <= x0 <= 4096,
            -4096 <= y0 <= 4096,
            -4096 <= x1 <= 4096,
            -4096 <= y1 <= 4096,
            dx == iabs(x1 - x0),
            dy == -iabs(y1 - y0),
            total == dx - dy,
            sx == step_toward(x0 as int, x1 as int),
            sy == step_toward(y0 as int, y1 as int),
            (x as int, y as int, err as int) == line_walk(x0 as int, y0 as int, x1 as int, y1 as int, k),
            first <==> k == 0,
            k <= total,
            forall|m: nat|
                1 <= m < k ==> !#[trigger] line_arrived(x0 as int, y0 as int, x1 as int, y1 as int, m)
                    && !map.is_solid(
                    line_walk(x0 as int, y0 as int, x1 as int, y1 as int, m).0,
                    line_walk(x0 as int, y0 as int, x1 as int, y1 as int, m).1,
                ),
        decreases total - k,
    {
        proof {
            lemma_line_walk(x0 as int, y0 as int, x1 as int, y1 as int, k);
        }
        if x == x1 && y == y1 {
            proof {
                assert forall|m: nat|
                    1 <= m <= total implies #[trigger] line_arrived(
                    x0 as int,
                    y0 as int,
                    x1 as int,
                    y1 as int,
                    m,
                ) || !map.is_solid(
                    line_walk(x0 as int, y0 as int, x1 as int, y1 as int, m).0,
                    line_walk(x0 as int, y0 as int, x1 as int, y1 as int, m).1,
                ) by {
                    if m >= k {
                        lemma_line_stays(x0 as int, y0 as int, x1 as int, y1 as int, k, m);
                    }
                }
            }
            return true;
        }
        if !first && map.solid(x, y) {
            proof {
                assert(!line_arrived(x0 as int, y0 as int, x1 as int, y1 as int, k));
            }
            return false;
        }
        first = false;
        let ghost i = iabs(x - x0);
        let ghost j = iabs(y - y0);
        proof {
            assert(0 <= i <= 8192);
            assert(0 <= j <= 8192);
            assert(dx * (1 + j) <= 8192 * 8193) by (nonlinear_arith)
                requires
                    0 <= dx <= 8192,
                    0 <= j <= 8192,
            ;
            assert(-dy * (1 + i) <= 8192 * 8193) by (nonlinear_arith)
                requires
                    0 <= -dy <= 8192,
                    0 <= i <= 8192,
            ;
            assert(dx * (1 + j) >= 0) by (nonlinear_arith)
                requires
                    0 <= dx,
                    0 <= j,
            ;
            assert(-dy * (1 + i) >= 0) by (nonlinear_arith)
                requires
                    0 <= -dy,
                    0 <= i,
            ;
        }
        let e2 = 2 * err;
        if e2 >= dy {
            err = err + dy;
            x = x + sx;
        }
        if e2 <= dx {
            err = err + dx;
            y = y + sy;
        }
        proof {
            k = k + 1;
        }
    }
}

// ---------------------------------------------------------------- vision
/// Prep countdown before the seeker can move or see (frames). Gives hiders time to scatter.
pub const PREP_FRAMES: u32 = 300;
/// Round length once seeking starts (frames).
pub const ROUND_FRAMES: u32 = 5400;
/// Seeker vision distance: 8 tiles, raw Q16.16.
pub const VISION_RANGE_RAW: i32 = 524288;
/// cos(half the vision cone angle), raw Q16.16: a 60° half-angle, wide but not omniscient.
pub const VISION_COS_HALF_RAW: i32 = 32768;
/// Consecutive frames a hider must stay in sight before being caught.
pub const SPOT_FRAMES: u16 = 45;

/// Whether a hider at `(hx, hy)` is inside the vision cone of a seeker at `(sx, sy)` facing
/// the unit vector `(fdx, fdy)`, with no wall between their tiles. The cone test compares
/// `dot^2` against `cos^2 * |d|^2` (all in Q32.32), so no square root is taken.
pub open spec fn can_see_spec(
    map: MapData,
    sx: Fixed,
    sy: Fixed,
    fdx: Fixed,
    fdy: Fixed,
    hx: Fixed,
    hy: Fixed,
) -> bool {
    let dx = fsub(hx, sx);
    let dy = fsub(hy, sy);
    let dist_sq = dx.0 * dx.0 + dy.0 * dy.0;
    let dot = fadd(fmul(fdx, dx), fmul(fdy, dy));
    if dist_sq > VISION_RANGE_RAW * VISION_RANGE_RAW {
        false
    } else if dist_sq == 0 {
        true
    } else if dot.0 <= 0 {
        false
    } else if dot.0 * dot.0 < (VISION_COS_HALF_RAW * VISION_COS_HALF_RAW * dist_sq) / 0x1_0000_0000 {
        false
    } else {
        line_clear_spec(
            map,
            floor_frac(sx.0 as int),
            floor_frac(sy.0 as int),
            floor_frac(hx.0 as int),
            floor_frac(hy.0 as int),
        )
    }
}

/// Whether a raw coordinate lies in the 256-tile square every map fits in.
pub open spec fn in_world(v: Fixed) -> bool {
    0 <= v.0 <= 0x100_0000
}

fn can_see(map: &MapData, sx: Fixed, sy: Fixed, fdx: Fixed, fdy: Fixed, hx: Fixed, hy: Fixed) -> (r:
    bool)
    requires
        in_world(sx),
        in_world(sy),
        in_world(hx),
        in_world(hy),
    ensures
        r == can_see_spec(*map, sx, sy, fdx, fdy, hx, hy),
{
    let dx = hx - sx;
    let dy = hy - sy;
    proof {
        assert(dx.0 * dx.0 <= 0x100_0000 * 0x100_0000) by (nonlinear_arith)
            requires
                -0x100_0000 <= dx.0 <= 0x100_0000,
        ;
        assert(dy.0 * dy.0 <= 0x100_0000 * 0x100_0000) by (nonlinear_arith)
            requires
                -0x100_0000 <= dy.0 <= 0x100_0000,
        ;
        assert(dx.0 * dx.0 >= 0) by (nonlinear_arith);
        assert(dy.0 * dy.0 >= 0) by (nonlinear_arith);
    }
    let dist_sq = Fixed::len_sq(dx, dy);
    let range = Fixed(VISION_RANGE_RAW);
    if dist_sq > range.sq() {
        return false;
    }
    if dist_sq == 0 {
        return true;
    }
    let dot = fdx * dx + fdy * dy;
    if dot.0 <= 0 {
        return false;
    }
    let dot_sq = dot.sq();
    let cos_sq = Fixed(VISION_COS_HALF_RAW).sq();
    proof {
        assert(range.0 * range.0 == 0x40_0000_0000);
        assert(0 <= dist_sq <= 0x40_0000_0000);
        assert(cos_sq == 0x4000_0000);
        assert(cos_sq * dist_sq <= 0x4000_0000 * 0x40_0000_0000) by (nonlinear_arith)
            requires
                cos_sq == 0x4000_0000,
                0 <= dist_sq <= 0x40_0000_0000,
        ;
    }
    let wide: u128 = cos_sq as u128 * dist_sq as u128;
    let rhs = (wide / 0x1_0000_0000u128) as i64;
    if dot_sq < rhs {
        return false;
    }
    line_clear(map, sx.floor_int(), sy.floor_int(), hx.floor_int(), hy.floor_int())
}

// ---------------------------------------------------------------- rounds
/// Roles for players `0..k` of a round with `n` players: player 0 seeks, the others hide.
pub open spec fn roles_upto(role: [u8; MAX_PLAYERS], n: int, k: nat) -> [u8; MAX_PLAYERS]
    decreases k,
{
    if k == 0 {
        role
    } else {
        let r1 = roles_upto(role, n, (k - 1) as nat);
        if k - 1 < n {
            upd(
                r1,
                k - 1,
                if k - 1 == 0 {
                    1u8
                } else {
                    0u8
                },
            )
        } else {
            r1
        }
    }
}

/// A fresh round: player 0 seeks first, the prep countdown starts.
pub open spec fn init_spec(s: State) -> State {
    State {
        hide_seek: HideSeek {
            role: roles_upto(s.hide_seek.role, s.header.num_players as int, MAX_PLAYERS as nat),
            phase: HS_HIDING,
            timer: PREP_FRAMES,
            ..s.hide_seek
        },
        ..s
    }
}

/// Set up roles and timers for a fresh round. Player positions are already placed at the
/// map starts by the world's initial state.
pub fn init(s: &mut State)
    requires
        old(s).header.num_players <= MAX_PLAYERS,
    ensures
        *final(s) == init_spec(*old(s)),
{
    let n = s.header.num_players as usize;
    let ghost r0 = s.hide_seek.role;
    let mut i: usize = 0;
    while i < MAX_PLAYERS
        invariant
            i <= MAX_PLAYERS,
            n == old(s).header.num_players,
            n <= MAX_PLAYERS,
            r0 == old(s).hide_seek.role,
            *s == (State {
                hide_seek: HideSeek { role: roles_upto(r0, n as int, i as nat), ..old(s).hide_seek },
                ..*old(s)
            }),
        decreases MAX_PLAYERS - i,
    {
        if i < n {
            let ghost c = s.hide_seek.role;
            s.hide_seek.role[i] = if i == 0 {
                1
            } else {
                0
            };
            proof {
                assert(s.hide_seek.role =~= roles_upto(r0, n as int, (i + 1) as nat));
            }
        }
        i = i + 1;
    }
    s.hide_seek.phase = HS_HIDING;
    s.hide_seek.timer = PREP_FRAMES;
}

/// Player `i` moves for one frame: the seeker is frozen during prep, and nobody moves once the
/// round is decided. A non-zero direction also turns the player.
pub open spec fn hs_move_one(s: State, map: MapData, input: PlayerInput, i: int) -> State {
    let hs = s.hide_seek;
    if life_of(s.players.life[i]) != Life::Alive || hs.phase == HS_ROUND_OVER || (hs.role[i] == 1
        && hs.phase != HS_SEEKING) {
        s
    } else {
        let d = input.0 & 0x000F;
        let s1 = if d != 0 {
            State {
                players: Players { facing: upd(s.players.facing, i, d as u8), ..s.players },
                ..s
            }
        } else {
            s
        };
        player_moved(s1, map, i, d as int, PLAYER_SPEED)
    }
}

/// Moves of players `0..k`.
pub open spec fn hs_moves_upto(
    s: State,
    map: MapData,
    inputs: [PlayerInput; MAX_PLAYERS],
    k: nat,
) -> State
    decreases k,
{
    if k == 0 {
        s
    } else {
        hs_move_one(hs_moves_upto(s, map, inputs, (k - 1) as nat), map, inputs[k - 1], k - 1)
    }
}

/// The first alive seeker among players `j..n`.
pub open spec fn seeker_from(s: State, n: int, j: int) -> Option<int>
    decreases MAX_PLAYERS - j,
{
    if j >= n || j >= MAX_PLAYERS || j < 0 {
        None
    } else if s.hide_seek.role[j] == 1 && life_of(s.players.life[j]) == Life::Alive {
        Some(j)
    } else {
        seeker_from(s, n, j + 1)
    }
}

/// Hider `i` in the seeker's sight for one more frame (or out of it): caught once seen for
/// [`SPOT_FRAMES`] frames in a row.
pub open spec fn spot_one(
    s: State,
    map: MapData,
    sx: Fixed,
    sy: Fixed,
    fdx: Fixed,
    fdy: Fixed,
    i: int,
) -> State {
    let hs = s.hide_seek;
    if can_see_spec(map, sx, sy, fdx, fdy, s.players.x[i], s.players.y[i]) {
        let sp = hs.spot_frames[i].saturating_add(1);
        let s1 = State {
            hide_seek: HideSeek { spot_frames: upd(hs.spot_frames, i, sp), ..hs },
            ..s
        };
        if sp >= SPOT_FRAMES {
            emit_spec(
                State {
                    hide_seek: HideSeek { found: upd(hs.found, i, 1u8), ..s1.hide_seek },
                    ..s1
                },
                EventKind::Found,
                i as u8,
                s.players.x[i],
                s.players.y[i],
            )
        } else {
            s1
        }
    } else {
        State { hide_seek: HideSeek { spot_frames: upd(hs.spot_frames, i, 0u16), ..hs }, ..s }
    }
}

/// The seeker `k` looks at hiders `0..m`: the state after, and whether every alive hider
/// among them is found.
pub open spec fn spot_upto(
    s: State,
    map: MapData,
    k: int,
    sx: Fixed,
    sy: Fixed,
    fdx: Fixed,
    fdy: Fixed,
    m: nat,
) -> (State, bool)
    decreases m,
{
    if m == 0 {
        (s, true)
    } else {
        let (s1, all) = spot_upto(s, map, k, sx, sy, fdx, fdy, (m - 1) as nat);
        let i = m - 1;
        if i == k || life_of(s1.players.life[i]) != Life::Alive || s1.hide_seek.found[i] == 1 {
            (s1, all)
        } else {
            let s2 = spot_one(s1, map, sx, sy, fdx, fdy, i);
            (s2, all && s2.hide_seek.found[i] != 0)
        }
    }
}

/// The round ends with `winner` (1 = hiders, 2 = seeker).
pub open spec fn end_round_spec(s: State, winner: u32) -> State {
    emit_spec(
        State {
            hide_seek: HideSeek { phase: HS_ROUND_OVER, winner, ..s.hide_seek },
            ..s
        },
        EventKind::RoundEnd,
        winner as u8,
        Fixed(0),
        Fixed(0),
    )
}

proof fn lemma_spot_upto_frame(
    s: State,
    map: MapData,
    k: int,
    sx: Fixed,
    sy: Fixed,
    fdx: Fixed,
    fdy: Fixed,
    m: nat,
)
    requires
        m <= MAX_PLAYERS,
    ensures
        ({
            let r = spot_upto(s, map, k, sx, sy, fdx, fdy, m).0;
            &&& r.players == s.players
            &&& r.header == s.header
            &&& r.hide_seek.timer == s.hide_seek.timer
            &&& r.hide_seek.phase == s.hide_seek.phase
            &&& r.hide_seek.winner == s.hide_seek.winner
            &&& forall|j: int|
                m <= j < MAX_PLAYERS ==> #[trigger] r.hide_seek.spot_frames[j]
                    == s.hide_seek.spot_frames[j] && r.hide_seek.found[j] == s.hide_seek.found[j]
            &&& forall|j: int|
                0 <= j < m && j != k && life_of(s.players.life[j]) == Life::Alive
                    && s.hide_seek.found[j] == 0 ==> {
                    let sp = s.hide_seek.spot_frames[j].saturating_add(1);
                    if can_see_spec(map, sx, sy, fdx, fdy, s.players.x[j], s.players.y[j]) {
                        &&& #[trigger] r.hide_seek.spot_frames[j] == sp
                        &&& (r.hide_seek.found[j] == 1) == (sp >= SPOT_FRAMES)
                        &&& (r.hide_seek.found[j] == 0) == (sp < SPOT_FRAMES)
                    } else {
                        &&& r.hide_seek.spot_frames[j] == 0
                        &&& r.hide_seek.found[j] == 0
                    }
                }
        }),
    decreases m,
{
    broadcast use vstd::array::group_array_axioms;

    if m > 0 {
        let q = (m - 1) as nat;
        lemma_spot_upto_frame(s, map, k, sx, sy, fdx, fdy, q);
        let p = spot_upto(s, map, k, sx, sy, fdx, fdy, q).0;
        let r = spot_upto(s, map, k, sx, sy, fdx, fdy, m).0;
        let i = q as int;
        assert(p.hide_seek.spot_frames[i] == s.hide_seek.spot_frames[i]);
        assert(p.hide_seek.found[i] == s.hide_seek.found[i]);
        assert forall|j: int|
            0 <= j < m && j != k && life_of(s.players.life[j]) == Life::Alive && s.hide_seek.found[j]
                == 0 implies {
            let sp = s.hide_seek.spot_frames[j].saturating_add(1);
            if can_see_spec(map, sx, sy, fdx, fdy, s.players.x[j], s.players.y[j]) {
                &&& #[trigger] r.hide_seek.spot_frames[j] == sp
                &&& (r.hide_seek.found[j] == 1) == (sp >= SPOT_FRAMES)
                &&& (r.hide_seek.found[j] == 0) == (sp < SPOT_FRAMES)
            } else {
                &&& r.hide_seek.spot_frames[j] == 0
                &&& r.hide_seek.found[j] == 0
            }
        } by {
            if j < q {
                assert(p.hide_seek.spot_frames[j] == r.hide_seek.spot_frames[j]);
                assert(p.hide_seek.found[j] == r.hide_seek.found[j]);
            }
        }
    }
}

proof fn lemma_spot_upto_all(
    s: State,
    map: MapData,
    k: int,
    sx: Fixed,
    sy: Fixed,
    fdx: Fixed,
    fdy: Fixed,
    m: nat,
)
    requires
        m <= MAX_PLAYERS,
    ensures
        ({
            let (r, all) = spot_upto(s, map, k, sx, sy, fdx, fdy, m);
            all == (forall|j: int|
                0 <= j < m && j != k && life_of(s.players.life[j]) == Life::Alive
                    ==> #[trigger] r.hide_seek.found[j] != 0)
        }),
    decreases m,
{
    broadcast use vstd::array::group_array_axioms;

    if m > 0 {
        let q = (m - 1) as nat;
        lemma_spot_upto_all(s, map, k, sx, sy, fdx, fdy, q);
        lemma_spot_upto_frame(s, map, k, sx, sy, fdx, fdy, q);
        let (p, pall) = spot_upto(s, map, k, sx, sy, fdx, fdy, q);
        let (r, all) = spot_upto(s, map, k, sx, sy, fdx, fdy, m);
        let i = q as int;
        // the hider looked at last changes only its own record
        assert forall|j: int| 0 <= j < q implies #[trigger] r.hide_seek.found[j]
            == p.hide_seek.found[j] by {}
        if all {
            assert forall|j: int|
                0 <= j < m && j != k && life_of(s.players.life[j]) == Life::Alive
                    implies #[trigger] r.hide_seek.found[j] != 0 by {
                if j < q {
                    assert(p.hide_seek.found[j] != 0);
                }
            }
        } else {
            if !pall {
                let j = choose|j: int|
                    0 <= j < q && j != k && life_of(s.players.life[j]) == Life::Alive
                        && !(#[trigger] p.hide_seek.found[j] != 0);
                assert(r.hide_seek.found[j] == p.hide_seek.found[j]);
            } else {
                assert(r.hide_seek.found[i] == 0);
            }
        }
    }
}

/// A round ends by its rule: the seeker wins (round over, winner 2) in the frame after
/// which every alive hider is found; otherwise the hiders win (winner 1) when the clock has
/// run out; otherwise the round goes on with its phase and winner unchanged.
pub proof fn lemma_round_end(s: State, map: MapData, k: int)
    requires
        0 <= k < MAX_PLAYERS,
        s.header.num_players <= MAX_PLAYERS,
    ensures
        ({
            let r = sight_spec(s, map, k);
            let n = s.header.num_players as int;
            let all_found = forall|j: int|
                0 <= j < n && j != k && life_of(s.players.life[j]) == Life::Alive
                    ==> #[trigger] r.hide_seek.found[j] != 0;
            &&& all_found ==> r.hide_seek.phase == HS_ROUND_OVER && r.hide_seek.winner == 2
            &&& !all_found && s.hide_seek.timer == 0 ==> r.hide_seek.phase == HS_ROUND_OVER
                && r.hide_seek.winner == 1
            &&& !all_found && s.hide_seek.timer != 0 ==> r.hide_seek.phase == s.hide_seek.phase
                && r.hide_seek.winner == s.hide_seek.winner
        }),
{
    let n = s.header.num_players as nat;
    let (fdx, fdy) = dir8_spec(seeker_facing(s.players.facing[k]));
    lemma_spot_upto_all(s, map, k, s.players.x[k], s.players.y[k], fdx, fdy, n);
    lemma_spot_upto_frame(s, map, k, s.players.x[k], s.players.y[k], fdx, fdy, n);
    let r1 = spot_upto(s, map, k, s.players.x[k], s.players.y[k], fdx, fdy, n).0;
    let all = spot_upto(s, map, k, s.players.x[k], s.players.y[k], fdx, fdy, n).1;
    let r = sight_spec(s, map, k);
    assert(r.hide_seek.found == r1.hide_seek.found);
    let nn = s.header.num_players as int;
    let all_found = forall|j: int|
        0 <= j < nn && j != k && life_of(s.players.life[j]) == Life::Alive
            ==> #[trigger] r.hide_seek.found[j] != 0;
    assert(all_found == all) by {
        if all {
            assert forall|j: int|
                0 <= j < nn && j != k && life_of(s.players.life[j]) == Life::Alive
                    implies #[trigger] r.hide_seek.found[j] != 0 by {
                assert(r1.hide_seek.found[j] != 0);
            }
        }
        if all_found {
            assert forall|j: int|
                0 <= j < nn && j != k && life_of(s.players.life[j]) == Life::Alive
                    implies #[trigger] r1.hide_seek.found[j] != 0 by {
                assert(r.hide_seek.found[j] != 0);
            }
        }
    }
    assert(r1.hide_seek.timer == s.hide_seek.timer);
}

/// Spotting needs an unbroken gaze. In a seeking frame, for every alive hider not yet found:
/// if the seeker (at its position, looking its facing way) cannot see it, its spot count drops
/// to zero and it stays unfound; if it can, the count grows by one and the hider is found exactly
/// when the count reaches [`SPOT_FRAMES`]. So a hider is only ever found after [`SPOT_FRAMES`]
/// frames in sight in a row.
pub proof fn lemma_spotting_needs_unbroken_sight(s: State, map: MapData, k: int, i: int)
    requires
        0 <= k < MAX_PLAYERS,
        0 <= i < s.header.num_players <= MAX_PLAYERS,
        i != k,
        life_of(s.players.life[i]) == Life::Alive,
        s.hide_seek.found[i] == 0,
    ensures
        ({
            let (fdx, fdy) = dir8_spec(seeker_facing(s.players.facing[k]));
            let seen = can_see_spec(
                map,
                s.players.x[k],
                s.players.y[k],
                fdx,
                fdy,
                s.players.x[i],
                s.players.y[i],
            );
            let sp = s.hide_seek.spot_frames[i].saturating_add(1);
            let r = sight_spec(s, map, k);
            &&& !seen ==> r.hide_seek.spot_frames[i] == 0 && r.hide_seek.found[i] == 0
            &&& seen ==> r.hide_seek.spot_frames[i] == sp
            &&& seen ==> (r.hide_seek.found[i] == 1 <==> sp >= SPOT_FRAMES)
            &&& r.hide_seek.found[i] == 1 ==> seen && s.hide_seek.spot_frames[i] + 1 >= SPOT_FRAMES
        }),
{
    let n = s.header.num_players as nat;
    let (fdx, fdy) = dir8_spec(seeker_facing(s.players.facing[k]));
    lemma_spot_upto_frame(s, map, k, s.players.x[k], s.players.y[k], fdx, fdy, n);
    let r1 = spot_upto(s, map, k, s.players.x[k], s.players.y[k], fdx, fdy, n).0;
    let seen = can_see_spec(map, s.players.x[k], s.players.y[k], fdx, fdy, s.players.x[i], s.players.y[i]);
    let sp = s.hide_seek.spot_frames[i].saturating_add(1);
    assert(0 <= i < n);
    if seen {
        assert(r1.hide_seek.spot_frames[i] == sp);
        assert((r1.hide_seek.found[i] == 1) == (sp >= SPOT_FRAMES));
    } else {
        assert(r1.hide_seek.spot_frames[i] == 0);
        assert(r1.hide_seek.found[i] == 0);
    }
    let r = sight_spec(s, map, k);
    assert(r.hide_seek.spot_frames == r1.hide_seek.spot_frames);
    assert(r.hide_seek.found == r1.hide_seek.found);
}

/// The seeker's facing, clamped into `1..=8`.
pub open spec fn seeker_facing(f: u8) -> int {
    if f < 1 {
        1
    } else if f > 8 {
        8
    } else {
        f as int
    }
}

/// Seeking: the seeker `k` looks around; the seeker wins when every hider is found, the
/// hiders when the clock runs out.
pub open spec fn sight_spec(s: State, map: MapData, k: int) -> State {
    let n = s.header.num_players as nat;
    let (fdx, fdy) = dir8_spec(seeker_facing(s.players.facing[k]));
    let (s1, all) = spot_upto(s, map, k, s.players.x[k], s.players.y[k], fdx, fdy, n);
    if all {
        end_round_spec(s1, 2)
    } else if s1.hide_seek.timer == 0 {
        end_round_spec(s1, 1)
    } else {
        s1
    }
}

/// One hide & seek frame: movement, then the clock, then (while seeking) the seeker's sight.
pub open spec fn hs_step_spec(s: State, map: MapData, inputs: [PlayerInput; MAX_PLAYERS]) -> State {
    let n = s.header.num_players as nat;
    let seeking = s.hide_seek.phase == HS_SEEKING;
    let over = s.hide_seek.phase == HS_ROUND_OVER;
    let s1 = hs_moves_upto(s, map, inputs, n);
    if over {
        s1
    } else {
        let t = s1.hide_seek.timer.saturating_sub(1);
        let s2 = State { hide_seek: HideSeek { timer: t, ..s1.hide_seek }, ..s1 };
        if !seeking {
            if t == 0 {
                State {
                    hide_seek: HideSeek { phase: HS_SEEKING, timer: ROUND_FRAMES, ..s2.hide_seek },
                    ..s2
                }
            } else {
                s2
            }
        } else {
            match seeker_from(s2, n as int, 0) {
                None => s2,
                Some(k) => sight_spec(s2, map, k),
            }
        }
    }
}

proof fn lemma_moves_when_over(s: State, map: MapData, inputs: [PlayerInput; MAX_PLAYERS], k: nat)
    requires
        s.hide_seek.phase == HS_ROUND_OVER,
    ensures
        hs_moves_upto(s, map, inputs, k) == s,
    decreases k,
{
    if k > 0 {
        lemma_moves_when_over(s, map, inputs, (k - 1) as nat);
    }
}

/// A decided round is terminal: once the phase is round-over, a hide & seek frame changes
/// nothing, whatever the map and the inputs (no player moves or turns, the round's record
/// and the events stay).
pub proof fn lemma_hs_round_over_frozen(s: State, map: MapData, inputs: [PlayerInput; MAX_PLAYERS])
    requires
        s.hide_seek.phase == HS_ROUND_OVER,
    ensures
        hs_step_spec(s, map, inputs) == s,
{
    lemma_moves_when_over(s, map, inputs, s.header.num_players as nat);
}

fn hs_move(s: &mut State, map: &MapData, input: PlayerInput, i: usize)
    requires
        i < MAX_PLAYERS,
        players_ok(*old(s), *map),
    ensures
        *final(s) == hs_move_one(*old(s), *map, input, i as int),
        players_ok(*final(s), *map),
{
    if s.life(i) != Life::Alive {
        return;
    }
    let is_seeker = s.hide_seek.role[i] == 1;
    let seeking = s.hide_seek.phase == HS_SEEKING;
    let over = s.hide_seek.phase == HS_ROUND_OVER;
    if over || (is_seeker && !seeking) {
        return;
    }
    let d = input.dir();
    let ghost b = *s;
    if d != 0 {
        s.players.facing[i] = d;
        proof {
            assert(s.players.facing =~= upd(b.players.facing, i as int, d));
        }
    }
    let ghost b1 = *s;
    proof {
        assert(standing(b, i as int));
    }
    move_player(s, map, i, d, PLAYER_SPEED);
    proof {
        assert forall|j: int| 0 <= j < MAX_PLAYERS && #[trigger] standing(*s, j) implies box_clear(
            *map,
            s.players.x[j],
            s.players.y[j],
            Fixed(PLAYER_RADIUS),
        ) by {
            assert(standing(b, j));
        }
        assert forall|j: int| 0 <= j < MAX_PLAYERS implies #[trigger] s.players.hp[j] >= 0 by {
            assert(b.players.hp[j] >= 0);
        }
        assert forall|j: int| 0 <= j < MAX_PLAYERS implies #[trigger] s.players.revive[j]
            < crate::config::REVIVE_FRAMES by {
            assert(b.players.revive[j] < crate::config::REVIVE_FRAMES);
        }
    }
}

fn find_seeker(s: &State, n: usize) -> (r: Option<usize>)
    requires
        n <= MAX_PLAYERS,
    ensures
        r matches Some(k) ==> seeker_from(*s, n as int, 0) == Some(k as int) && k < n
            && life_of(s.players.life[k as int]) == Life::Alive,
        r is None ==> seeker_from(*s, n as int, 0) is None,
{
    let mut j: usize = 0;
    while j < n
        invariant
            j <= n,
            n <= MAX_PLAYERS,
            seeker_from(*s, n as int, 0) == seeker_from(*s, n as int, j as int),
        decreases n - j,
    {
        if s.hide_seek.role[j] == 1 && s.life(j) == Life::Alive {
            return Some(j);
        }
        j = j + 1;
    }
    None
}

fn end_round(s: &mut State, winner: u32)
    requires
        winner <= 2,
    ensures
        *final(s) == end_round_spec(*old(s), winner),
{
    s.hide_seek.phase = HS_ROUND_OVER;
    s.hide_seek.winner = winner;
    s.emit(EventKind::RoundEnd, winner as u8, Fixed(0), Fixed(0));
}

fn spot(s: &mut State, map: &MapData, sx: Fixed, sy: Fixed, fdx: Fixed, fdy: Fixed, i: usize)
    requires
        i < MAX_PLAYERS,
        in_world(sx),
        in_world(sy),
        in_world(old(s).players.x[i as int]),
        in_world(old(s).players.y[i as int]),
    ensures
        *final(s) == spot_one(*old(s), *map, sx, sy, fdx, fdy, i as int),
{
    let ghost b = *s;
    let x = s.players.x[i];
    let y = s.players.y[i];
    if can_see(map, sx, sy, fdx, fdy, x, y) {
        let sp = s.hide_seek.spot_frames[i].saturating_add(1);
        s.hide_seek.spot_frames[i] = sp;
        proof {
            assert(s.hide_seek.spot_frames =~= upd(b.hide_seek.spot_frames, i as int, sp));
        }
        if sp >= SPOT_FRAMES {
            let ghost b1 = *s;
            s.hide_seek.found[i] = 1;
            proof {
                assert(s.hide_seek.found =~= upd(b.hide_seek.found, i as int, 1u8));
            }
            s.emit(EventKind::Found, i as u8, x, y);
        }
    } else {
        s.hide_seek.spot_frames[i] = 0;
        proof {
            assert(s.hide_seek.spot_frames =~= upd(b.hide_seek.spot_frames, i as int, 0u16));
        }
    }
}

fn sight(s: &mut State, map: &MapData, k: usize)
    requires
        k < MAX_PLAYERS,
        life_of(old(s).players.life[k as int]) == Life::Alive,
        players_ok(*old(s), *map),
    ensures
        *final(s) == sight_spec(*old(s), *map, k as int),
        players_ok(*final(s), *map),
        final(s).enemies == old(s).enemies,
        final(s).wave == old(s).wave,
        final(s).flow == old(s).flow,
        final(s).header == old(s).header,
{
    let ghost b = *s;
    proof {
        lemma_standing_in_map(b, *map);
        assert(standing(b, k as int));
    }
    let n = s.header.num_players as usize;
    let sx = s.players.x[k];
    let sy = s.players.y[k];
    let f = s.players.facing[k];
    let fc: u8 = if f < 1 {
        1
    } else if f > 8 {
        8
    } else {
        f
    };
    let (fdx, fdy) = dir8(fc);
    let mut all = true;
    let mut i: usize = 0;
    while i < n
        invariant
            i <= n,
            n == b.header.num_players,
            n <= MAX_PLAYERS,
            k < MAX_PLAYERS,
            sx == b.players.x[k as int],
            sy == b.players.y[k as int],
            in_world(sx),
            in_world(sy),
            (fdx, fdy) == dir8_spec(seeker_facing(b.players.facing[k as int])),
            forall|j: int|
                0 <= j < MAX_PLAYERS && #[trigger] standing(b, j) ==> in_world(b.players.x[j])
                    && in_world(b.players.y[j]),
            (*s, all) == spot_upto(b, *map, k as int, sx, sy, fdx, fdy, i as nat),
            s.players == b.players,
            s.header == b.header,
            s.enemies == b.enemies,
            s.wave == b.wave,
            s.flow == b.flow,
        decreases n - i,
    {
        if i != k && s.life(i) == Life::Alive && s.hide_seek.found[i] != 1 {
            proof {
                assert(standing(b, i as int));
            }
            spot(s, map, sx, sy, fdx, fdy, i);
            if s.hide_seek.found[i] == 0 {
                all = false;
            }
        }
        i = i + 1;
    }
    if all {
        end_round(s, 2);
    } else if s.hide_seek.timer == 0 {
        end_round(s, 1);
    }
    proof {
        crate::inv::lemma_players_ok_frame(b, *s, *map);
    }
}

/// Advance one hide & seek frame. Movement only: no weapons, HP, waves or enemies.
pub fn step(s: &mut State, map: &MapData, inputs: [PlayerInput; MAX_PLAYERS])
    requires
        players_ok(*old(s), *map),
        forall|i: int| 0 <= i < MAX_PLAYERS ==> #[trigger] inputs[i].0 & 0x000F <= 8,
    ensures
        *final(s) == hs_step_spec(*old(s), *map, inputs),
        players_ok(*final(s), *map),
        final(s).enemies == old(s).enemies,
        final(s).wave == old(s).wave,
        final(s).flow == old(s).flow,
        final(s).header == old(s).header,
{
    let ghost b = *s;
    let n = s.header.num_players as usize;
    let seeking = s.hide_seek.phase == HS_SEEKING;
    let over = s.hide_seek.phase == HS_ROUND_OVER;
    let mut i: usize = 0;
    while i < n
        invariant
            i <= n,
            n == b.header.num_players,
            n <= MAX_PLAYERS,
            *s == hs_moves_upto(b, *map, inputs, i as nat),
            players_ok(*s, *map),
            s.header == b.header,
            s.hide_seek == b.hide_seek,
            s.enemies == b.enemies,
            s.wave == b.wave,
            s.flow == b.flow,
        decreases n - i,
    {
        hs_move(s, map, inputs[i], i);
        i = i + 1;
    }
    if over {
        return;
    }
    let ghost s1 = *s;
    s.hide_seek.timer = s.hide_seek.timer.saturating_sub(1);
    let ghost s2 = *s;
    proof {
        crate::inv::lemma_players_ok_frame(s1, *s, *map);
    }
    if !seeking {
        if s.hide_seek.timer == 0 {
            s.hide_seek.phase = HS_SEEKING;
            s.hide_seek.timer = ROUND_FRAMES;
        }
        proof {
            crate::inv::lemma_players_ok_frame(s2, *s, *map);
        }
        return;
    }
    match find_seeker(s, n) {
        Some(k) => {
            sight(s, map, k);
        },
        None => {},
    }
}

} // verus!
