//! The render view: a flat `i32` buffer the renderer reads without per-entity boundary calls.
//! Layout: a header of [`HEADER`] fields (indices in [`h`]), then one record per player, per
//! live enemy and per live projectile.

pub mod h;

use crate::config::{enemy, enemy_spec, MAX_ENEMIES, MAX_PLAYERS, MAX_SHOTS};
use crate::fx::{trunc_div, trunc_div_i64};
use crate::input::{dir_from_delta, dir_from_delta_spec};
use crate::inv::{alive_count, kind_row};
use crate::state::{mode_of, Enemies, GameMode, Shots, State};
use vstd::prelude::*;

verus! {

/// Header length.
pub const HEADER: usize = 17;
/// Player record stride: x, y, hp, life, facing, weapon, `hurt_flash`, `down_timer`, revive,
/// kills, hide-seek `role`, hide-seek `found` (last two 0 in survival).
pub const PLAYER_STRIDE: usize = 12;
/// Enemy record stride: slot, x, y, kind, `hp_permille`, stagger. `slot` keys interpolation.
pub const ENEMY_STRIDE: usize = 6;
/// Shot record stride: x, y, kind, dir.
pub const SHOT_STRIDE: usize = 4;
/// Buffer capacity (never reallocates during play).
pub const CAPACITY: usize = HEADER + MAX_PLAYERS * PLAYER_STRIDE + MAX_ENEMIES * ENEMY_STRIDE
    + MAX_SHOTS * SHOT_STRIDE;

/// Largest enemy HP magnitude whose permille still fits an `i32`.
pub const PERMILLE_HP_LIMIT: i32 = 2147483;

/// Number of live projectiles among the first `n` slots.
pub open spec fn live_shots(sh: Shots, n: nat) -> nat
    decreases n,
{
    if n == 0 {
        0
    } else {
        live_shots(sh, (n - 1) as nat) + if sh.ttl[n - 1] != 0 {
            1nat
        } else {
            0
        }
    }
}

/// The header: frame, counts, wave/round fields, local handle and mode.
pub open spec fn header_spec(s: State, local_handle: i32) -> Seq<i32> {
    let hs = mode_of(s.header.mode) == GameMode::HideSeek;
    seq![
        s.header.frame as i32,
        MAX_PLAYERS as i32,
        alive_count(s.enemies, MAX_ENEMIES as nat) as i32,
        live_shots(s.shots, MAX_SHOTS as nat) as i32,
        s.wave.number as i32,
        if hs {
            s.hide_seek.phase as i32
        } else {
            s.wave.phase as i32
        },
        if hs {
            s.hide_seek.timer as i32
        } else {
            s.wave.timer as i32
        },
        s.wave.team_score as i32,
        s.wave.combo as i32,
        s.wave.combo_timer as i32,
        s.wave.unlocked as i32,
        local_handle,
        s.header.num_players as i32,
        s.wave.best_combo as i32,
        s.wave.to_spawn as i32,
        s.header.mode as i32,
        s.hide_seek.winner as i32,
    ]
}

/// Record of player `i`.
pub open spec fn player_record(s: State, i: int) -> Seq<i32> {
    let p = s.players;
    seq![
        p.x[i].0,
        p.y[i].0,
        p.hp[i],
        p.life[i] as i32,
        p.facing[i] as i32,
        p.weapon[i] as i32,
        p.hurt_flash[i] as i32,
        p.down_timer[i] as i32,
        p.revive[i] as i32,
        p.kills[i] as i32,
        s.hide_seek.role[i] as i32,
        s.hide_seek.found[i] as i32,
    ]
}

/// Records of players `0..n`.
pub open spec fn player_records(s: State, n: nat) -> Seq<i32>
    decreases n,
{
    if n == 0 {
        seq![]
    } else {
        player_records(s, (n - 1) as nat) + player_record(s, n - 1)
    }
}

/// HP in thousandths of the kind's full HP (rounded toward zero; full HP read as at least 1).
pub open spec fn hp_permille(hp: i32, kind: u8) -> i32 {
    let full = enemy_spec(kind_row(kind)).hp;
    let m = if full >= 1 {
        full
    } else {
        1
    };
    trunc_div(hp * 1000, m as int) as i32
}

/// Record of enemy slot `i`.
pub open spec fn enemy_record(e: Enemies, i: int) -> Seq<i32> {
    seq![
        i as i32,
        e.x[i].0,
        e.y[i].0,
        e.kind[i] as i32,
        hp_permille(e.hp[i], e.kind[i]),
        e.stagger[i] as i32,
    ]
}

/// Records of the live enemies among slots `0..n`, in slot order.
pub open spec fn enemy_records(e: Enemies, n: nat) -> Seq<i32>
    decreases n,
{
    if n == 0 {
        seq![]
    } else if e.alive[n - 1] != 0 {
        enemy_records(e, (n - 1) as nat) + enemy_record(e, n - 1)
    } else {
        enemy_records(e, (n - 1) as nat)
    }
}

/// Record of projectile slot `i`.
pub open spec fn shot_record(sh: Shots, i: int) -> Seq<i32> {
    seq![sh.x[i].0, sh.y[i].0, sh.kind[i] as i32, dir_from_delta_spec(sh.vx[i], sh.vy[i]) as i32]
}

/// Records of the live projectiles among slots `0..n`, in slot order.
pub open spec fn shot_records(sh: Shots, n: nat) -> Seq<i32>
    decreases n,
{
    if n == 0 {
        seq![]
    } else if sh.ttl[n - 1] != 0 {
        shot_records(sh, (n - 1) as nat) + shot_record(sh, n - 1)
    } else {
        shot_records(sh, (n - 1) as nat)
    }
}

/// The whole view of a state.
pub open spec fn view_spec(s: State, local_handle: i32) -> Seq<i32> {
    header_spec(s, local_handle) + player_records(s, MAX_PLAYERS as nat) + enemy_records(
        s.enemies,
        MAX_ENEMIES as nat,
    ) + shot_records(s.shots, MAX_SHOTS as nat)
}

/// Whether every live enemy's HP is small enough for its permille to be computed.
pub open spec fn permille_ok(s: State) -> bool {
    forall|e: int|
        0 <= e < MAX_ENEMIES && #[trigger] s.enemies.alive[e] != 0 ==> -PERMILLE_HP_LIMIT
            <= s.enemies.hp[e] <= PERMILLE_HP_LIMIT
}

/// Whether [`fill`] can render `s`: every live enemy's HP permille fits an `i32`.
pub fn can_render(s: &State) -> (r: bool)
    ensures
        r == permille_ok(*s),
{
    let mut e: usize = 0;
    while e < MAX_ENEMIES
        invariant
            e <= MAX_ENEMIES,
            forall|j: int|
                0 <= j < e && #[trigger] s.enemies.alive[j] != 0 ==> -PERMILLE_HP_LIMIT
                    <= s.enemies.hp[j] <= PERMILLE_HP_LIMIT,
        decreases MAX_ENEMIES - e,
    {
        if s.enemies.alive[e] != 0 && (s.enemies.hp[e] < -PERMILLE_HP_LIMIT || s.enemies.hp[e]
            > PERMILLE_HP_LIMIT) {
            return false;
        }
        e = e + 1;
    }
    true
}

fn push_player(out: &mut Vec<i32>, s: &State, i: usize)
    requires
        i < MAX_PLAYERS,
    ensures
        final(out)@ == old(out)@ + player_record(*s, i as int),
{
    let p = &s.players;
    out.push(p.x[i].0);
    out.push(p.y[i].0);
    out.push(p.hp[i]);
    out.push(p.life[i] as i32);
    out.push(p.facing[i] as i32);
    out.push(p.weapon[i] as i32);
    out.push(p.hurt_flash[i] as i32);
    out.push(p.down_timer[i] as i32);
    out.push(p.revive[i] as i32);
    out.push(p.kills[i] as i32);
    out.push(s.hide_seek.role[i] as i32);
    out.push(s.hide_seek.found[i] as i32);
    proof {
        assert(final(out)@ =~= old(out)@ + player_record(*s, i as int));
    }
}

fn push_enemy(out: &mut Vec<i32>, e: &Enemies, i: usize)
    requires
        i < MAX_ENEMIES,
        -PERMILLE_HP_LIMIT <= e.hp[i as int] <= PERMILLE_HP_LIMIT,
    ensures
        final(out)@ == old(out)@ + enemy_record(*e, i as int),
{
    let full = enemy(if e.kind[i] == 0 {
        0
    } else {
        1
    }).hp;
    let m: i32 = if full >= 1 {
        full
    } else {
        1
    };
    let permille = trunc_div_i64(e.hp[i] as i64 * 1000, m as i64);
    proof {
        assert(-2147483000 <= e.hp[i as int] * 1000 <= 2147483000);
        assert(-2147483000 <= trunc_div(e.hp[i as int] * 1000, m as int) <= 2147483000) by (
        nonlinear_arith)
            requires
                -2147483000 <= e.hp[i as int] * 1000 <= 2147483000,
                m >= 1,
        {
            let a = e.hp[i as int] * 1000;
            if a >= 0 {
                assert(a / (m as int) <= a);
            } else {
                assert((-a) / (m as int) <= -a);
            }
        }
    }
    out.push(i as i32);
    out.push(e.x[i].0);
    out.push(e.y[i].0);
    out.push(e.kind[i] as i32);
    out.push(permille as i32);
    out.push(e.stagger[i] as i32);
    proof {
        assert(final(out)@ =~= old(out)@ + enemy_record(*e, i as int));
    }
}

fn push_shot(out: &mut Vec<i32>, sh: &Shots, i: usize)
    requires
        i < MAX_SHOTS,
    ensures
        final(out)@ == old(out)@ + shot_record(*sh, i as int),
{
    let d = dir_from_delta(sh.vx[i], sh.vy[i]);
    out.push(sh.x[i].0);
    out.push(sh.y[i].0);
    out.push(sh.kind[i] as i32);
    out.push(d as i32);
    proof {
        assert(final(out)@ =~= old(out)@ + shot_record(*sh, i as int));
    }
}

/// Rebuild `out` from `s`: header, every player, live enemies and live projectiles.
pub fn fill(out: &mut Vec<i32>, s: &State, local_handle: i32)
    requires
        permille_ok(*s),
    ensures
        final(out)@ == view_spec(*s, local_handle),
{
    out.clear();
    let hide_seek = s.mode() == GameMode::HideSeek;
    out.push(s.header.frame as i32);
    out.push(MAX_PLAYERS as i32);
    out.push(0);
    out.push(0);
    out.push(s.wave.number as i32);
    out.push(
        if hide_seek {
            s.hide_seek.phase as i32
        } else {
            s.wave.phase as i32
        },
    );
    out.push(
        if hide_seek {
            s.hide_seek.timer as i32
        } else {
            s.wave.timer as i32
        },
    );
    out.push(s.wave.team_score as i32);
    out.push(s.wave.combo as i32);
    out.push(s.wave.combo_timer as i32);
    out.push(s.wave.unlocked as i32);
    out.push(local_handle);
    out.push(s.header.num_players as i32);
    out.push(s.wave.best_combo as i32);
    out.push(s.wave.to_spawn as i32);
    out.push(s.header.mode as i32);
    out.push(s.hide_seek.winner as i32);
    let ghost head = out@;
    let mut i: usize = 0;
    while i < MAX_PLAYERS
        invariant
            i <= MAX_PLAYERS,
            out@ == head + player_records(*s, i as nat),
        decreases MAX_PLAYERS - i,
    {
        push_player(out, s, i);
        proof {
            assert(out@ =~= head + player_records(*s, (i + 1) as nat));
        }
        i = i + 1;
    }
    let ghost mid = out@;
    let mut n_enemies: u32 = 0;
    let mut j: usize = 0;
    while j < MAX_ENEMIES
        invariant
            j <= MAX_ENEMIES,
            permille_ok(*s),
            out@ == mid + enemy_records(s.enemies, j as nat),
            n_enemies == alive_count(s.enemies, j as nat),
            n_enemies <= j,
        decreases MAX_ENEMIES - j,
    {
        if s.enemies.alive[j] != 0 {
            push_enemy(out, &s.enemies, j);
            n_enemies = n_enemies + 1;
            proof {
                assert(out@ =~= mid + enemy_records(s.enemies, (j + 1) as nat));
            }
        }
        j = j + 1;
    }
    let ghost mid2 = out@;
    let mut n_shots: u32 = 0;
    let mut k: usize = 0;
    while k < MAX_SHOTS
        invariant
            k <= MAX_SHOTS,
            out@ == mid2 + shot_records(s.shots, k as nat),
            n_shots == live_shots(s.shots, k as nat),
            n_shots <= k,
        decreases MAX_SHOTS - k,
    {
        if s.shots.ttl[k] != 0 {
            push_shot(out, &s.shots, k);
            n_shots = n_shots + 1;
            proof {
                assert(out@ =~= mid2 + shot_records(s.shots, (k + 1) as nat));
            }
        }
        k = k + 1;
    }
    out.set(h::N_ENEMIES, n_enemies as i32);
    out.set(h::N_SHOTS, n_shots as i32);
    proof {
        assert(out@ =~= view_spec(*s, local_handle));
    }
}

proof fn lemma_records_len(s: State, n: nat, m: nat, k: nat)
    ensures
        player_records(s, n).len() == n * PLAYER_STRIDE,
        enemy_records(s.enemies, m).len() == alive_count(s.enemies, m) * ENEMY_STRIDE,
        shot_records(s.shots, k).len() == live_shots(s.shots, k) * SHOT_STRIDE,
    decreases n + m + k,
{
    if n > 0 {
        lemma_records_len(s, (n - 1) as nat, m, k);
    }
    if m > 0 {
        lemma_records_len(s, n, (m - 1) as nat, k);
    }
    if k > 0 {
        lemma_records_len(s, n, m, (k - 1) as nat);
    }
}

/// The view's length agrees with its counts: the header, one record per player, and one per
/// live enemy and live projectile; the counts never exceed the slots, so the length never
/// exceeds [`CAPACITY`].
pub proof fn lemma_view_len(s: State, local_handle: i32)
    ensures
        view_spec(s, local_handle).len() == HEADER + MAX_PLAYERS * PLAYER_STRIDE + alive_count(
            s.enemies,
            MAX_ENEMIES as nat,
        ) * ENEMY_STRIDE + live_shots(s.shots, MAX_SHOTS as nat) * SHOT_STRIDE,
        view_spec(s, local_handle).len() <= CAPACITY,
{
    lemma_records_len(s, MAX_PLAYERS as nat, MAX_ENEMIES as nat, MAX_SHOTS as nat);
    crate::inv::lemma_alive_count_le(s.enemies, MAX_ENEMIES as nat);
    lemma_live_shots_le(s.shots, MAX_SHOTS as nat);
}

/// The header reads the game as it is: each header entry (indices in [`h`]) carries the state
/// field it is named after — the frame, the team score (not the combo), the combo, the wave,
/// the unlocked weapons, the local handle, the player count, the mode — and the phase and timer
/// of the game mode in play.
pub proof fn lemma_view_header(s: State, local_handle: i32)
    ensures
        ({
            let v = view_spec(s, local_handle);
            let hs = mode_of(s.header.mode) == GameMode::HideSeek;
            &&& v[h::FRAME as int] == s.header.frame as i32
            &&& v[h::N_PLAYERS as int] == MAX_PLAYERS as i32
            &&& v[h::N_ENEMIES as int] == alive_count(s.enemies, MAX_ENEMIES as nat) as i32
            &&& v[h::N_SHOTS as int] == live_shots(s.shots, MAX_SHOTS as nat) as i32
            &&& v[h::WAVE as int] == s.wave.number as i32
            &&& v[h::PHASE as int] == (if hs { s.hide_seek.phase } else { s.wave.phase }) as i32
            &&& v[h::TIMER as int] == (if hs { s.hide_seek.timer } else { s.wave.timer }) as i32
            &&& v[h::SCORE as int] == s.wave.team_score as i32
            &&& v[h::COMBO as int] == s.wave.combo as i32
            &&& v[h::COMBO_TIMER as int] == s.wave.combo_timer as i32
            &&& v[h::UNLOCKED as int] == s.wave.unlocked as i32
            &&& v[h::LOCAL as int] == local_handle
            &&& v[h::NUM_PLAYERS as int] == s.header.num_players as i32
            &&& v[h::BEST_COMBO as int] == s.wave.best_combo as i32
            &&& v[h::TO_SPAWN as int] == s.wave.to_spawn as i32
            &&& v[h::MODE as int] == s.header.mode as i32
            &&& v[h::HS_WINNER as int] == s.hide_seek.winner as i32
        }),
{
    let hd = header_spec(s, local_handle);
    assert(hd.len() == HEADER);
    let rest = player_records(s, MAX_PLAYERS as nat) + enemy_records(s.enemies, MAX_ENEMIES as nat)
        + shot_records(s.shots, MAX_SHOTS as nat);
    let v = view_spec(s, local_handle);
    assert(v =~= hd + rest);
    assert forall|i: int| 0 <= i < HEADER implies #[trigger] v[i] == hd[i] by {}
}

proof fn lemma_player_records_index(s: State, n: nat, i: int, f: int)
    requires
        0 <= i < n <= MAX_PLAYERS,
        0 <= f < PLAYER_STRIDE,
    ensures
        player_records(s, n)[i * 12 + f] == player_record(s, i)[f],
    decreases n,
{
    lemma_records_len(s, (n - 1) as nat, 0, 0);
    if i < n - 1 {
        lemma_player_records_index(s, (n - 1) as nat, i, f);
        assert(i * 12 + f < (n - 1) * 12) by (nonlinear_arith)
            requires
                0 <= i < n - 1,
                0 <= f < 12,
        ;
    } else {
        assert(i * 12 == (n - 1) * 12);
    }
}

/// Each player's record carries that player's own fields, in the documented order: record
/// `i` starts at `HEADER + i * PLAYER_STRIDE` with position, HP, life, facing, weapon, hurt
/// flash, downed timer, revive progress, kills, then the hide & seek role and found flag.
pub proof fn lemma_view_player_records(s: State, local_handle: i32, i: int)
    requires
        0 <= i < MAX_PLAYERS,
    ensures
        ({
            let v = view_spec(s, local_handle);
            let b = HEADER + i * PLAYER_STRIDE;
            let p = s.players;
            &&& v[b] == p.x[i].0
            &&& v[b + 1] == p.y[i].0
            &&& v[b + 2] == p.hp[i]
            &&& v[b + 3] == p.life[i] as i32
            &&& v[b + 4] == p.facing[i] as i32
            &&& v[b + 5] == p.weapon[i] as i32
            &&& v[b + 6] == p.hurt_flash[i] as i32
            &&& v[b + 7] == p.down_timer[i] as i32
            &&& v[b + 8] == p.revive[i] as i32
            &&& v[b + 9] == p.kills[i] as i32
            &&& v[b + 10] == s.hide_seek.role[i] as i32
            &&& v[b + 11] == s.hide_seek.found[i] as i32
        }),
{
    let hd = header_spec(s, local_handle);
    let pr = player_records(s, MAX_PLAYERS as nat);
    lemma_records_len(s, MAX_PLAYERS as nat, 0, 0);
    let rest = enemy_records(s.enemies, MAX_ENEMIES as nat) + shot_records(s.shots, MAX_SHOTS as nat);
    let v = view_spec(s, local_handle);
    assert(v =~= hd + pr + rest);
    let b = HEADER + i * PLAYER_STRIDE;
    assert forall|f: int| 0 <= f < PLAYER_STRIDE implies #[trigger] v[b + f]
        == player_record(s, i)[f] by {
        lemma_player_records_index(s, MAX_PLAYERS as nat, i, f);
        assert(i * 12 + f < 48) by (nonlinear_arith)
            requires
                0 <= i < 4,
                0 <= f < 12,
        ;
    }
    assert(v[b + 0] == player_record(s, i)[0]);
    assert(v[b + 1] == player_record(s, i)[1]);
    assert(v[b + 2] == player_record(s, i)[2]);
    assert(v[b + 3] == player_record(s, i)[3]);
    assert(v[b + 4] == player_record(s, i)[4]);
    assert(v[b + 5] == player_record(s, i)[5]);
    assert(v[b + 6] == player_record(s, i)[6]);
    assert(v[b + 7] == player_record(s, i)[7]);
    assert(v[b + 8] == player_record(s, i)[8]);
    assert(v[b + 9] == player_record(s, i)[9]);
    assert(v[b + 10] == player_record(s, i)[10]);
    assert(v[b + 11] == player_record(s, i)[11]);
}

/// Record `t` of the enemy list names live slot `slot` and carries that slot's fields.
pub open spec fn enemy_record_at(r: Seq<i32>, t: int, e: Enemies, slot: int) -> bool {
    &&& r[t * 6] == slot
    &&& r[t * 6 + 1] == e.x[slot].0
    &&& r[t * 6 + 2] == e.y[slot].0
    &&& r[t * 6 + 3] == e.kind[slot] as i32
    &&& r[t * 6 + 4] == hp_permille(e.hp[slot], e.kind[slot])
    &&& r[t * 6 + 5] == e.stagger[slot] as i32
}

/// The enemy part of the view lists exactly the live enemies, once each and in slot order:
/// each record names a live slot below `n` and carries that enemy's position, kind, HP in
/// thousandths and stagger; the named slots increase from record to record; and every live
/// enemy below `n` has a record.
pub proof fn lemma_enemy_records_list_live(e: Enemies, n: nat)
    requires
        n <= MAX_ENEMIES,
    ensures
        ({
            let r = enemy_records(e, n);
            let c = alive_count(e, n) as int;
            &&& forall|t: int|
                0 <= t < c ==> {
                    let slot = #[trigger] r[t * 6];
                    &&& 0 <= slot < n
                    &&& e.alive[slot as int] != 0
                    &&& enemy_record_at(r, t, e, slot as int)
                }
            &&& forall|t: int, u: int| 0 <= t < u < c ==> #[trigger] r[t * 6] < #[trigger] r[u * 6]
            &&& forall|k: int|
                0 <= k < n && #[trigger] e.alive[k] != 0 ==> exists|t: int|
                    0 <= t < c && #[trigger] r[t * 6] == k
        }),
    decreases n,
{
    lemma_records_len_enemies(e, n);
    if n > 0 {
        let m = (n - 1) as nat;
        lemma_enemy_records_list_live(e, m);
        lemma_records_len_enemies(e, m);
        let p = enemy_records(e, m);
        let r = enemy_records(e, n);
        let cp = alive_count(e, m) as int;
        let c = alive_count(e, n) as int;
        crate::inv::lemma_alive_count_le(e, m);
        if e.alive[m as int] != 0 {
            assert(r == p + enemy_record(e, m as int));
            assert(c == cp + 1);
            assert forall|t: int, f: int| 0 <= t < cp && 0 <= f < 6 implies #[trigger] r[t * 6 + f]
                == p[t * 6 + f] by {
                assert(t * 6 + f < cp * 6) by (nonlinear_arith)
                    requires
                        0 <= t < cp,
                        0 <= f < 6,
                ;
            }
            assert forall|f: int| 0 <= f < 6 implies #[trigger] r[cp * 6 + f] == enemy_record(
                e,
                m as int,
            )[f] by {}
            assert forall|t: int|
                0 <= t < c implies {
                    let slot = #[trigger] r[t * 6];
                    &&& 0 <= slot < n
                    &&& e.alive[slot as int] != 0
                    &&& enemy_record_at(r, t, e, slot as int)
                } by {
                if t < cp {
                    assert(r[t * 6 + 0] == p[t * 6 + 0]);
                    assert(r[t * 6 + 1] == p[t * 6 + 1]);
                    assert(r[t * 6 + 2] == p[t * 6 + 2]);
                    assert(r[t * 6 + 3] == p[t * 6 + 3]);
                    assert(r[t * 6 + 4] == p[t * 6 + 4]);
                    assert(r[t * 6 + 5] == p[t * 6 + 5]);
                    assert(p[t * 6] == p[t * 6 + 0]);
                } else {
                    assert(t == cp);
                    assert(r[cp * 6 + 0] == enemy_record(e, m as int)[0]);
                    assert(r[cp * 6 + 1] == enemy_record(e, m as int)[1]);
                    assert(r[cp * 6 + 2] == enemy_record(e, m as int)[2]);
                    assert(r[cp * 6 + 3] == enemy_record(e, m as int)[3]);
                    assert(r[cp * 6 + 4] == enemy_record(e, m as int)[4]);
                    assert(r[cp * 6 + 5] == enemy_record(e, m as int)[5]);
                }
            }
            assert forall|t: int, u: int| 0 <= t < u < c implies #[trigger] r[t * 6]
                < #[trigger] r[u * 6] by {
                assert(r[t * 6 + 0] == p[t * 6 + 0]);
                assert(p[t * 6] < m);
                if u < cp {
                    assert(r[u * 6 + 0] == p[u * 6 + 0]);
                } else {
                    assert(r[cp * 6 + 0] == enemy_record(e, m as int)[0]);
                }
            }
            assert forall|k: int| 0 <= k < n && #[trigger] e.alive[k] != 0 implies exists|t: int|
                0 <= t < c && #[trigger] r[t * 6] == k by {
                if k < m {
                    let t = choose|t: int| 0 <= t < cp && #[trigger] p[t * 6] == k;
                    assert(r[t * 6 + 0] == p[t * 6 + 0]);
                    assert(r[t * 6] == k);
                } else {
                    assert(r[cp * 6 + 0] == enemy_record(e, m as int)[0]);
                    assert(r[cp * 6] == k);
                }
            }
        } else {
            assert(r == p);
            assert(c == cp);
        }
    }
}

/// Record `t` of the projectile list carries the fields of projectile slot `slot`: position,
/// kind, and the direction its velocity points.
pub open spec fn shot_record_at(r: Seq<i32>, t: int, sh: Shots, slot: int) -> bool {
    &&& r[t * 4] == sh.x[slot].0
    &&& r[t * 4 + 1] == sh.y[slot].0
    &&& r[t * 4 + 2] == sh.kind[slot] as i32
    &&& r[t * 4 + 3] == dir_from_delta_spec(sh.vx[slot], sh.vy[slot]) as i32
}

/// The projectile part of the view lists the live projectiles: every record carries the
/// fields of some live projectile below `n`, and every live projectile below `n` has one.
proof fn lemma_prefix_record(p: Seq<i32>, q: Seq<i32>, t: int, cp: int)
    requires
        0 <= t < cp,
        p.len() == cp * 4,
    ensures
        (p + q)[t * 4] == p[t * 4],
        (p + q)[t * 4 + 1] == p[t * 4 + 1],
        (p + q)[t * 4 + 2] == p[t * 4 + 2],
        (p + q)[t * 4 + 3] == p[t * 4 + 3],
{
    assert(t * 4 + 3 < cp * 4) by (nonlinear_arith)
        requires
            0 <= t < cp,
    ;
}

proof fn lemma_shot_records_len(sh: Shots, n: nat)
    ensures
        shot_records(sh, n).len() == live_shots(sh, n) * 4,
    decreases n,
{
    if n > 0 {
        lemma_shot_records_len(sh, (n - 1) as nat);
    }
}

/// The projectile part of the view has one record per live projectile, and every live
/// projectile below `n` has a record carrying its position, kind and flight direction.
pub proof fn lemma_shot_records_list_live(sh: Shots, n: nat)
    requires
        n <= MAX_SHOTS,
    ensures
        shot_records(sh, n).len() == live_shots(sh, n) * 4,
        forall|k: int|
            0 <= k < n && #[trigger] sh.ttl[k] != 0 ==> exists|t: int|
                0 <= t < live_shots(sh, n) && #[trigger] shot_record_at(shot_records(sh, n), t, sh, k),
    decreases n,
{
    lemma_shot_records_len(sh, n);
    if n > 0 {
        let m = (n - 1) as nat;
        lemma_shot_records_list_live(sh, m);
        lemma_shot_records_len(sh, m);
        let p = shot_records(sh, m);
        let r = shot_records(sh, n);
        let cp = live_shots(sh, m) as int;
        let c = live_shots(sh, n) as int;
        if sh.ttl[m as int] != 0 {
            assert(r == p + shot_record(sh, m as int));
            assert forall|t: int, k: int| 0 <= t < cp && shot_record_at(p, t, sh, k) implies
                #[trigger] shot_record_at(r, t, sh, k) by {
                lemma_prefix_record(p, shot_record(sh, m as int), t, cp);
            }
            assert(shot_record_at(r, cp, sh, m as int)) by {
                assert(r[cp * 4 + 0] == shot_record(sh, m as int)[0]);
                assert(r[cp * 4 + 1] == shot_record(sh, m as int)[1]);
                assert(r[cp * 4 + 2] == shot_record(sh, m as int)[2]);
                assert(r[cp * 4 + 3] == shot_record(sh, m as int)[3]);
            }
            assert forall|k: int| 0 <= k < n && #[trigger] sh.ttl[k] != 0 implies exists|t: int|
                0 <= t < c && #[trigger] shot_record_at(r, t, sh, k) by {
                if k < m {
                    let t = choose|t: int| 0 <= t < cp && #[trigger] shot_record_at(p, t, sh, k);
                    assert(shot_record_at(r, t, sh, k));
                } else {
                    assert(shot_record_at(r, cp, sh, m as int));
                }
            }
        } else {
            assert(r == p);
        }
    }
}

proof fn lemma_records_len_enemies(e: Enemies, n: nat)
    ensures
        enemy_records(e, n).len() == alive_count(e, n) * 6,
    decreases n,
{
    if n > 0 {
        lemma_records_len_enemies(e, (n - 1) as nat);
    }
}

proof fn lemma_live_shots_le(sh: Shots, n: nat)
    ensures
        live_shots(sh, n) <= n,
    decreases n,
{
    if n > 0 {
        lemma_live_shots_le(sh, (n - 1) as nat);
    }
}

} // verus!
