//! The well-formedness of a simulation state that every step keeps.

use crate::config::{enemy_spec, MAX_ENEMIES, MAX_PLAYERS, PLAYER_RADIUS, REVIVE_FRAMES, TILES};
use crate::fx::Fixed;
use crate::map::MapData;
use crate::physics::box_clear;
use crate::state::{life_of, Enemies, Life, State};
use vstd::prelude::*;

verus! {

/// The first wave number from which starting another wave overflows the wave-size arithmetic;
/// well-formed states stay below it.
pub const MAX_WAVE: u32 = 0x3FFF_FFFD;

/// Table row of an enemy kind (unknown kinds read the last row).
pub open spec fn kind_row(k: u8) -> int {
    if k == 0 {
        0
    } else {
        1
    }
}

/// Collision half-size of enemy slot `e`.
pub open spec fn enemy_radius(en: Enemies, e: int) -> Fixed {
    enemy_spec(kind_row(en.kind[e])).radius
}

/// Number of live enemy slots among the first `n`.
pub open spec fn alive_count(en: Enemies, n: nat) -> nat
    decreases n,
{
    if n == 0 {
        0
    } else {
        alive_count(en, (n - 1) as nat) + if en.alive[n - 1] != 0 {
            1nat
        } else {
            0
        }
    }
}

/// Whether player `i` is on the field (alive or downed).
pub open spec fn standing(s: State, i: int) -> bool {
    life_of(s.players.life[i]) == Life::Alive || life_of(s.players.life[i]) == Life::Downed
}

/// Player well-formedness: standing players overlap no wall; HP is never negative; revive
/// progress is below the revive threshold.
pub open spec fn players_ok(s: State, map: MapData) -> bool {
    &&& s.header.num_players <= MAX_PLAYERS
    &&& forall|i: int|
        0 <= i < MAX_PLAYERS ==> #[trigger] standing(s, i) ==> box_clear(
            map,
            s.players.x[i],
            s.players.y[i],
            Fixed(PLAYER_RADIUS),
        )
    &&& forall|i: int| 0 <= i < MAX_PLAYERS ==> #[trigger] s.players.hp[i] >= 0
    &&& forall|i: int| 0 <= i < MAX_PLAYERS ==> #[trigger] s.players.revive[i] < REVIVE_FRAMES
}

/// How far the cached live count may run ahead of the live slots: far enough for any count a
/// caller sets, short of the `u32` limit that counting a spawn into every free slot would pass.
pub const COUNT_SLACK: u32 = 0xFFFF_FE7F;

/// Enemy well-formedness: live enemies have positive HP and overlap no wall, and the cached
/// live count leaves room to count a spawn into every free slot (it is kept with saturating
/// decrements, so it need not equal the number of live slots).
pub open spec fn enemies_ok(s: State, map: MapData) -> bool {
    &&& forall|e: int|
        0 <= e < MAX_ENEMIES && #[trigger] s.enemies.alive[e] != 0 ==> s.enemies.hp[e] > 0
            && box_clear(map, s.enemies.x[e], s.enemies.y[e], enemy_radius(s.enemies, e))
    &&& s.wave.enemies_alive <= alive_count(s.enemies, MAX_ENEMIES as nat) + COUNT_SLACK
}

/// Every flow-field entry is a direction index `0..=8`.
pub open spec fn flow_ok(s: State) -> bool {
    forall|t: int| 0 <= t < TILES ==> #[trigger] s.flow.dir[t] <= 8
}

/// The state invariant: what every simulation step keeps (given a well-formed map).
pub open spec fn state_ok(s: State, map: MapData) -> bool {
    &&& players_ok(s, map)
    &&& enemies_ok(s, map)
    &&& flow_ok(s)
    &&& s.wave.number < MAX_WAVE
}

/// Player well-formedness only depends on positions, lives, HP, revive progress and the
/// player count.
pub proof fn lemma_players_ok_frame(a: State, b: State, map: MapData)
    requires
        players_ok(a, map),
        a.players.x == b.players.x,
        a.players.y == b.players.y,
        a.players.life == b.players.life,
        a.players.hp == b.players.hp,
        a.header.num_players == b.header.num_players,
        forall|i: int| 0 <= i < MAX_PLAYERS ==> #[trigger] b.players.revive[i] < REVIVE_FRAMES,
    ensures
        players_ok(b, map),
{
    assert forall|i: int| 0 <= i < MAX_PLAYERS implies #[trigger] standing(b, i) == standing(a, i) by {}
}

/// Squared length of a vector with small components fits easily in an `i64`.
pub proof fn lemma_len_sq_small(x: Fixed, y: Fixed)
    requires
        -0x200_0000 <= x.0 <= 0x200_0000,
        -0x200_0000 <= y.0 <= 0x200_0000,
    ensures
        0 <= crate::fx::len_sq_spec(x, y) <= 0x8_0000_0000_0000,
{
    assert(0 <= x.0 * x.0 <= 0x4_0000_0000_0000) by (nonlinear_arith)
        requires
            -0x200_0000 <= x.0 <= 0x200_0000,
    ;
    assert(0 <= y.0 * y.0 <= 0x4_0000_0000_0000) by (nonlinear_arith)
        requires
            -0x200_0000 <= y.0 <= 0x200_0000,
    ;
}

pub proof fn lemma_alive_count_le(en: Enemies, n: nat)
    ensures
        alive_count(en, n) <= n,
    decreases n,
{
    if n > 0 {
        lemma_alive_count_le(en, (n - 1) as nat);
    }
}

/// A free slot means the live count is below capacity.
pub proof fn lemma_alive_count_free(en: Enemies, n: nat, e: int)
    requires
        0 <= e < n,
        en.alive[e] == 0,
    ensures
        alive_count(en, n) < n,
    decreases n,
{
    lemma_alive_count_le(en, (n - 1) as nat);
    if e < n - 1 {
        lemma_alive_count_free(en, (n - 1) as nat, e);
    }
}

/// Changing one slot's liveness changes the count accordingly; other fields do not matter.
pub proof fn lemma_alive_count_update(a: Enemies, b: Enemies, e: int, n: nat)
    requires
        0 <= e < MAX_ENEMIES,
        n <= MAX_ENEMIES,
        forall|j: int| 0 <= j < MAX_ENEMIES && j != e ==> a.alive[j] == b.alive[j],
    ensures
        alive_count(b, n) + (if e < n && a.alive[e] != 0 {
            1nat
        } else {
            0
        }) == alive_count(a, n) + (if e < n && b.alive[e] != 0 {
            1nat
        } else {
            0
        }),
    decreases n,
{
    if n > 0 {
        lemma_alive_count_update(a, b, e, (n - 1) as nat);
        if n - 1 == e {
            assert(alive_count(a, n) == alive_count(a, (n - 1) as nat) + if a.alive[e] != 0 {
                1nat
            } else {
                0
            });
            assert(alive_count(b, n) == alive_count(b, (n - 1) as nat) + if b.alive[e] != 0 {
                1nat
            } else {
                0
            });
        } else {
            assert(a.alive[n - 1] == b.alive[n - 1]);
        }
    }
}

/// The count only depends on the liveness flags.
pub proof fn lemma_alive_count_same(a: Enemies, b: Enemies, n: nat)
    requires
        n <= MAX_ENEMIES,
        forall|j: int| 0 <= j < MAX_ENEMIES ==> a.alive[j] == b.alive[j],
    ensures
        alive_count(a, n) == alive_count(b, n),
    decreases n,
{
    if n > 0 {
        lemma_alive_count_same(a, b, (n - 1) as nat);
    }
}

} // verus!
