//! Multi-source BFS flow field toward the nearest alive player.

use crate::config::{MAP_H, MAP_W, MAX_PLAYERS, TILES};
use crate::fx::floor_frac;
use crate::map::MapData;
use crate::state::{life_of, FlowField, Life, State};
use vstd::prelude::*;

verus! {

/// "Not reached yet".
pub const UNSEEN: u16 = 65535;

/// Neighbour offsets for DIR8 indices 1..=8 (here `d` = index - 1).
pub open spec fn offs_spec(d: int) -> (int, int) {
    if d == 0 {
        (0, -1)
    } else if d == 1 {
        (1, -1)
    } else if d == 2 {
        (1, 0)
    } else if d == 3 {
        (1, 1)
    } else if d == 4 {
        (0, 1)
    } else if d == 5 {
        (-1, 1)
    } else if d == 6 {
        (-1, 0)
    } else {
        (-1, -1)
    }
}

fn offs(d: usize) -> (r: (i32, i32))
    requires
        d < 8,
    ensures
        r.0 == offs_spec(d as int).0,
        r.1 == offs_spec(d as int).1,
{
    if d == 0 {
        (0, -1)
    } else if d == 1 {
        (1, -1)
    } else if d == 2 {
        (1, 0)
    } else if d == 3 {
        (1, 1)
    } else if d == 4 {
        (0, 1)
    } else if d == 5 {
        (-1, 1)
    } else if d == 6 {
        (-1, 0)
    } else {
        (-1, -1)
    }
}

/// The breadth-first search in progress: distances, queue, and directions found so far.
pub struct Bfs {
    /// Steps from the nearest source; [`UNSEEN`] if not reached.
    pub dist: [u16; TILES],
    /// Tiles in discovery order.
    pub queue: [u16; TILES],
    /// Next queue entry to expand.
    pub head: int,
    /// Number of queue entries.
    pub tail: int,
    /// Per tile, the DIR8 index of the step back toward the tile it was discovered from.
    pub dir: [u8; TILES],
}

/// A fresh search: nothing reached, no directions.
pub open spec fn bfs_empty() -> Bfs {
    Bfs {
        dist: vstd::array::spec_array_fill_for_copy_type::<u16, TILES>(UNSEEN),
        queue: vstd::array::spec_array_fill_for_copy_type::<u16, TILES>(0),
        head: 0,
        tail: 0,
        dir: vstd::array::spec_array_fill_for_copy_type::<u8, TILES>(0),
    }
}

/// Tile `t` reached at distance `d`, appended to the queue.
pub open spec fn bfs_visit(b: Bfs, t: int, d: int) -> Bfs {
    Bfs {
        dist: vstd::array::spec_array_update(b.dist, t, d as u16),
        queue: vstd::array::spec_array_update(b.queue, b.tail, t as u16),
        tail: b.tail + 1,
        ..b
    }
}

/// The search after considering player `i` as a source (first `i` already done).
pub open spec fn bfs_sources(s: State, map: MapData, n: nat) -> Bfs
    decreases n,
{
    if n == 0 {
        bfs_empty()
    } else {
        let b = bfs_sources(s, map, (n - 1) as nat);
        let i = n - 1;
        let tx = floor_frac(s.players.x[i].0 as int);
        let ty = floor_frac(s.players.y[i].0 as int);
        if life_of(s.players.life[i]) != Life::Alive || map.is_solid(tx, ty) {
            b
        } else {
            let idx = ty * (MAP_W as int) + tx;
            if b.dist[idx] == UNSEEN {
                bfs_visit(b, idx, 0)
            } else {
                b
            }
        }
    }
}

/// Neighbour `d` (0..8) of `cur` considered.
pub open spec fn bfs_neighbour(b: Bfs, map: MapData, cur: int, d: int) -> Bfs {
    let (ox, oy) = offs_spec(d);
    let cx = cur % (MAP_W as int);
    let cy = cur / (MAP_W as int);
    let nx = cx + ox;
    let ny = cy + oy;
    if map.is_solid(nx, ny) {
        b
    } else if ox != 0 && oy != 0 && (map.is_solid(cx + ox, cy) || map.is_solid(cx, cy + oy)) {
        // diagonal only if both orthogonal neighbours are open (no corner cutting)
        b
    } else {
        let n = ny * (MAP_W as int) + nx;
        if b.dist[n] != UNSEEN {
            b
        } else {
            let b1 = bfs_visit(b, n, b.dist[cur] + 1);
            Bfs { dir: vstd::array::spec_array_update(b1.dir, n, ((d + 4) % 8 + 1) as u8), ..b1 }
        }
    }
}

/// Neighbours `0..k` of `cur` considered.
pub open spec fn bfs_neighbours(b: Bfs, map: MapData, cur: int, k: nat) -> Bfs
    decreases k,
{
    if k == 0 {
        b
    } else {
        bfs_neighbour(bfs_neighbours(b, map, cur, (k - 1) as nat), map, cur, k - 1)
    }
}

/// Expand the next queued tile.
pub open spec fn bfs_expand(b: Bfs, map: MapData) -> Bfs {
    let cur = b.queue[b.head] as int;
    bfs_neighbours(Bfs { head: b.head + 1, ..b }, map, cur, 8)
}

/// Run the search for at most `fuel` expansions (it stops once the queue is empty).
pub open spec fn bfs_run(b: Bfs, map: MapData, fuel: nat) -> Bfs
    decreases fuel,
{
    if fuel == 0 || b.head >= b.tail {
        b
    } else {
        bfs_run(bfs_expand(b, map), map, (fuel - 1) as nat)
    }
}

/// The flow field for `s`: per tile, the step toward the nearest alive player (multi-source
/// BFS from every alive player's tile; 8-connected without corner cutting; 0 where unreachable
/// or at a source).
pub open spec fn flow_spec(s: State, map: MapData) -> [u8; TILES] {
    flow_search(s, map).dir
}

/// The completed search behind [`flow_spec`].
pub open spec fn flow_search(s: State, map: MapData) -> Bfs {
    bfs_run(bfs_sources(s, map, MAX_PLAYERS as nat), map, TILES as nat)
}

/// Number of reached tiles among the first `n`.
pub open spec fn seen_count(dist: [u16; TILES], n: nat) -> nat
    decreases n,
{
    if n == 0 {
        0
    } else {
        seen_count(dist, (n - 1) as nat) + if dist[n - 1] != UNSEEN {
            1nat
        } else {
            0
        }
    }
}

proof fn lemma_seen_count_update(dist: [u16; TILES], t: int, v: u16, n: nat)
    requires
        0 <= t < TILES,
        n <= TILES,
        dist[t] == UNSEEN,
        v != UNSEEN,
    ensures
        seen_count(vstd::array::spec_array_update(dist, t, v), n) == seen_count(dist, n) + if t
            < n {
            1nat
        } else {
            0
        },
    decreases n,
{
    broadcast use vstd::array::group_array_axioms;

    if n > 0 {
        lemma_seen_count_update(dist, t, v, (n - 1) as nat);
    }
}

proof fn lemma_seen_count_bound(dist: [u16; TILES], n: nat, t: int)
    requires
        n <= TILES,
        0 <= t < n,
        dist[t] == UNSEEN,
    ensures
        seen_count(dist, n) < n,
    decreases n,
{
    if t < n - 1 {
        lemma_seen_count_bound(dist, (n - 1) as nat, t);
        lemma_seen_count_le(dist, (n - 1) as nat);
    } else {
        lemma_seen_count_le(dist, (n - 1) as nat);
    }
}

proof fn lemma_seen_count_le(dist: [u16; TILES], n: nat)
    ensures
        seen_count(dist, n) <= n,
    decreases n,
{
    if n > 0 {
        lemma_seen_count_le(dist, (n - 1) as nat);
    }
}

proof fn lemma_seen_count_empty(n: nat)
    requires
        n <= TILES,
    ensures
        seen_count(bfs_empty().dist, n) == 0,
    decreases n,
{
    broadcast use vstd::array::group_array_axioms;

    if n > 0 {
        lemma_seen_count_empty((n - 1) as nat);
    }
}

/// Search invariant: the queue holds exactly the reached tiles, each at distance at most its
/// queue position, and the head has not passed the tail.
pub open spec fn bfs_ok(b: Bfs) -> bool {
    &&& 0 <= b.head <= b.tail <= TILES
    &&& b.tail == seen_count(b.dist, TILES as nat)
    &&& forall|p: int| 0 <= p < b.tail ==> #[trigger] b.queue[p] < TILES
    &&& forall|p: int| 0 <= p < b.tail ==> b.dist[#[trigger] b.queue[p] as int] <= p
}

/// Reusable scratch buffers (not part of `State`; fully rebuilt each use).
pub struct FlowScratch {
    queue: [u16; TILES],
    dist: [u16; TILES],
}

impl FlowScratch {
    /// The search queue buffer.
    pub closed spec fn queue(self) -> Seq<u16> {
        self.queue@
    }

    /// The distance buffer.
    pub closed spec fn dist(self) -> Seq<u16> {
        self.dist@
    }

    /// Fresh buffers: an empty (zeroed) queue and every tile [`UNSEEN`].
    pub fn new() -> (r: FlowScratch)
        ensures
            r.queue() == Seq::new(TILES as nat, |_i: int| 0u16),
            r.dist() == Seq::new(TILES as nat, |_i: int| UNSEEN),
    {
        let r = FlowScratch { queue: [0; TILES], dist: [UNSEEN; TILES] };
        proof {
            assert(r.queue@ =~= Seq::new(TILES as nat, |_i: int| 0u16));
            assert(r.dist@ =~= Seq::new(TILES as nat, |_i: int| UNSEEN));
        }
        r
    }
}

fn visit(dist: &mut [u16; TILES], queue: &mut [u16; TILES], tail: &mut usize, t: usize, d: u16)
    requires
        t < TILES,
        *old(tail) < TILES,
        old(dist)[t as int] == UNSEEN,
        d != UNSEEN,
    ensures
        final(dist)@ == old(dist)@.update(t as int, d),
        final(queue)@ == old(queue)@.update(*old(tail) as int, t as u16),
        *final(tail) == *old(tail) + 1,
{
    dist[t] = d;
    queue[*tail] = t as u16;
    *tail = *tail + 1;
}

/// Recompute `state.flow` from current player positions.
/// Cost: one BFS over walkable tiles, O(TILES).
pub fn rebuild(state: &mut State, map: &MapData, scratch: &mut FlowScratch)
    ensures
        *final(state) == (State { flow: FlowField { dir: flow_spec(*old(state), *map) }, ..*old(state) }),
        forall|t: int| 0 <= t < TILES ==> #[trigger] final(state).flow.dir[t] <= 8,
{
    broadcast use vstd::array::group_array_axioms;

    let ghost s0 = *state;
    let mut k: usize = 0;
    while k < TILES
        invariant
            k <= TILES,
            *state == s0,
            forall|j: int| 0 <= j < k ==> scratch.dist[j] == UNSEEN,
            forall|j: int| 0 <= j < k ==> scratch.queue[j] == 0,
        decreases TILES - k,
    {
        scratch.dist[k] = UNSEEN;
        scratch.queue[k] = 0;
        k = k + 1;
    }
    let mut dir: [u8; TILES] = [0; TILES];
    let mut tail: usize = 0;
    let mut head: usize = 0;
    proof {
        assert(scratch.dist =~= bfs_empty().dist);
        assert(scratch.queue =~= bfs_empty().queue);
        assert(dir =~= bfs_empty().dir);
        lemma_seen_count_empty(TILES as nat);
    }
    let mut i: usize = 0;
    while i < MAX_PLAYERS
        invariant
            i <= MAX_PLAYERS,
            *state == s0,
            head == 0,
            bfs_sources(s0, *map, i as nat) == (Bfs {
                dist: scratch.dist,
                queue: scratch.queue,
                head: 0,
                tail: tail as int,
                dir: dir,
            }),
            bfs_ok(
                Bfs {
                    dist: scratch.dist,
                    queue: scratch.queue,
                    head: 0,
                    tail: tail as int,
                    dir: dir,
                },
            ),
            forall|t: int| 0 <= t < TILES ==> #[trigger] dir[t] <= 8,
            forall|p: int| 0 <= p < tail ==> scratch.dist[#[trigger] scratch.queue[p] as int] == 0,
        decreases MAX_PLAYERS - i,
    {
        let ghost b = bfs_sources(s0, *map, i as nat);
        if state.life(i) == Life::Alive {
            let tx = state.players.x[i].floor_int();
            let ty = state.players.y[i].floor_int();
            if !map.solid(tx, ty) {
                let idx = ty as usize * MAP_W + tx as usize;
                if scratch.dist[idx] == UNSEEN {
                    proof {
                        lemma_seen_count_bound(scratch.dist, TILES as nat, idx as int);
                        lemma_seen_count_update(scratch.dist, idx as int, 0, TILES as nat);
                    }
                    visit(&mut scratch.dist, &mut scratch.queue, &mut tail, idx, 0);
                    proof {
                        let b2 = bfs_sources(s0, *map, (i + 1) as nat);
                        assert(b2 == bfs_visit(b, idx as int, 0));
                        assert(b2.dist =~= scratch.dist);
                        assert(b2.queue =~= scratch.queue);
                    }
                }
            }
        }
        i = i + 1;
    }
    let ghost seeded = bfs_sources(s0, *map, MAX_PLAYERS as nat);
    // expansion loop
    while head < tail
        invariant
            *state == s0,
            forall|t: int| 0 <= t < TILES ==> #[trigger] dir[t] <= 8,
            ({
                let b = Bfs {
                    dist: scratch.dist,
                    queue: scratch.queue,
                    head: head as int,
                    tail: tail as int,
                    dir: dir,
                };
                &&& bfs_ok(b)
                &&& bfs_run(seeded, *map, TILES as nat) == bfs_run(b, *map, (TILES - head) as nat)
            }),
        decreases TILES - head,
    {
        let ghost b0 = Bfs {
            dist: scratch.dist,
            queue: scratch.queue,
            head: head as int,
            tail: tail as int,
            dir: dir,
        };
        let cur = scratch.queue[head] as usize;
        head = head + 1;
        let cx = (cur % MAP_W) as i32;
        let cy = (cur / MAP_W) as i32;
        let dcur = scratch.dist[cur];
        let ghost b1 = Bfs { head: head as int, ..b0 };
        let mut d: usize = 0;
        while d < 8
            invariant
                d <= 8,
                *state == s0,
                cur < TILES,
                cx == (cur as int) % (MAP_W as int),
                cy == (cur as int) / (MAP_W as int),
                dcur < head,
                head <= tail,
                dcur == scratch.dist[cur as int],
                forall|t: int| 0 <= t < TILES ==> #[trigger] dir[t] <= 8,
                ({
                    let b = Bfs {
                        dist: scratch.dist,
                        queue: scratch.queue,
                        head: head as int,
                        tail: tail as int,
                        dir: dir,
                    };
                    &&& bfs_ok(b)
                    &&& b == bfs_neighbours(b1, *map, cur as int, d as nat)
                }),
            decreases 8 - d,
        {
            let ghost bb = Bfs {
                dist: scratch.dist,
                queue: scratch.queue,
                head: head as int,
                tail: tail as int,
                dir: dir,
            };
            let (ox, oy) = offs(d);
            let nx = cx + ox;
            let ny = cy + oy;
            if map.solid(nx, ny) {
            } else if ox != 0 && oy != 0 && (map.solid(cx + ox, cy) || map.solid(cx, cy + oy)) {
            } else {
                let n = ny as usize * MAP_W + nx as usize;
                if scratch.dist[n] == UNSEEN {
                    proof {
                        lemma_seen_count_bound(scratch.dist, TILES as nat, n as int);
                        lemma_seen_count_update(
                            scratch.dist,
                            n as int,
                            (dcur + 1) as u16,
                            TILES as nat,
                        );
                    }
                    visit(&mut scratch.dist, &mut scratch.queue, &mut tail, n, dcur + 1);
                    dir[n] = ((d + 4) % 8 + 1) as u8;
                    proof {
                        let want = bfs_neighbour(bb, *map, cur as int, d as int);
                        assert(scratch.dist =~= want.dist);
                        assert(scratch.queue =~= want.queue);
                        assert(dir =~= want.dir);
                        assert(scratch.dist[cur as int] == dcur);
                    }
                }
            }
            d = d + 1;
        }
        proof {
            assert(bfs_expand(b0, *map) == bfs_neighbours(b1, *map, cur as int, 8));
        }
    }
    state.flow.dir = dir;
    proof {
        assert(flow_spec(s0, *map) == dir);
    }
}

// ---------------------------------------------------------------- laws
/// Whether tile `t` is the tile of an alive player (among the first `n`) standing on floor.
pub open spec fn is_source(s: State, map: MapData, t: int, n: nat) -> bool {
    exists|i: int|
        0 <= i < n && life_of(#[trigger] s.players.life[i]) == Life::Alive && !map.is_solid(
            floor_frac(s.players.x[i].0 as int),
            floor_frac(s.players.y[i].0 as int),
        ) && t == floor_frac(s.players.y[i].0 as int) * (MAP_W as int) + floor_frac(
            s.players.x[i].0 as int,
        )
}

/// The neighbour tile that direction `dir` (1..=8) of tile `t` points to.
pub open spec fn pointed(t: int, dir: u8) -> (int, int) {
    let (ox, oy) = offs_spec(dir - 1);
    (t % (MAP_W as int) + ox, t / (MAP_W as int) + oy)
}

/// What the search keeps: reached tiles are floor; a tile reached at distance `d > 0` points
/// to an open neighbour reached at `d - 1`; tiles at distance 0 are players' tiles.
#[verifier::opaque]
pub open spec fn descends(b: Bfs, s: State, map: MapData) -> bool {
    forall|t: int|
        0 <= t < TILES && #[trigger] b.dist[t] != UNSEEN ==> {
            &&& !map.is_solid(t % (MAP_W as int), t / (MAP_W as int))
            &&& b.dist[t] == 0 ==> is_source(s, map, t, MAX_PLAYERS as nat)
            &&& b.dist[t] > 0 ==> {
                &&& 1 <= b.dir[t] <= 8
                &&& !map.is_solid(pointed(t, b.dir[t]).0, pointed(t, b.dir[t]).1)
                &&& b.dist[pointed(t, b.dir[t]).1 * (MAP_W as int) + pointed(t, b.dir[t]).0]
                    == b.dist[t] - 1
            }
        }
}

proof fn lemma_sources_descend(s: State, map: MapData, n: nat)
    requires
        n <= MAX_PLAYERS,
    ensures
        bfs_ok(bfs_sources(s, map, n)),
        descends(bfs_sources(s, map, n), s, map),
        bfs_sources(s, map, n).head == 0,
        forall|t: int|
            0 <= t < TILES && #[trigger] bfs_sources(s, map, n).dist[t] != UNSEEN ==> bfs_sources(
                s,
                map,
                n,
            ).dist[t] == 0 && is_source(s, map, t, n),
    decreases n,
{
    broadcast use vstd::array::group_array_axioms;

    reveal(descends);
    if n == 0 {
        lemma_seen_count_empty(TILES as nat);
    } else {
        let m = (n - 1) as nat;
        lemma_sources_descend(s, map, m);
        let b = bfs_sources(s, map, m);
        let i = m as int;
        let tx = floor_frac(s.players.x[i].0 as int);
        let ty = floor_frac(s.players.y[i].0 as int);
        if life_of(s.players.life[i]) == Life::Alive && !map.is_solid(tx, ty) {
            let idx = ty * (MAP_W as int) + tx;
            if b.dist[idx] == UNSEEN {
                lemma_seen_count_bound(b.dist, TILES as nat, idx);
                lemma_seen_count_update(b.dist, idx, 0, TILES as nat);
                let b2 = bfs_sources(s, map, n);
                assert(idx % (MAP_W as int) == tx && idx / (MAP_W as int) == ty);
                assert forall|t: int|
                    0 <= t < TILES && #[trigger] b2.dist[t] != UNSEEN implies b2.dist[t] == 0
                    && is_source(s, map, t, n) by {
                    if t == idx {
                        assert(life_of(s.players.life[i]) == Life::Alive);
                    } else {
                        assert(b.dist[t] != UNSEEN);
                        let w = choose|j: int|
                            0 <= j < m && life_of(#[trigger] s.players.life[j]) == Life::Alive
                                && !map.is_solid(
                                floor_frac(s.players.x[j].0 as int),
                                floor_frac(s.players.y[j].0 as int),
                            ) && t == floor_frac(s.players.y[j].0 as int) * (MAP_W as int)
                                + floor_frac(s.players.x[j].0 as int);
                        assert(life_of(s.players.life[w]) == Life::Alive);
                    }
                }
                assert forall|t: int|
                    0 <= t < TILES && #[trigger] b2.dist[t] != UNSEEN implies !map.is_solid(
                    t % (MAP_W as int),
                    t / (MAP_W as int),
                ) by {
                    if t != idx {
                        assert(b.dist[t] != UNSEEN);
                    }
                }
            }
        }
        let b2 = bfs_sources(s, map, n);
        assert forall|t: int|
            0 <= t < TILES && #[trigger] b2.dist[t] != UNSEEN implies is_source(
            s,
            map,
            t,
            MAX_PLAYERS as nat,
        ) by {
            assert(is_source(s, map, t, n));
            let w = choose|j: int|
                0 <= j < n && life_of(#[trigger] s.players.life[j]) == Life::Alive && !map.is_solid(
                    floor_frac(s.players.x[j].0 as int),
                    floor_frac(s.players.y[j].0 as int),
                ) && t == floor_frac(s.players.y[j].0 as int) * (MAP_W as int) + floor_frac(
                    s.players.x[j].0 as int,
                );
            assert(life_of(s.players.life[w]) == Life::Alive);
        }
    }
}

proof fn lemma_visit_ok(b: Bfs, n: int, v: u16)
    requires
        bfs_ok(b),
        0 <= n < TILES,
        b.dist[n] == UNSEEN,
        v != UNSEEN,
        v <= b.tail,
    ensures
        bfs_ok(bfs_visit(b, n, v as int)),
{
    broadcast use vstd::array::group_array_axioms;

    lemma_seen_count_bound(b.dist, TILES as nat, n);
    lemma_seen_count_update(b.dist, n, v, TILES as nat);
    let r = bfs_visit(b, n, v as int);
    assert forall|p: int| 0 <= p < r.tail implies r.dist[#[trigger] r.queue[p] as int] <= p by {
        if p < b.tail {
            assert(b.queue[p] as int != n);
        }
    }
}

proof fn lemma_visit_descends(b: Bfs, s: State, map: MapData, cur: int, n: int, dv: u8)
    requires
        descends(b, s, map),
        0 <= cur < TILES,
        b.dist[cur] != UNSEEN,
        b.dist[cur] + 1 < UNSEEN,
        0 <= n < TILES,
        b.dist[n] == UNSEEN,
        !map.is_solid(n % (MAP_W as int), n / (MAP_W as int)),
        1 <= dv <= 8,
        pointed(n, dv).1 * (MAP_W as int) + pointed(n, dv).0 == cur,
        pointed(n, dv) == (cur % (MAP_W as int), cur / (MAP_W as int)),
    ensures
        descends(
            Bfs {
                dir: vstd::array::spec_array_update(
                    bfs_visit(b, n, b.dist[cur] + 1).dir,
                    n,
                    dv,
                ),
                ..bfs_visit(b, n, b.dist[cur] + 1)
            },
            s,
            map,
        ),
{
    broadcast use vstd::array::group_array_axioms;

    reveal(descends);
    let r = Bfs {
        dir: vstd::array::spec_array_update(bfs_visit(b, n, b.dist[cur] + 1).dir, n, dv),
        ..bfs_visit(b, n, b.dist[cur] + 1)
    };
    assert forall|t: int| 0 <= t < TILES && #[trigger] r.dist[t] != UNSEEN implies {
        &&& !map.is_solid(t % (MAP_W as int), t / (MAP_W as int))
        &&& r.dist[t] == 0 ==> is_source(s, map, t, MAX_PLAYERS as nat)
        &&& r.dist[t] > 0 ==> {
            &&& 1 <= r.dir[t] <= 8
            &&& !map.is_solid(pointed(t, r.dir[t]).0, pointed(t, r.dir[t]).1)
            &&& r.dist[pointed(t, r.dir[t]).1 * (MAP_W as int) + pointed(t, r.dir[t]).0]
                == r.dist[t] - 1
        }
    } by {
        if t == n {
            assert(b.dist[cur] != UNSEEN);
        } else {
            assert(b.dist[t] != UNSEEN);
            if b.dist[t] > 0 {
                let u = pointed(t, b.dir[t]).1 * (MAP_W as int) + pointed(t, b.dir[t]).0;
                assert(b.dist[u] == b.dist[t] - 1);
            }
        }
    }
}

proof fn lemma_neighbour_descends(b: Bfs, s: State, map: MapData, cur: int, d: int)
    requires
        bfs_ok(b),
        descends(b, s, map),
        0 <= cur < TILES,
        b.dist[cur] != UNSEEN,
        b.dist[cur] < b.head,
        0 <= d < 8,
    ensures
        bfs_ok(bfs_neighbour(b, map, cur, d)),
        descends(bfs_neighbour(b, map, cur, d), s, map),
        bfs_neighbour(b, map, cur, d).head == b.head,
        bfs_neighbour(b, map, cur, d).dist[cur] == b.dist[cur],
{
    broadcast use vstd::array::group_array_axioms;

    let (ox, oy) = offs_spec(d);
    let cx = cur % (MAP_W as int);
    let cy = cur / (MAP_W as int);
    let nx = cx + ox;
    let ny = cy + oy;
    if !map.is_solid(nx, ny) && !(ox != 0 && oy != 0 && (map.is_solid(cx + ox, cy)
        || map.is_solid(cx, cy + oy))) {
        let n = ny * (MAP_W as int) + nx;
        if b.dist[n] == UNSEEN {
            assert(0 <= nx < MAP_W && 0 <= ny < MAP_H);
            assert(n % (MAP_W as int) == nx && n / (MAP_W as int) == ny);
            let k = (d + 4) % 8;
            let dv = (k + 1) as u8;
            assert(offs_spec(k).0 == -ox && offs_spec(k).1 == -oy);
            assert(pointed(n, dv) == (cx, cy));
            assert(cy * (MAP_W as int) + cx == cur);
            lemma_visit_ok(b, n, (b.dist[cur] + 1) as u16);
            lemma_visit_descends(b, s, map, cur, n, dv);
        }
    }
}

proof fn lemma_neighbours_descend(b: Bfs, s: State, map: MapData, cur: int, k: nat)
    requires
        bfs_ok(b),
        descends(b, s, map),
        0 <= cur < TILES,
        b.dist[cur] != UNSEEN,
        b.dist[cur] < b.head,
        k <= 8,
    ensures
        bfs_ok(bfs_neighbours(b, map, cur, k)),
        descends(bfs_neighbours(b, map, cur, k), s, map),
        bfs_neighbours(b, map, cur, k).head == b.head,
        bfs_neighbours(b, map, cur, k).dist[cur] == b.dist[cur],
    decreases k,
{
    if k > 0 {
        let m = (k - 1) as nat;
        lemma_neighbours_descend(b, s, map, cur, m);
        let p = bfs_neighbours(b, map, cur, m);
        lemma_neighbour_descends(p, s, map, cur, m as int);
    }
}

proof fn lemma_run_descends(b: Bfs, s: State, map: MapData, fuel: nat)
    requires
        bfs_ok(b),
        descends(b, s, map),
    ensures
        descends(bfs_run(b, map, fuel), s, map),
    decreases fuel,
{
    if fuel > 0 && b.head < b.tail {
        let cur = b.queue[b.head] as int;
        let b1 = Bfs { head: b.head + 1, ..b };
        assert(b.dist[cur] <= b.head);
        assert(bfs_ok(b1)) by {
            assert forall|p: int| 0 <= p < b1.tail implies #[trigger] b1.queue[p] < TILES by {}
        }
        assert(descends(b1, s, map)) by {
            reveal(descends);
        }
        lemma_neighbours_descend(b1, s, map, cur, 8);
        lemma_run_descends(bfs_expand(b, map), s, map, (fuel - 1) as nat);
    }
}

/// Following the flow field leads to an alive player: every tile the search reached at a
/// distance `d > 0` is floor and its stored direction points to an open neighbour reached at
/// `d - 1`; the tiles reached at distance 0 are alive players' tiles.
pub proof fn lemma_flow_leads_to_player(s: State, map: MapData)
    ensures
        descends(flow_search(s, map), s, map),
        flow_spec(s, map) == flow_search(s, map).dir,
{
    lemma_sources_descend(s, map, MAX_PLAYERS as nat);
    lemma_run_descends(bfs_sources(s, map, MAX_PLAYERS as nat), s, map, TILES as nat);
}

// ---------------------------------------------------------------- shortest walks
/// Tile `u`'s neighbour in direction `d` (0..8) is walkable from `u`: floor, and for a
/// diagonal both orthogonal neighbours are floor too (no corner cutting).
pub open spec fn step_ok(map: MapData, u: int, d: int) -> bool {
    let (ox, oy) = offs_spec(d);
    let cx = u % (MAP_W as int);
    let cy = u / (MAP_W as int);
    !map.is_solid(cx + ox, cy + oy) && !(ox != 0 && oy != 0 && (map.is_solid(cx + ox, cy)
        || map.is_solid(cx, cy + oy)))
}

/// Tile `u`'s neighbour in direction `d` (0..8).
pub open spec fn step_to(u: int, d: int) -> int {
    let (ox, oy) = offs_spec(d);
    (u / (MAP_W as int) + oy) * (MAP_W as int) + u % (MAP_W as int) + ox
}

/// A walk: every step goes to a walkable neighbour.
pub open spec fn is_walk(map: MapData, w: Seq<int>) -> bool {
    forall|i: int|
        0 <= i < w.len() - 1 ==> exists|d: int|
            0 <= d < 8 && step_ok(map, #[trigger] w[i], d) && step_to(w[i], d) == w[i + 1]
}

/// The distance of the last expanded tile (0 before any expansion).
pub open spec fn top(b: Bfs) -> int {
    if b.head == 0 {
        0
    } else {
        b.dist[b.queue[b.head - 1] as int] as int
    }
}

/// Every walkable neighbour of `u` is reached, at most one step farther than `u`.
pub open spec fn closed_at(b: Bfs, map: MapData, u: int, k: int) -> bool {
    forall|d: int|
        0 <= d < k && #[trigger] step_ok(map, u, d) ==> b.dist[step_to(u, d)] != UNSEEN
            && b.dist[step_to(u, d)] <= b.dist[u] + 1
}

/// The breadth-first order: every reached tile is queued; queued distances never decrease and
/// stay within one of the last expanded tile; expanded tiles (the first `m`) are closed.
pub open spec fn bfs_order(b: Bfs, map: MapData, m: int) -> bool {
    &&& bfs_ok(b)
    &&& forall|t: int|
        0 <= t < TILES && #[trigger] b.dist[t] != UNSEEN ==> exists|p: int|
            0 <= p < b.tail && b.queue[p] == t
    &&& forall|p: int, q: int|
        0 <= p <= q < b.tail ==> b.dist[#[trigger] b.queue[p] as int] <= b.dist[#[trigger] b.queue[q] as int]
    &&& forall|t: int| 0 <= t < TILES && #[trigger] b.dist[t] != UNSEEN ==> b.dist[t] <= top(b) + 1
    &&& forall|p: int| 0 <= p < m ==> closed_at(b, map, #[trigger] b.queue[p] as int, 8)
}

proof fn lemma_sources_order(s: State, map: MapData, n: nat)
    requires
        n <= MAX_PLAYERS,
    ensures
        bfs_order(bfs_sources(s, map, n), map, 0),
        forall|i: int|
            0 <= i < n && life_of(#[trigger] s.players.life[i]) == Life::Alive && !map.is_solid(
                floor_frac(s.players.x[i].0 as int),
                floor_frac(s.players.y[i].0 as int),
            ) ==> bfs_sources(s, map, n).dist[floor_frac(s.players.y[i].0 as int) * (MAP_W as int)
                + floor_frac(s.players.x[i].0 as int)] == 0,
    decreases n,
{
    broadcast use vstd::array::group_array_axioms;

    lemma_sources_descend(s, map, n);
    let b = bfs_sources(s, map, n);
    if n > 0 {
        let m = (n - 1) as nat;
        lemma_sources_order(s, map, m);
        lemma_sources_descend(s, map, m);
        let a = bfs_sources(s, map, m);
        assert forall|t: int| 0 <= t < TILES && #[trigger] b.dist[t] != UNSEEN implies exists|p: int|
            0 <= p < b.tail && b.queue[p] == t by {
            if a.dist[t] != UNSEEN {
                let p = choose|p: int| 0 <= p < a.tail && a.queue[p] == t;
                assert(b.queue[p] == t);
            } else {
                assert(b.queue[a.tail] == t);
            }
        }
        assert forall|i: int|
            0 <= i < n && life_of(#[trigger] s.players.life[i]) == Life::Alive && !map.is_solid(
                floor_frac(s.players.x[i].0 as int),
                floor_frac(s.players.y[i].0 as int),
            ) implies b.dist[floor_frac(s.players.y[i].0 as int) * (MAP_W as int) + floor_frac(
            s.players.x[i].0 as int,
        )] == 0 by {
            let idx = floor_frac(s.players.y[i].0 as int) * (MAP_W as int) + floor_frac(
                s.players.x[i].0 as int,
            );
            if i < m {
                assert(a.dist[idx] == 0);
            }
            assert(0 <= idx < TILES);
            assert(b.dist[idx] != UNSEEN);
        }
    }
    assert forall|p: int, q: int| 0 <= p <= q < b.tail implies b.dist[#[trigger] b.queue[p] as int]
        <= b.dist[#[trigger] b.queue[q] as int] by {
        assert(b.dist[b.queue[p] as int] <= p);
        assert(b.dist[b.queue[q] as int] <= q);
    }
}

proof fn lemma_neighbour_order(b: Bfs, map: MapData, cur: int, d: int)
    requires
        bfs_order(b, map, b.head - 1),
        1 <= b.head <= b.tail,
        cur == b.queue[b.head - 1] as int,
        closed_at(b, map, cur, d),
        0 <= d < 8,
    ensures
        bfs_order(bfs_neighbour(b, map, cur, d), map, b.head - 1),
        bfs_neighbour(b, map, cur, d).head == b.head,
        bfs_neighbour(b, map, cur, d).queue[b.head - 1] == b.queue[b.head - 1],
        closed_at(bfs_neighbour(b, map, cur, d), map, cur, d + 1),
        forall|t: int|
            0 <= t < TILES && b.dist[t] != UNSEEN ==> #[trigger] bfs_neighbour(
                b,
                map,
                cur,
                d,
            ).dist[t] == b.dist[t],
{
    broadcast use vstd::array::group_array_axioms;

    let r = bfs_neighbour(b, map, cur, d);
    let (ox, oy) = offs_spec(d);
    let cx = cur % (MAP_W as int);
    let cy = cur / (MAP_W as int);
    let nx = cx + ox;
    let ny = cy + oy;
    let n = ny * (MAP_W as int) + nx;
    assert(0 <= cur < TILES);
    assert(b.dist[cur] <= b.head - 1);
    assert(top(b) == b.dist[cur]);
    if step_ok(map, cur, d) && b.dist[n] == UNSEEN {
        assert(0 <= nx < MAP_W && 0 <= ny < MAP_H);
        assert(0 <= n < TILES);
        lemma_visit_ok(b, n, (b.dist[cur] + 1) as u16);
        assert(r.dist[n] == b.dist[cur] + 1);
        assert(r.queue[b.tail] == n);
        assert forall|t: int| 0 <= t < TILES && #[trigger] r.dist[t] != UNSEEN implies exists|p: int|
            0 <= p < r.tail && r.queue[p] == t by {
            if t != n {
                assert(b.dist[t] != UNSEEN);
                let p = choose|p: int| 0 <= p < b.tail && b.queue[p] == t;
                assert(r.queue[p] == t);
            }
        }
        assert forall|p: int, q: int| 0 <= p <= q < r.tail implies r.dist[#[trigger] r.queue[p] as int]
            <= r.dist[#[trigger] r.queue[q] as int] by {
            if q == b.tail {
                if p < b.tail {
                    assert(b.dist[b.queue[p] as int] <= p);
                    assert(b.dist[b.queue[p] as int] != UNSEEN);
                    assert(b.queue[p] as int != n);
                }
            } else {
                assert(b.dist[b.queue[p] as int] <= p);
                assert(b.dist[b.queue[q] as int] <= q);
                assert(b.queue[p] as int != n && b.queue[q] as int != n);
            }
        }
        assert(top(r) == top(b));
        assert forall|p: int| 0 <= p < b.head - 1 implies closed_at(r, map, #[trigger] r.queue[p] as int, 8) by {
            let u = b.queue[p] as int;
            assert(closed_at(b, map, u, 8));
            assert(b.dist[u] <= p);
            assert forall|e: int| 0 <= e < 8 && #[trigger] step_ok(map, u, e) implies r.dist[step_to(u, e)]
                != UNSEEN && r.dist[step_to(u, e)] <= r.dist[u] + 1 by {
                assert(b.dist[step_to(u, e)] != UNSEEN);
            }
        }
        assert forall|e: int| 0 <= e < d + 1 && #[trigger] step_ok(map, cur, e) implies r.dist[step_to(cur, e)]
            != UNSEEN && r.dist[step_to(cur, e)] <= r.dist[cur] + 1 by {
            if e < d {
                assert(b.dist[step_to(cur, e)] != UNSEEN);
            }
        }
    } else {
        if step_ok(map, cur, d) {
            assert(b.dist[n] <= top(b) + 1);
            assert(step_to(cur, d) == n);
        }
    }
}

proof fn lemma_neighbours_order(b: Bfs, map: MapData, cur: int, k: nat)
    requires
        bfs_order(b, map, b.head - 1),
        1 <= b.head <= b.tail,
        cur == b.queue[b.head - 1] as int,
        k <= 8,
    ensures
        bfs_order(bfs_neighbours(b, map, cur, k), map, b.head - 1),
        bfs_neighbours(b, map, cur, k).head == b.head,
        bfs_neighbours(b, map, cur, k).queue[b.head - 1] == b.queue[b.head - 1],
        closed_at(bfs_neighbours(b, map, cur, k), map, cur, k as int),
        forall|t: int|
            0 <= t < TILES && b.dist[t] != UNSEEN ==> #[trigger] bfs_neighbours(
                b,
                map,
                cur,
                k,
            ).dist[t] == b.dist[t],
    decreases k,
{
    if k > 0 {
        let m = (k - 1) as nat;
        lemma_neighbours_order(b, map, cur, m);
        let p = bfs_neighbours(b, map, cur, m);
        lemma_neighbour_order(p, map, cur, m as int);
        let r = bfs_neighbours(b, map, cur, k);
        assert forall|t: int| 0 <= t < TILES && b.dist[t] != UNSEEN implies #[trigger] r.dist[t]
            == b.dist[t] by {
            assert(p.dist[t] == b.dist[t]);
        }
    }
}

proof fn lemma_run_order(b: Bfs, map: MapData, fuel: nat)
    requires
        bfs_order(b, map, b.head),
        TILES - b.head <= fuel,
    ensures
        bfs_order(bfs_run(b, map, fuel), map, bfs_run(b, map, fuel).head),
        bfs_run(b, map, fuel).head == bfs_run(b, map, fuel).tail,
        forall|t: int|
            0 <= t < TILES && b.dist[t] != UNSEEN ==> #[trigger] bfs_run(b, map, fuel).dist[t]
                == b.dist[t],
    decreases fuel,
{
    if fuel > 0 && b.head < b.tail {
        let cur = b.queue[b.head] as int;
        let b1 = Bfs { head: b.head + 1, ..b };
        assert(bfs_order(b1, map, b1.head - 1)) by {
            if b.head > 0 {
                assert(b.dist[b.queue[b.head - 1] as int] <= b.dist[b.queue[b.head] as int]);
            }
            assert(top(b) <= top(b1));
            assert forall|t: int| 0 <= t < TILES && #[trigger] b1.dist[t] != UNSEEN implies exists|p: int|
                0 <= p < b1.tail && b1.queue[p] == t by {
                let p = choose|p: int| 0 <= p < b.tail && b.queue[p] == t;
            }
        }
        lemma_neighbours_order(b1, map, cur, 8);
        let e = bfs_expand(b, map);
        assert(bfs_order(e, map, e.head)) by {
            assert forall|p: int| 0 <= p < e.head implies closed_at(e, map, #[trigger] e.queue[p] as int, 8) by {
                if p == b.head {
                    assert(e.queue[p] == b.queue[b.head]);
                }
            }
        }
        lemma_run_order(e, map, (fuel - 1) as nat);
        let r = bfs_run(b, map, fuel);
        assert forall|t: int| 0 <= t < TILES && b.dist[t] != UNSEEN implies #[trigger] r.dist[t]
            == b.dist[t] by {
            assert(e.dist[t] == b.dist[t]);
        }
    } else {
        assert(bfs_ok(b));
    }
}

proof fn lemma_walk_within(b: Bfs, map: MapData, w: Seq<int>, i: int)
    requires
        bfs_order(b, map, b.head),
        b.head == b.tail,
        w.len() >= 1,
        0 <= w[0] < TILES,
        b.dist[w[0]] == 0,
        is_walk(map, w),
        0 <= i < w.len(),
    ensures
        0 <= w[i] < TILES,
        b.dist[w[i]] != UNSEEN,
        b.dist[w[i]] <= i,
    decreases i,
{
    if i > 0 {
        lemma_walk_within(b, map, w, i - 1);
        let u = w[i - 1];
        let d = choose|d: int|
            0 <= d < 8 && #[trigger] step_ok(map, w[i - 1], d) && step_to(w[i - 1], d) == w[i];
        assert(0 <= d < 8 && step_ok(map, w[i - 1], d) && step_to(w[i - 1], d) == w[i]);
        let p = choose|p: int| 0 <= p < b.tail && b.queue[p] == u;
        assert(closed_at(b, map, b.queue[p] as int, 8));
        let (ox, oy) = offs_spec(d);
        assert(!map.is_solid(u % (MAP_W as int) + ox, u / (MAP_W as int) + oy));
    }
}

/// The flow field's search finds shortest walks: a tile reachable from an alive player's floor
/// tile by a walk of `k` steps (8-connected, no corner cutting) is reached, at distance at most
/// `k`. With [`lemma_flow_leads_to_player`], following the field from any reached tile reaches
/// a nearest alive player along a shortest walk.
pub proof fn lemma_flow_shortest(s: State, map: MapData, w: Seq<int>, i: int)
    requires
        0 <= i < MAX_PLAYERS,
        life_of(s.players.life[i]) == Life::Alive,
        !map.is_solid(floor_frac(s.players.x[i].0 as int), floor_frac(s.players.y[i].0 as int)),
        w.len() >= 1,
        w[0] == floor_frac(s.players.y[i].0 as int) * (MAP_W as int) + floor_frac(
            s.players.x[i].0 as int,
        ),
        is_walk(map, w),
    ensures
        flow_search(s, map).dist[w.last()] != UNSEEN,
        flow_search(s, map).dist[w.last()] <= w.len() - 1,
{
    let b0 = bfs_sources(s, map, MAX_PLAYERS as nat);
    lemma_sources_order(s, map, MAX_PLAYERS as nat);
    lemma_sources_descend(s, map, MAX_PLAYERS as nat);
    assert(b0.dist[w[0]] == 0);
    assert(0 <= w[0] < TILES);
    lemma_run_order(b0, map, TILES as nat);
    let b = flow_search(s, map);
    assert(b.dist[w[0]] == 0);
    lemma_walk_within(b, map, w, w.len() - 1);
}

} // verus!
