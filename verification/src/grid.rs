//! Uniform-grid broadphase rebuilt every step with a counting sort.
//! O(N) build, zero allocation after construction, deterministic in-cell order (slot order).

use crate::config::{MAP_H, MAP_W, MAX_ENEMIES, TILES};
use crate::fx::{floor_frac, Fixed};
use crate::state::Enemies;
use vstd::prelude::*;

verus! {

/// Marker for "not on the grid".
const NONE: u16 = 65535;

/// Number of prefix-sum slots (one per cell, plus the end).
pub const STARTS: usize = 1201;

/// The cell (row-major tile index) holding enemy `i`, or -1 when it is dead or off the map.
pub open spec fn cell_spec(e: Enemies, i: int) -> int {
    if e.alive[i] == 0 {
        -1
    } else {
        let tx = floor_frac(e.x[i].0 as int);
        let ty = floor_frac(e.y[i].0 as int);
        if 0 <= tx < MAP_W && 0 <= ty < MAP_H {
            ty * (MAP_W as int) + tx
        } else {
            -1
        }
    }
}

/// Slots `< n` whose enemy sits in cell `c`, in slot order.
pub open spec fn cell_slots(e: Enemies, c: int, n: nat) -> Seq<usize>
    decreases n,
{
    if n == 0 {
        Seq::empty()
    } else {
        let p = cell_slots(e, c, (n - 1) as nat);
        if cell_spec(e, n - 1) == c {
            p.push((n - 1) as usize)
        } else {
            p
        }
    }
}

/// The slots in the cell at tile `(cx, cy)`; nothing for off-map tiles.
pub open spec fn cell_list(e: Enemies, cx: int, cy: int) -> Seq<usize> {
    if 0 <= cx < MAP_W && 0 <= cy < MAP_H {
        cell_slots(e, cy * (MAP_W as int) + cx, MAX_ENEMIES as nat)
    } else {
        Seq::empty()
    }
}

/// The first `k` of the 3×3 cells around `(tx, ty)` (rows top to bottom, each left to right),
/// concatenated.
pub open spec fn near_upto(e: Enemies, tx: int, ty: int, k: nat) -> Seq<usize>
    decreases k,
{
    if k == 0 {
        Seq::empty()
    } else {
        let j = k - 1;
        near_upto(e, tx, ty, (k - 1) as nat) + cell_list(e, tx + j % 3 - 1, ty + j / 3 - 1)
    }
}

/// Enemy slots in the 3×3 cells around tile `(tx, ty)`, in visiting order.
pub open spec fn near_spec(e: Enemies, tx: int, ty: int) -> Seq<usize> {
    near_upto(e, tx, ty, 9)
}

/// Cell = one tile.
pub struct EnemyGrid {
    start: [u16; STARTS],
    items: [u16; MAX_ENEMIES],
    cell_of: [u16; MAX_ENEMIES],
    source: Ghost<Enemies>,
}

/// Number of slots `< n` whose cell lies in `0..c`.
spec fn cnt_below(e: Enemies, n: nat, c: int) -> nat
    decreases n,
{
    if n == 0 {
        0
    } else {
        let p = cnt_below(e, (n - 1) as nat, c);
        if 0 <= cell_spec(e, n - 1) < c {
            p + 1
        } else {
            p
        }
    }
}

/// Sum of the cell sizes of cells `0..c`.
spec fn psum(e: Enemies, c: nat) -> nat
    decreases c,
{
    if c == 0 {
        0
    } else {
        psum(e, (c - 1) as nat) + cell_slots(e, c - 1, MAX_ENEMIES as nat).len()
    }
}

proof fn lemma_cnt_below_step(e: Enemies, n: nat, c: int)
    requires
        c >= 0,
    ensures
        cnt_below(e, n, c + 1) == cnt_below(e, n, c) + cell_slots(e, c, n).len(),
    decreases n,
{
    if n > 0 {
        lemma_cnt_below_step(e, (n - 1) as nat, c);
    }
}

proof fn lemma_cnt_below_zero(e: Enemies, n: nat)
    ensures
        cnt_below(e, n, 0) == 0,
    decreases n,
{
    if n > 0 {
        lemma_cnt_below_zero(e, (n - 1) as nat);
    }
}

proof fn lemma_cnt_below_le(e: Enemies, n: nat, c: int)
    ensures
        cnt_below(e, n, c) <= n,
    decreases n,
{
    if n > 0 {
        lemma_cnt_below_le(e, (n - 1) as nat, c);
    }
}

proof fn lemma_psum_is_cnt(e: Enemies, c: nat)
    ensures
        psum(e, c) == cnt_below(e, MAX_ENEMIES as nat, c as int),
    decreases c,
{
    if c > 0 {
        lemma_psum_is_cnt(e, (c - 1) as nat);
        lemma_cnt_below_step(e, MAX_ENEMIES as nat, c - 1);
    } else {
        lemma_cnt_below_zero(e, MAX_ENEMIES as nat);
    }
}

proof fn lemma_psum_mono(e: Enemies, a: nat, b: nat)
    requires
        a <= b,
    ensures
        psum(e, a) <= psum(e, b),
    decreases b - a,
{
    if a < b {
        lemma_psum_mono(e, a, (b - 1) as nat);
    }
}

proof fn lemma_psum_bound(e: Enemies, c: nat)
    ensures
        psum(e, c) <= MAX_ENEMIES,
{
    lemma_psum_is_cnt(e, c);
    lemma_cnt_below_le(e, MAX_ENEMIES as nat, c as int);
}

/// `cell_slots(e, c, i)` is a prefix of `cell_slots(e, c, n)` for `i <= n`.
proof fn lemma_cell_slots_prefix(e: Enemies, c: int, i: nat, n: nat)
    requires
        i <= n,
    ensures
        cell_slots(e, c, i).len() <= cell_slots(e, c, n).len(),
        forall|k: int|
            0 <= k < cell_slots(e, c, i).len() ==> #[trigger] cell_slots(e, c, n)[k] == cell_slots(
                e,
                c,
                i,
            )[k],
    decreases n - i,
{
    if i < n {
        lemma_cell_slots_prefix(e, c, i, (n - 1) as nat);
    }
}

proof fn lemma_cell_slots_len(e: Enemies, c: int, n: nat)
    ensures
        cell_slots(e, c, n).len() <= n,
        forall|k: int|
            0 <= k < cell_slots(e, c, n).len() ==> #[trigger] cell_slots(e, c, n)[k] < n,
    decreases n,
{
    if n > 0 {
        lemma_cell_slots_len(e, c, (n - 1) as nat);
    }
}

/// No enemy slot in use.
pub open spec fn no_enemies() -> Enemies {
    Enemies {
        x: [Fixed(0); MAX_ENEMIES],
        y: [Fixed(0); MAX_ENEMIES],
        hp: [0i32; MAX_ENEMIES],
        kind: [0u8; MAX_ENEMIES],
        alive: [0u8; MAX_ENEMIES],
        cooldown: [0u8; MAX_ENEMIES],
        stagger: [0u8; MAX_ENEMIES],
    }
}

proof fn lemma_no_enemies_no_slots(c: int, n: nat)
    requires
        0 <= c,
        n <= MAX_ENEMIES,
    ensures
        cell_slots(no_enemies(), c, n).len() == 0,
    decreases n,
{
    broadcast use vstd::array::group_array_axioms;

    if n > 0 {
        lemma_no_enemies_no_slots(c, (n - 1) as nat);
        assert(no_enemies().alive[n - 1] == 0);
        assert(cell_spec(no_enemies(), n - 1) == -1);
    }
}

fn cell_index(tx: i32, ty: i32) -> (r: Option<usize>)
    ensures
        r == (if 0 <= tx < MAP_W && 0 <= ty < MAP_H {
            Some((ty * (MAP_W as int) + tx) as usize)
        } else {
            None::<usize>
        }),
{
    if tx >= 0 && ty >= 0 && (tx as usize) < MAP_W && (ty as usize) < MAP_H {
        Some(ty as usize * MAP_W + tx as usize)
    } else {
        None
    }
}

impl EnemyGrid {
    /// The enemies the grid was last built from.
    pub closed spec fn source(self) -> Enemies {
        self.source@
    }

    /// The grid's buckets hold exactly the cells of [`Self::source`].
    pub closed spec fn wf(self) -> bool {
        let e = self.source@;
        &&& self.start[0] == 0
        &&& forall|c: int|
            0 <= c < TILES ==> #[trigger] self.start[c + 1] == self.start[c] + cell_slots(
                e,
                c,
                MAX_ENEMIES as nat,
            ).len() && self.start[c + 1] <= MAX_ENEMIES
        &&& forall|c: int, k: int|
            0 <= c < TILES && 0 <= k < cell_slots(e, c, MAX_ENEMIES as nat).len()
                ==> #[trigger] self.items[self.start[c] + k] == #[trigger] cell_slots(
                e,
                c,
                MAX_ENEMIES as nat,
            )[k]
    }

    /// An empty grid (no enemy anywhere).
    pub fn new() -> (r: EnemyGrid)
        ensures
            r.wf(),
            r.source() == no_enemies(),
    {
        let r = EnemyGrid {
            start: [0; STARTS],
            items: [0; MAX_ENEMIES],
            cell_of: [NONE; MAX_ENEMIES],
            source: Ghost(no_enemies()),
        };
        proof {
            assert forall|c: int| 0 <= c < TILES implies #[trigger] cell_slots(
                no_enemies(),
                c,
                MAX_ENEMIES as nat,
            ).len() == 0 by {
                lemma_no_enemies_no_slots(c, MAX_ENEMIES as nat);
            }
        }
        r
    }

    /// Rebuild from live enemies.
    pub fn rebuild(&mut self, e: &Enemies)
        ensures
            final(self).wf(),
            final(self).source() == *e,
    {
        broadcast use vstd::array::group_array_axioms;

        self.source = Ghost(*e);
        let ghost ee = *e;
        // count per cell into start[c + 1]
        let mut c0: usize = 0;
        while c0 < STARTS
            invariant
                c0 <= STARTS,
                self.source@ == *e,
                forall|c: int| 0 <= c < c0 ==> self.start[c] == 0,
            decreases STARTS - c0,
        {
            self.start[c0] = 0;
            c0 = c0 + 1;
        }
        let mut i: usize = 0;
        while i < MAX_ENEMIES
            invariant
                i <= MAX_ENEMIES,
                ee == *e,
                self.source@ == ee,
                self.start[0] == 0,
                forall|c: int|
                    0 <= c < TILES ==> #[trigger] self.start[c + 1] == cell_slots(
                        ee,
                        c,
                        i as nat,
                    ).len(),
                forall|j: int|
                    0 <= j < i ==> #[trigger] self.cell_of[j] == (if cell_spec(ee, j) < 0 {
                        NONE as int
                    } else {
                        cell_spec(ee, j)
                    }),
            decreases MAX_ENEMIES - i,
        {
            proof {
                assert forall|c: int| 0 <= c < TILES implies cell_slots(ee, c, i as nat).len()
                    <= i by {
                    lemma_cell_slots_len(ee, c, i as nat);
                }
            }
            let mut cell: u16 = NONE;
            if e.alive[i] != 0 {
                let ci = cell_index(e.x[i].floor_int(), e.y[i].floor_int());
                if let Some(c) = ci {
                    cell = c as u16;
                    self.start[c + 1] = self.start[c + 1] + 1;
                }
            }
            self.cell_of[i] = cell;
            i = i + 1;
        }
        // prefix sums: start[c] = number of enemies in cells before c
        proof {
            assert forall|k: int| 0 < k <= TILES implies #[trigger] self.start[k] == cell_slots(
                ee,
                k - 1,
                MAX_ENEMIES as nat,
            ).len() by {
                assert(self.start[(k - 1) + 1] == cell_slots(ee, k - 1, MAX_ENEMIES as nat).len());
            }
            assert(self.start[0] == psum(ee, 0));
        }
        let mut c: usize = 0;
        while c < TILES
            invariant
                c <= TILES,
                ee == *e,
                self.source@ == ee,
                forall|k: int| 0 <= k <= c ==> #[trigger] self.start[k] == psum(ee, k as nat),
                forall|k: int|
                    c < k <= TILES ==> #[trigger] self.start[k] == cell_slots(
                        ee,
                        k - 1,
                        MAX_ENEMIES as nat,
                    ).len(),
                forall|j: int|
                    0 <= j < MAX_ENEMIES ==> #[trigger] self.cell_of[j] == (if cell_spec(ee, j)
                        < 0 {
                        NONE as int
                    } else {
                        cell_spec(ee, j)
                    }),
            decreases TILES - c,
        {
            proof {
                lemma_psum_bound(ee, (c + 1) as nat);
            }
            self.start[c + 1] = self.start[c + 1] + self.start[c];
            c = c + 1;
        }
        // fill using a running cursor copy of `start`
        let mut cursor: [u16; TILES] = [0; TILES];
        let mut k: usize = 0;
        while k < TILES
            invariant
                k <= TILES,
                self.source@ == *e,
                forall|j: int| 0 <= j < k ==> cursor[j] == self.start[j],
            decreases TILES - k,
        {
            cursor[k] = self.start[k];
            k = k + 1;
        }
        proof {
            assert forall|a: int, b: int| 0 <= a <= b <= TILES implies #[trigger] self.start[a]
                <= #[trigger] self.start[b] by {
                lemma_psum_mono(ee, a as nat, b as nat);
            }
            assert forall|c: int| 0 <= c <= TILES implies #[trigger] self.start[c]
                <= MAX_ENEMIES by {
                lemma_psum_bound(ee, c as nat);
            }
        }
        let mut i: usize = 0;
        while i < MAX_ENEMIES
            invariant
                i <= MAX_ENEMIES,
                ee == *e,
                self.source@ == ee,
                self.start[0] == 0,
                forall|c: int| 0 <= c <= TILES ==> #[trigger] self.start[c] == psum(ee, c as nat),
                forall|a: int, b: int|
                    0 <= a <= b <= TILES ==> #[trigger] self.start[a] <= #[trigger] self.start[b],
                forall|c: int| 0 <= c <= TILES ==> #[trigger] self.start[c] <= MAX_ENEMIES,
                forall|j: int|
                    0 <= j < MAX_ENEMIES ==> #[trigger] self.cell_of[j] == (if cell_spec(ee, j)
                        < 0 {
                        NONE as int
                    } else {
                        cell_spec(ee, j)
                    }),
                forall|c: int|
                    0 <= c < TILES ==> #[trigger] cursor[c] == self.start[c] + cell_slots(
                        ee,
                        c,
                        i as nat,
                    ).len(),
                forall|c: int, k: int|
                    0 <= c < TILES && 0 <= k < cell_slots(ee, c, i as nat).len()
                        ==> #[trigger] self.items[self.start[c] + k] == #[trigger] cell_slots(
                        ee,
                        c,
                        i as nat,
                    )[k],
            decreases MAX_ENEMIES - i,
        {
            let cell = self.cell_of[i];
            if cell != NONE {
                let ci = cell as usize;
                proof {
                    assert(self.start[ci + 1] == self.start[ci as int] + cell_slots(
                        ee,
                        ci as int,
                        MAX_ENEMIES as nat,
                    ).len());
                    lemma_cell_slots_prefix(ee, ci as int, (i + 1) as nat, MAX_ENEMIES as nat);
                    assert(cell_slots(ee, ci as int, (i + 1) as nat).len() == cell_slots(
                        ee,
                        ci as int,
                        i as nat,
                    ).len() + 1);
                }
                let pos = cursor[ci] as usize;
                proof {
                    assert(pos == self.start[ci as int] + cell_slots(ee, ci as int, i as nat).len());
                    assert(pos < self.start[ci + 1]);
                }
                let ghost before = self.items;
                self.items[pos] = i as u16;
                cursor[ci] = cursor[ci] + 1;
                proof {
                    assert forall|c: int, k: int|
                        0 <= c < TILES && 0 <= k < cell_slots(ee, c, (i + 1) as nat).len()
                            implies #[trigger] self.items[self.start[c] + k]
                        == #[trigger] cell_slots(ee, c, (i + 1) as nat)[k] by {
                        if c == ci {
                            if k < cell_slots(ee, c, i as nat).len() {
                                assert(self.items[self.start[c] + k] == before[self.start[c]
                                    + k]);
                            }
                        } else {
                            assert(cell_slots(ee, c, (i + 1) as nat) == cell_slots(
                                ee,
                                c,
                                i as nat,
                            ));
                            lemma_cell_slots_prefix(ee, c, i as nat, MAX_ENEMIES as nat);
                            if c < ci {
                                assert(self.start[c + 1] <= self.start[ci as int]);
                                assert(self.start[c + 1] == psum(ee, (c + 1) as nat));
                                assert(self.start[c + 1] == self.start[c] + cell_slots(
                                    ee,
                                    c,
                                    MAX_ENEMIES as nat,
                                ).len()) by {
                                    lemma_psum_is_cnt(ee, c as nat);
                                }
                                assert(self.start[c] + k < pos);
                            } else {
                                assert(self.start[ci + 1] <= self.start[c]);
                                assert(self.start[c] + k > pos);
                            }
                            assert(self.items[self.start[c] + k] == before[self.start[c] + k]);
                        }
                    }
                }
            } else {
                proof {
                    assert forall|c: int| 0 <= c < TILES implies cell_slots(ee, c, (i + 1) as nat)
                        == cell_slots(ee, c, i as nat) by {}
                    assert forall|c: int, k: int|
                        0 <= c < TILES && 0 <= k < cell_slots(ee, c, (i + 1) as nat).len()
                            implies #[trigger] self.items[self.start[c] + k]
                        == #[trigger] cell_slots(ee, c, (i + 1) as nat)[k] by {
                        assert(cell_slots(ee, c, (i + 1) as nat) == cell_slots(ee, c, i as nat));
                        assert(self.items[self.start[c] + k] == cell_slots(ee, c, i as nat)[k]);
                    }
                }
            }
            i = i + 1;
        }
        proof {
            assert forall|c: int| 0 <= c < TILES implies #[trigger] self.start[c + 1]
                == self.start[c] + cell_slots(ee, c, MAX_ENEMIES as nat).len() && self.start[c
                + 1] <= MAX_ENEMIES by {
                assert(psum(ee, (c + 1) as nat) == psum(ee, c as nat) + cell_slots(
                    ee,
                    c,
                    MAX_ENEMIES as nat,
                ).len());
            }
        }
    }

    /// Enemy slots in the 3×3 cells around tile `(tx, ty)`, in deterministic visiting order
    /// (cells top row first, each row left to right; slot order inside a cell).
    pub fn for_each_near(&self, tx: i32, ty: i32) -> (r: Vec<usize>)
        requires
            self.wf(),
            i32::MIN < tx < i32::MAX,
            i32::MIN < ty < i32::MAX,
        ensures
            r@ == near_spec(self.source(), tx as int, ty as int),
    {
        let ghost e = self.source@;
        let mut out: Vec<usize> = Vec::new();
        let mut j: usize = 0;
        while j < 9
            invariant
                j <= 9,
                self.wf(),
                e == self.source@,
                i32::MIN < tx < i32::MAX,
                i32::MIN < ty < i32::MAX,
                out@ == near_upto(e, tx as int, ty as int, j as nat),
            decreases 9 - j,
        {
            let ox = (j % 3) as i32 - 1;
            let oy = (j / 3) as i32 - 1;
            let ci = cell_index(tx + ox, ty + oy);
            let ghost prefix = out@;
            if let Some(c) = ci {
                let a = self.start[c] as usize;
                let b = self.start[c + 1] as usize;
                let mut p = a;
                while p < b
                    invariant
                        a <= p <= b,
                        self.wf(),
                        e == self.source@,
                        c < TILES,
                        a == self.start[c as int],
                        b == a + cell_slots(e, c as int, MAX_ENEMIES as nat).len(),
                        out@ == prefix + cell_slots(e, c as int, MAX_ENEMIES as nat).subrange(
                            0,
                            p - a,
                        ),
                    decreases b - p,
                {
                    proof {
                        assert(self.start[c as int + 1] <= MAX_ENEMIES);
                        assert(self.items[self.start[c as int] + (p - a)] == cell_slots(
                            e,
                            c as int,
                            MAX_ENEMIES as nat,
                        )[p - a]);
                        assert(cell_slots(e, c as int, MAX_ENEMIES as nat).subrange(0, p - a + 1)
                            == cell_slots(e, c as int, MAX_ENEMIES as nat).subrange(
                            0,
                            p - a,
                        ).push(cell_slots(e, c as int, MAX_ENEMIES as nat)[p - a]));
                    }
                    out.push(self.items[p] as usize);
                    p = p + 1;
                }
                proof {
                    assert(cell_slots(e, c as int, MAX_ENEMIES as nat).subrange(0, b - a)
                        == cell_slots(e, c as int, MAX_ENEMIES as nat));
                    assert(cell_list(e, tx + ox, ty + oy) == cell_slots(
                        e,
                        c as int,
                        MAX_ENEMIES as nat,
                    ));
                }
            } else {
                proof {
                    assert(cell_list(e, tx + ox, ty + oy) == Seq::<usize>::empty());
                    assert(out@ == prefix + Seq::<usize>::empty());
                }
            }
            j = j + 1;
        }
        out
    }
}

} // verus!
