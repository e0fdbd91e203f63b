//! Static map data (not rolled back).

use crate::config::{MAP_H, MAP_W, TILES};
use vstd::prelude::*;
use vstd::string::*;

verus! {

/// Maximum spawn doors.
pub const MAX_SPAWNS: usize = 8;

/// Immutable tile map shared by all peers.
#[derive(Clone, Copy, Debug)]
pub struct MapData {
    /// Per tile (row-major): whether it blocks movement.
    pub solid: [bool; TILES],
    /// Spawn door tiles `(x, y)`.
    pub spawns: [(u8, u8); MAX_SPAWNS],
    /// Number of valid entries in `spawns`.
    pub spawn_count: usize,
    /// Player start tiles.
    pub starts: [(u8, u8); 4],
}

/// The yard map, one string per row (rows past the last read as the bottom wall).
pub open spec fn yard_row_spec(y: int) -> &'static str {
    if y == 0 {
        "########################################"
    } else if y == 1 {
        "#S.................##.................S#"
    } else if y == 2 {
        "#......................................#"
    } else if y == 3 {
        "#...####..........................####.#"
    } else if y == 4 {
        "#...#................................#.#"
    } else if y == 5 {
        "#...#.......######......######.......#.#"
    } else if y == 6 {
        "#...........#....................#.....#"
    } else if y == 7 {
        "#...........#....................#.....#"
    } else if y == 8 {
        "#......................................#"
    } else if y == 9 {
        "#.....##..........................##...#"
    } else if y == 10 {
        "#.....##..........................##...#"
    } else if y == 11 {
        "#......................................#"
    } else if y == 12 {
        "#...............#......#...............#"
    } else if y == 13 {
        "#...............#......#...............#"
    } else if y == 14 {
        "S.................1..2.................S"
    } else if y == 15 {
        "#.................3..4.................#"
    } else if y == 16 {
        "#...............#......#...............#"
    } else if y == 17 {
        "#...............#......#...............#"
    } else if y == 18 {
        "#......................................#"
    } else if y == 19 {
        "#.....##..........................##...#"
    } else if y == 20 {
        "#.....##..........................##...#"
    } else if y == 21 {
        "#......................................#"
    } else if y == 22 {
        "#...........#....................#.....#"
    } else if y == 23 {
        "#...........#....................#.....#"
    } else if y == 24 {
        "#...#.......######......######.......#.#"
    } else if y == 25 {
        "#...#................................#.#"
    } else if y == 26 {
        "#...####..........................####.#"
    } else if y == 27 {
        "#......................................#"
    } else if y == 28 {
        "#S.................##.................S#"
    } else {
        "########################################"
    }
}


/// The yard map, one string per row. Legend: `#` wall, `.` floor, `S` enemy spawn (floor),
/// `1`-`4` player start (floor).
pub fn yard_row(y: usize) -> (r: &'static str)
    requires
        y < MAP_H,
    ensures
        r == yard_row_spec(y as int),
{
    if y == 0 {
        "########################################"
    } else if y == 1 {
        "#S.................##.................S#"
    } else if y == 2 {
        "#......................................#"
    } else if y == 3 {
        "#...####..........................####.#"
    } else if y == 4 {
        "#...#................................#.#"
    } else if y == 5 {
        "#...#.......######......######.......#.#"
    } else if y == 6 {
        "#...........#....................#.....#"
    } else if y == 7 {
        "#...........#....................#.....#"
    } else if y == 8 {
        "#......................................#"
    } else if y == 9 {
        "#.....##..........................##...#"
    } else if y == 10 {
        "#.....##..........................##...#"
    } else if y == 11 {
        "#......................................#"
    } else if y == 12 {
        "#...............#......#...............#"
    } else if y == 13 {
        "#...............#......#...............#"
    } else if y == 14 {
        "S.................1..2.................S"
    } else if y == 15 {
        "#.................3..4.................#"
    } else if y == 16 {
        "#...............#......#...............#"
    } else if y == 17 {
        "#...............#......#...............#"
    } else if y == 18 {
        "#......................................#"
    } else if y == 19 {
        "#.....##..........................##...#"
    } else if y == 20 {
        "#.....##..........................##...#"
    } else if y == 21 {
        "#......................................#"
    } else if y == 22 {
        "#...........#....................#.....#"
    } else if y == 23 {
        "#...........#....................#.....#"
    } else if y == 24 {
        "#...#.......######......######.......#.#"
    } else if y == 25 {
        "#...#................................#.#"
    } else if y == 26 {
        "#...####..........................####.#"
    } else if y == 27 {
        "#......................................#"
    } else if y == 28 {
        "#S.................##.................S#"
    } else {
        "########################################"
    }
}

/// The byte at column `x` of a row, if the row is that long and `x` is on the map.
pub open spec fn row_cell(row: Seq<u8>, x: int) -> Option<u8> {
    if 0 <= x < MAP_W && x < row.len() {
        Some(row[x])
    } else {
        None
    }
}

/// A parsed map under construction: the result after reading the first `n` tiles
/// (row-major) of `rows`.
pub open spec fn parse_upto(rows: Seq<Seq<u8>>, n: nat) -> MapData
    decreases n,
{
    if n == 0 {
        MapData {
            solid: vstd::array::spec_array_fill_for_copy_type::<bool, TILES>(true),
            spawns: vstd::array::spec_array_fill_for_copy_type::<(u8, u8), MAX_SPAWNS>((0, 0)),
            spawn_count: 0,
            starts: vstd::array::spec_array_fill_for_copy_type::<(u8, u8), 4>((1, 1)),
        }
    } else {
        parse_tile(parse_upto(rows, (n - 1) as nat), rows, (n - 1) as int)
    }
}

/// Reading tile `i` (row `i / MAP_W`, column `i % MAP_W`) into `m`.
pub open spec fn parse_tile(m: MapData, rows: Seq<Seq<u8>>, i: int) -> MapData {
    let x = i % (MAP_W as int);
    let y = i / (MAP_W as int);
    match row_cell(rows[y], x) {
        None => m,
        Some(ch) => {
            let m1 = MapData {
                solid: vstd::array::spec_array_update(m.solid, i, ch == 35u8),
                ..m
            };
            if ch == 83u8 && m1.spawn_count < MAX_SPAWNS {
                MapData {
                    spawns: vstd::array::spec_array_update(
                        m1.spawns,
                        m1.spawn_count as int,
                        (x as u8, y as u8),
                    ),
                    spawn_count: (m1.spawn_count + 1) as usize,
                    ..m1
                }
            } else if 49u8 <= ch <= 52u8 {
                MapData {
                    starts: vstd::array::spec_array_update(
                        m1.starts,
                        (ch - 49u8) as int,
                        (x as u8, y as u8),
                    ),
                    ..m1
                }
            } else {
                m1
            }
        },
    }
}

/// The byte rows of the yard map.
pub open spec fn yard_rows() -> Seq<Seq<u8>> {
    Seq::new(MAP_H as nat, |y: int| yard_row_spec(y).spec_bytes())
}

impl MapData {
    /// Whether tile `(x, y)` blocks movement. Out-of-bounds is solid.
    pub open spec fn is_solid(self, x: int, y: int) -> bool {
        if x < 0 || y < 0 || x >= MAP_W || y >= MAP_H {
            true
        } else {
            self.solid[y * (MAP_W as int) + x]
        }
    }

    /// Doors and starts are floor tiles and the door count fits the table.
    pub open spec fn wf(self) -> bool {
        &&& self.spawn_count <= MAX_SPAWNS
        &&& forall|k: int|
            0 <= k < self.spawn_count ==> !#[trigger] self.is_solid(
                self.spawns[k].0 as int,
                self.spawns[k].1 as int,
            )
        &&& forall|k: int|
            0 <= k < 4 ==> !#[trigger] self.is_solid(
                self.starts[k].0 as int,
                self.starts[k].1 as int,
            )
    }

    /// Build a map by id. Unknown ids fall back to the yard.
    pub fn by_id(id: u8) -> (r: MapData)
        ensures
            r == parse_upto(yard_rows(), TILES as nat),
            r.wf(),
    {
        Self::parse()
    }

    fn parse() -> (map: MapData)
        ensures
            map == parse_upto(yard_rows(), TILES as nat),
            map.wf(),
    {
        let mut map = MapData {
            solid: [true; TILES],
            spawns: [(0, 0); MAX_SPAWNS],
            spawn_count: 0,
            starts: [(1, 1); 4],
        };
        let ghost rows = yard_rows();
        proof {
            assert(map.solid =~= parse_upto(rows, 0).solid);
            assert(map.spawns =~= parse_upto(rows, 0).spawns);
            assert(map.starts =~= parse_upto(rows, 0).starts);
        }
        let mut i: usize = 0;
        while i < TILES
            invariant
                i <= TILES,
                rows == yard_rows(),
                map == parse_upto(rows, i as nat),
                map.spawn_count <= MAX_SPAWNS,
                forall|k: int|
                    0 <= k < map.spawn_count ==> {
                        let (sx, sy) = #[trigger] map.spawns[k];
                        &&& sy * (MAP_W as int) + sx < i
                        &&& sx < MAP_W
                        &&& sy < MAP_H
                        &&& !map.solid[sy * (MAP_W as int) + sx]
                    },
                forall|k: int|
                    0 <= k < 4 ==> {
                        let (sx, sy) = #[trigger] map.starts[k];
                        ||| (sx == 1 && sy == 1)
                        ||| {
                            &&& sy * (MAP_W as int) + sx < i
                            &&& sx < MAP_W
                            &&& sy < MAP_H
                            &&& !map.solid[sy * (MAP_W as int) + sx]
                        }
                    },
                forall|j: int| i <= j < TILES ==> map.solid[j],
            decreases TILES - i,
        {
            let y = i / MAP_W;
            let x = i % MAP_W;
            let row = yard_row(y).as_bytes();
            let ghost before = map;
            if x < row.len() {
                let ch = row[x];
                map.solid[i] = ch == 35u8;
                if ch == 83u8 && map.spawn_count < MAX_SPAWNS {
                    map.spawns[map.spawn_count] = (x as u8, y as u8);
                    map.spawn_count = map.spawn_count + 1;
                } else if 49u8 <= ch && ch <= 52u8 {
                    map.starts[(ch - 49u8) as usize] = (x as u8, y as u8);
                }
                proof {
                    let want = parse_tile(before, rows, i as int);
                    assert(row_cell(rows[y as int], x as int) == Some(ch));
                    assert(map.solid =~= want.solid);
                    assert(map.spawns =~= want.spawns);
                    assert(map.starts =~= want.starts);
                }
            } else {
                proof {
                    assert(row_cell(rows[y as int], x as int) is None);
                }
            }
            i = i + 1;
        }
        proof {
            // tile (1, 1), the fallback start, is a door in the yard
            let r1 = yard_row_spec(1);
            reveal_strlit("#S.................##.................S#");
            assert(is_ascii(r1));
            assert(r1.spec_bytes()[1] == 83u8);
            assert(!map.solid[MAP_W as int + 1]) by {
                assert(map == parse_upto(rows, TILES as nat));
                lemma_parsed_tile(rows, TILES as nat, MAP_W as int + 1);
            }
        }
        map
    }

    /// Whether tile `(x, y)` blocks movement. Out-of-bounds is solid.
    pub fn solid(&self, x: i32, y: i32) -> (r: bool)
        ensures
            r == self.is_solid(x as int, y as int),
    {
        if x < 0 || y < 0 || x >= MAP_W as i32 || y >= MAP_H as i32 {
            return true;
        }
        self.solid[y as usize * MAP_W + x as usize]
    }

    /// Raw tiles for rendering, row-major: 1 = wall, 0 = floor.
    pub fn tiles(&self) -> (r: Vec<u8>)
        ensures
            r@.len() == TILES,
            forall|i: int|
                0 <= i < TILES ==> #[trigger] r@[i] == (if self.is_solid(
                    i % (MAP_W as int),
                    i / (MAP_W as int),
                ) {
                    1u8
                } else {
                    0u8
                }),
    {
        let mut out: Vec<u8> = Vec::new();
        let mut i: usize = 0;
        while i < TILES
            invariant
                i <= TILES,
                out@.len() == i,
                forall|j: int|
                    0 <= j < i ==> #[trigger] out@[j] == (if self.is_solid(
                        j % (MAP_W as int),
                        j / (MAP_W as int),
                    ) {
                        1u8
                    } else {
                        0u8
                    }),
            decreases TILES - i,
        {
            proof {
                assert((i as int % (MAP_W as int)) + (i as int / (MAP_W as int)) * (MAP_W as int)
                    == i);
            }
            out.push(if self.solid[i] {
                1u8
            } else {
                0u8
            });
            i = i + 1;
        }
        out
    }
}

/// Tile `t` of a map parsed from `rows` is solid unless its byte exists and is not `#`.
proof fn lemma_parsed_tile(rows: Seq<Seq<u8>>, n: nat, t: int)
    requires
        0 <= t < n <= TILES,
        rows.len() == MAP_H,
    ensures
        parse_upto(rows, n).solid[t] == (match row_cell(
            rows[t / (MAP_W as int)],
            t % (MAP_W as int),
        ) {
            None => true,
            Some(ch) => ch == 35u8,
        }),
    decreases n,
{
    broadcast use vstd::array::group_array_axioms;

    let prev = parse_upto(rows, (n - 1) as nat);
    if t < n - 1 {
        lemma_parsed_tile(rows, (n - 1) as nat, t);
        assert(parse_upto(rows, n).solid[t] == prev.solid[t]);
    } else {
        lemma_unparsed_is_solid(rows, (n - 1) as nat, t);
    }
}

/// Tiles at or after `n` are still at their initial "solid" value.
proof fn lemma_unparsed_is_solid(rows: Seq<Seq<u8>>, n: nat, t: int)
    requires
        n <= t < TILES,
    ensures
        parse_upto(rows, n).solid[t],
    decreases n,
{
    broadcast use vstd::array::group_array_axioms;

    if n > 0 {
        lemma_unparsed_is_solid(rows, (n - 1) as nat, t);
    }
}

} // verus!
