//! Axis-separated AABB-vs-tile movement.

use crate::config::{MAP_H, MAP_W};
use crate::fx::{clamp_i32, floor_frac, Fixed, ONE_RAW};
use crate::map::MapData;
use vstd::prelude::*;

verus! {

/// Saturating fixed-point sum.
pub open spec fn fadd(a: Fixed, b: Fixed) -> Fixed {
    Fixed(clamp_i32(a.0 + b.0))
}

/// Saturating fixed-point difference.
pub open spec fn fsub(a: Fixed, b: Fixed) -> Fixed {
    Fixed(clamp_i32(a.0 - b.0))
}

/// Tile index of a raw coordinate.
pub open spec fn tile_of(v: Fixed) -> int {
    floor_frac(v.0 as int)
}

/// Whether some tile of column `tx` in rows `lo..=hi` is solid.
pub open spec fn col_blocked(map: MapData, tx: int, lo: int, hi: int) -> bool {
    exists|ty: int| lo <= ty <= hi && #[trigger] map.is_solid(tx, ty)
}

/// Whether some tile of row `ty` in columns `lo..=hi` is solid.
pub open spec fn row_blocked(map: MapData, ty: int, lo: int, hi: int) -> bool {
    exists|tx: int| lo <= tx <= hi && #[trigger] map.is_solid(tx, ty)
}

/// Horizontal part of [`move_box`]: the new x.
pub open spec fn slide_x_spec(map: MapData, x: Fixed, y: Fixed, dx: Fixed, r: Fixed) -> Fixed {
    if dx.0 == 0 {
        x
    } else {
        let nx = fadd(x, dx);
        let top = tile_of(fsub(y, r));
        let bottom = tile_of(fsub(fadd(y, r), Fixed(1)));
        if dx.0 > 0 {
            let tile = tile_of(fsub(fadd(nx, r), Fixed(1)));
            if col_blocked(map, tile, top, bottom) {
                fsub(Fixed(clamp_i32(tile * 65536)), r)
            } else {
                nx
            }
        } else {
            let tile = tile_of(fsub(nx, r));
            if col_blocked(map, tile, top, bottom) {
                fadd(Fixed(clamp_i32((tile + 1) * 65536)), r)
            } else {
                nx
            }
        }
    }
}

/// Vertical part of [`move_box`]: the new y.
pub open spec fn slide_y_spec(map: MapData, x: Fixed, y: Fixed, dy: Fixed, r: Fixed) -> Fixed {
    if dy.0 == 0 {
        y
    } else {
        let ny = fadd(y, dy);
        let left = tile_of(fsub(x, r));
        let right = tile_of(fsub(fadd(x, r), Fixed(1)));
        if dy.0 > 0 {
            let tile = tile_of(fsub(fadd(ny, r), Fixed(1)));
            if row_blocked(map, tile, left, right) {
                fsub(Fixed(clamp_i32(tile * 65536)), r)
            } else {
                ny
            }
        } else {
            let tile = tile_of(fsub(ny, r));
            if row_blocked(map, tile, left, right) {
                fadd(Fixed(clamp_i32((tile + 1) * 65536)), r)
            } else {
                ny
            }
        }
    }
}

/// Where [`move_box`] puts a box of half-size `r` at `(x, y)` moved by `(dx, dy)`.
pub open spec fn move_box_spec(map: MapData, x: Fixed, y: Fixed, dx: Fixed, dy: Fixed, r: Fixed) -> (
    Fixed,
    Fixed,
) {
    let nx = slide_x_spec(map, x, y, dx, r);
    (nx, slide_y_spec(map, nx, y, dy, r))
}

/// The box of half-size `r` centred at `(x, y)` overlaps no solid tile.
pub open spec fn box_clear(map: MapData, x: Fixed, y: Fixed, r: Fixed) -> bool {
    forall|tx: int, ty: int|
        floor_frac(x.0 - r.0) <= tx <= floor_frac(x.0 + r.0 - 1) && floor_frac(y.0 - r.0) <= ty
            <= floor_frac(y.0 + r.0 - 1) ==> !#[trigger] map.is_solid(tx, ty)
}

pub(crate) fn col_has_solid(map: &MapData, tx: i32, lo: i32, hi: i32) -> (r: bool)
    requires
        hi < i32::MAX,
    ensures
        r == col_blocked(*map, tx as int, lo as int, hi as int),
{
    if lo > hi {
        return false;
    }
    let mut ty = lo;
    while ty <= hi
        invariant
            lo <= ty <= hi + 1,
            hi < i32::MAX,
            forall|t: int| lo <= t < ty ==> !#[trigger] map.is_solid(tx as int, t),
        decreases hi + 1 - ty,
    {
        if map.solid(tx, ty) {
            return true;
        }
        ty = ty + 1;
    }
    false
}

fn row_has_solid(map: &MapData, ty: i32, lo: i32, hi: i32) -> (r: bool)
    requires
        hi < i32::MAX,
    ensures
        r == row_blocked(*map, ty as int, lo as int, hi as int),
{
    if lo > hi {
        return false;
    }
    let mut tx = lo;
    while tx <= hi
        invariant
            lo <= tx <= hi + 1,
            hi < i32::MAX,
            forall|t: int| lo <= t < tx ==> !#[trigger] map.is_solid(t, ty as int),
        decreases hi + 1 - tx,
    {
        if map.solid(tx, ty) {
            return true;
        }
        tx = tx + 1;
    }
    false
}

/// Move a box of half-size `r` at `(x, y)` by `(dx, dy)` against solid tiles.
/// Returns the new position. Per-call movement must be < 0.5 tile for the collision to be
/// exact (see [`lemma_move_box_stays_clear`]).
pub fn move_box(map: &MapData, x: Fixed, y: Fixed, dx: Fixed, dy: Fixed, r: Fixed) -> (res: (
    Fixed,
    Fixed,
))
    ensures
        res == move_box_spec(*map, x, y, dx, dy, r),
{
    let nx = slide_x(map, x, y, dx, r);
    let ny = slide_y(map, nx, y, dy, r);
    (nx, ny)
}

fn slide_x(map: &MapData, x: Fixed, y: Fixed, dx: Fixed, r: Fixed) -> (res: Fixed)
    ensures
        res == slide_x_spec(*map, x, y, dx, r),
{
    if dx.0 == 0 {
        return x;
    }
    let nx = x + dx;
    let top = (y - r).floor_int();
    let bottom = (y + r - Fixed::epsilon()).floor_int();
    if dx.0 > 0 {
        let tile = (nx + r - Fixed::epsilon()).floor_int();
        if col_has_solid(map, tile, top, bottom) {
            return Fixed::from_int(tile) - r;
        }
    } else {
        let tile = (nx - r).floor_int();
        if col_has_solid(map, tile, top, bottom) {
            return Fixed::from_int(tile + 1) + r;
        }
    }
    nx
}

fn slide_y(map: &MapData, x: Fixed, y: Fixed, dy: Fixed, r: Fixed) -> (res: Fixed)
    ensures
        res == slide_y_spec(*map, x, y, dy, r),
{
    if dy.0 == 0 {
        return y;
    }
    let ny = y + dy;
    let left = (x - r).floor_int();
    let right = (x + r - Fixed::epsilon()).floor_int();
    if dy.0 > 0 {
        let tile = (ny + r - Fixed::epsilon()).floor_int();
        if row_has_solid(map, tile, left, right) {
            return Fixed::from_int(tile) - r;
        }
    } else {
        let tile = (ny - r).floor_int();
        if row_has_solid(map, tile, left, right) {
            return Fixed::from_int(tile + 1) + r;
        }
    }
    ny
}

/// A clear box lies inside the map, so its coordinates are small.
pub proof fn lemma_clear_box_in_map(map: MapData, x: Fixed, y: Fixed, r: Fixed)
    requires
        box_clear(map, x, y, r),
        0 < r.0,
    ensures
        r.0 <= x.0 <= MAP_W * 65536 - r.0,
        r.0 <= y.0 <= MAP_H * 65536 - r.0,
{
    let c0 = floor_frac(x.0 - r.0);
    let c1 = floor_frac(x.0 + r.0 - 1);
    let t0 = floor_frac(y.0 - r.0);
    let t1 = floor_frac(y.0 + r.0 - 1);
    assert(c0 <= c1);
    assert(t0 <= t1);
    assert(!map.is_solid(c0, t0));
    assert(!map.is_solid(c1, t1));
}

/// Horizontal slide keeps a clear box clear (rows unchanged) and ends between the start and
/// the requested target.
proof fn lemma_slide_x_clear(map: MapData, x: Fixed, y: Fixed, dx: Fixed, r: Fixed)
    requires
        box_clear(map, x, y, r),
        0 < r.0,
        -ONE_RAW <= dx.0 <= ONE_RAW,
    ensures
        box_clear(map, slide_x_spec(map, x, y, dx, r), y, r),
        dx.0 >= 0 ==> x.0 <= slide_x_spec(map, x, y, dx, r).0 <= x.0 + dx.0,
        dx.0 <= 0 ==> x.0 + dx.0 <= slide_x_spec(map, x, y, dx, r).0 <= x.0,
{
    lemma_clear_box_in_map(map, x, y, r);
    let x2 = slide_x_spec(map, x, y, dx, r);
    let c0 = floor_frac(x.0 - r.0);
    let c1 = floor_frac(x.0 + r.0 - 1);
    let t0 = floor_frac(y.0 - r.0);
    let t1 = floor_frac(y.0 + r.0 - 1);
    if dx.0 == 0 {
    } else {
        let nx = x.0 + dx.0;
        assert(fadd(x, dx).0 == nx);
        assert(tile_of(fsub(y, r)) == t0);
        assert(tile_of(fsub(fadd(y, r), Fixed(1))) == t1);
        if dx.0 > 0 {
            let tile = floor_frac(nx + r.0 - 1);
            assert(tile_of(fsub(fadd(Fixed(nx as i32), r), Fixed(1))) == tile);
            assert(c1 <= tile <= c1 + 1);
            if col_blocked(map, tile, t0, t1) {
                let ty = choose|ty: int| t0 <= ty <= t1 && #[trigger] map.is_solid(tile, ty);
                assert(tile != c1);
                assert(tile == c1 + 1);
                assert(0 <= tile <= MAP_W);
                assert(x2.0 == tile * 65536 - r.0);
                assert(x.0 <= x2.0);
                assert forall|tx: int, ty2: int|
                    floor_frac(x2.0 - r.0) <= tx <= floor_frac(x2.0 + r.0 - 1) && t0 <= ty2
                        <= t1 implies !#[trigger] map.is_solid(tx, ty2) by {
                    assert(floor_frac(x2.0 + r.0 - 1) == c1);
                    assert(c0 <= tx);
                }
            } else {
                assert(x2.0 == nx);
                assert forall|tx: int, ty2: int|
                    floor_frac(x2.0 - r.0) <= tx <= floor_frac(x2.0 + r.0 - 1) && t0 <= ty2
                        <= t1 implies !#[trigger] map.is_solid(tx, ty2) by {
                    if tx == tile {
                        assert(!map.is_solid(tile, ty2));
                    } else {
                        assert(c0 <= tx <= c1);
                    }
                }
            }
        } else {
            let tile = floor_frac(nx - r.0);
            assert(tile_of(fsub(Fixed(nx as i32), r)) == tile);
            assert(c0 - 1 <= tile <= c0);
            if col_blocked(map, tile, t0, t1) {
                let ty = choose|ty: int| t0 <= ty <= t1 && #[trigger] map.is_solid(tile, ty);
                assert(tile != c0);
                assert(tile == c0 - 1);
                assert(x2.0 == (tile + 1) * 65536 + r.0);
                assert(x2.0 <= x.0);
                assert forall|tx: int, ty2: int|
                    floor_frac(x2.0 - r.0) <= tx <= floor_frac(x2.0 + r.0 - 1) && t0 <= ty2
                        <= t1 implies !#[trigger] map.is_solid(tx, ty2) by {
                    assert(floor_frac(x2.0 - r.0) == c0);
                    assert(tx <= c1);
                }
            } else {
                assert(x2.0 == nx);
                assert forall|tx: int, ty2: int|
                    floor_frac(x2.0 - r.0) <= tx <= floor_frac(x2.0 + r.0 - 1) && t0 <= ty2
                        <= t1 implies !#[trigger] map.is_solid(tx, ty2) by {
                    if tx == tile {
                        assert(!map.is_solid(tile, ty2));
                    } else {
                        assert(c0 <= tx <= c1);
                    }
                }
            }
        }
    }
}

/// Vertical slide keeps a clear box clear (columns unchanged) and ends between the start and
/// the requested target.
proof fn lemma_slide_y_clear(map: MapData, x: Fixed, y: Fixed, dy: Fixed, r: Fixed)
    requires
        box_clear(map, x, y, r),
        0 < r.0,
        -ONE_RAW <= dy.0 <= ONE_RAW,
    ensures
        box_clear(map, x, slide_y_spec(map, x, y, dy, r), r),
        dy.0 >= 0 ==> y.0 <= slide_y_spec(map, x, y, dy, r).0 <= y.0 + dy.0,
        dy.0 <= 0 ==> y.0 + dy.0 <= slide_y_spec(map, x, y, dy, r).0 <= y.0,
{
    lemma_clear_box_in_map(map, x, y, r);
    let y2 = slide_y_spec(map, x, y, dy, r);
    let c0 = floor_frac(x.0 - r.0);
    let c1 = floor_frac(x.0 + r.0 - 1);
    let t0 = floor_frac(y.0 - r.0);
    let t1 = floor_frac(y.0 + r.0 - 1);
    if dy.0 == 0 {
    } else {
        let ny = y.0 + dy.0;
        assert(fadd(y, dy).0 == ny);
        assert(tile_of(fsub(x, r)) == c0);
        assert(tile_of(fsub(fadd(x, r), Fixed(1))) == c1);
        if dy.0 > 0 {
            let tile = floor_frac(ny + r.0 - 1);
            assert(tile_of(fsub(fadd(Fixed(ny as i32), r), Fixed(1))) == tile);
            assert(t1 <= tile <= t1 + 1);
            if row_blocked(map, tile, c0, c1) {
                let tx = choose|tx: int| c0 <= tx <= c1 && #[trigger] map.is_solid(tx, tile);
                assert(tile != t1);
                assert(tile == t1 + 1);
                assert(0 <= tile <= MAP_H);
                assert(y2.0 == tile * 65536 - r.0);
                assert(y.0 <= y2.0);
                assert forall|tx2: int, ty: int|
                    c0 <= tx2 <= c1 && floor_frac(y2.0 - r.0) <= ty <= floor_frac(
                        y2.0 + r.0 - 1,
                    ) implies !#[trigger] map.is_solid(tx2, ty) by {
                    assert(floor_frac(y2.0 + r.0 - 1) == t1);
                    assert(t0 <= ty);
                }
            } else {
                assert(y2.0 == ny);
                assert forall|tx2: int, ty: int|
                    c0 <= tx2 <= c1 && floor_frac(y2.0 - r.0) <= ty <= floor_frac(
                        y2.0 + r.0 - 1,
                    ) implies !#[trigger] map.is_solid(tx2, ty) by {
                    if ty == tile {
                        assert(!map.is_solid(tx2, tile));
                    } else {
                        assert(t0 <= ty <= t1);
                    }
                }
            }
        } else {
            let tile = floor_frac(ny - r.0);
            assert(tile_of(fsub(Fixed(ny as i32), r)) == tile);
            assert(t0 - 1 <= tile <= t0);
            if row_blocked(map, tile, c0, c1) {
                let tx = choose|tx: int| c0 <= tx <= c1 && #[trigger] map.is_solid(tx, tile);
                assert(tile != t0);
                assert(tile == t0 - 1);
                assert(y2.0 == (tile + 1) * 65536 + r.0);
                assert(y2.0 <= y.0);
                assert forall|tx2: int, ty: int|
                    c0 <= tx2 <= c1 && floor_frac(y2.0 - r.0) <= ty <= floor_frac(
                        y2.0 + r.0 - 1,
                    ) implies !#[trigger] map.is_solid(tx2, ty) by {
                    assert(floor_frac(y2.0 - r.0) == t0);
                    assert(ty <= t1);
                }
            } else {
                assert(y2.0 == ny);
                assert forall|tx2: int, ty: int|
                    c0 <= tx2 <= c1 && floor_frac(y2.0 - r.0) <= ty <= floor_frac(
                        y2.0 + r.0 - 1,
                    ) implies !#[trigger] map.is_solid(tx2, ty) by {
                    if ty == tile {
                        assert(!map.is_solid(tx2, tile));
                    } else {
                        assert(t0 <= ty <= t1);
                    }
                }
            }
        }
    }
}

/// Movement never enters walls and never overshoots: a box of any size that overlaps no solid
/// tile still overlaps none after [`move_box`], as long as it moves at most one tile per axis,
/// and each coordinate ends between where it started and where it was asked to go (so an axis
/// that is not asked to move stays).
pub proof fn lemma_move_box_stays_clear(
    map: MapData,
    x: Fixed,
    y: Fixed,
    dx: Fixed,
    dy: Fixed,
    r: Fixed,
)
    requires
        box_clear(map, x, y, r),
        0 < r.0,
        -ONE_RAW <= dx.0 <= ONE_RAW,
        -ONE_RAW <= dy.0 <= ONE_RAW,
    ensures
        box_clear(map, move_box_spec(map, x, y, dx, dy, r).0, move_box_spec(map, x, y, dx, dy, r).1, r),
        dx.0 >= 0 ==> x.0 <= move_box_spec(map, x, y, dx, dy, r).0.0 <= x.0 + dx.0,
        dx.0 <= 0 ==> x.0 + dx.0 <= move_box_spec(map, x, y, dx, dy, r).0.0 <= x.0,
        dy.0 >= 0 ==> y.0 <= move_box_spec(map, x, y, dx, dy, r).1.0 <= y.0 + dy.0,
        dy.0 <= 0 ==> y.0 + dy.0 <= move_box_spec(map, x, y, dx, dy, r).1.0 <= y.0,
{
    lemma_slide_x_clear(map, x, y, dx, r);
    let nx = slide_x_spec(map, x, y, dx, r);
    lemma_slide_y_clear(map, nx, y, dy, r);
}

} // verus!
