//! Player input as a 16-bit command, and the 8-direction table.

use crate::fx::Fixed;
use vstd::prelude::*;

verus! {

/// One player's input for one frame.
#[derive(Clone, Copy, Debug, Default, PartialEq, Eq, Hash, Structural)]
pub struct PlayerInput(pub u16);

/// The bits that survive sanitizing: reserved bits cleared, an invalid direction cleared.
pub open spec fn sanitized_bits(b: u16) -> u16 {
    let v = b & !0x7C00u16;
    if (v & 0x000Fu16) > 8 {
        v & !0x000Fu16
    } else {
        v
    }
}

impl PlayerInput {
    /// Mask for the 4-bit direction (0 = none, 1..=8).
    pub const DIR_MASK: u16 = 0x000F;
    /// Fire held.
    pub const FIRE: u16 = 0x0010;
    /// Place held (reserved for placeables).
    pub const PLACE: u16 = 0x0020;
    /// Keep facing while moving.
    pub const STRAFE: u16 = 0x0040;
    /// Next weapon held.
    pub const WEAPON_NEXT: u16 = 0x0080;
    /// Previous weapon held.
    pub const WEAPON_PREV: u16 = 0x0100;
    /// Reload pressed.
    pub const RELOAD: u16 = 0x0200;
    /// Reserved bits that must be zero.
    pub const RESERVED: u16 = 0x7C00;
    /// Player is connected. GGRS feeds `Default` (0) for disconnected players.
    pub const PRESENT: u16 = 0x8000;

    /// Sanitize untrusted bits: invalid directions and reserved bits are cleared.
    pub fn sanitized(self) -> (r: PlayerInput)
        ensures
            r.0 == sanitized_bits(self.0),
    {
        let mut v = self.0 & !Self::RESERVED;
        if (v & Self::DIR_MASK) > 8 {
            v &= !Self::DIR_MASK;
        }
        PlayerInput(v)
    }

    /// Direction index 0..=15 (0..=8 once sanitized).
    pub fn dir(self) -> (r: u8)
        ensures
            r == self.0 & 0x000F,
            r < 16,
    {
        let b = self.0;
        let d = b & Self::DIR_MASK;
        assert(b & 0x000Fu16 < 16) by (bit_vector);
        d as u8
    }

    /// Whether a flag is set.
    pub fn has(self, flag: u16) -> (r: bool)
        ensures
            r == (self.0 & flag != 0),
    {
        self.0 & flag != 0
    }

    /// Rising edge of `flag` compared to the previous frame.
    pub fn pressed(self, prev: PlayerInput, flag: u16) -> (r: bool)
        ensures
            r == (self.0 & flag != 0 && prev.0 & flag == 0),
    {
        self.has(flag) && !prev.has(flag)
    }
}

/// Sanitizing is idempotent, keeps the direction in `0..=8`, and keeps every defined flag.
pub proof fn lemma_sanitized_laws(b: u16)
    ensures
        sanitized_bits(sanitized_bits(b)) == sanitized_bits(b),
        sanitized_bits(b) & 0x000F <= 8,
        sanitized_bits(b) & 0x7C00 == 0,
        sanitized_bits(b) & 0x83F0 == b & 0x83F0,
        (b & 0x000F <= 8) ==> sanitized_bits(b) & 0x000F == b & 0x000F,
{
    let v = b & !0x7C00u16;
    assert(sanitized_bits(sanitized_bits(b)) == sanitized_bits(b)) by (bit_vector);
    assert(sanitized_bits(b) & 0x000F <= 8) by (bit_vector);
    assert(sanitized_bits(b) & 0x7C00 == 0) by (bit_vector);
    assert(sanitized_bits(b) & 0x83F0 == b & 0x83F0) by (bit_vector);
    assert((b & 0x000F <= 8) ==> sanitized_bits(b) & 0x000F == b & 0x000F) by (bit_vector);
}

/// cos(45°) in Q16.16.
pub const DIAG: i32 = 46341;
/// -cos(45°) in Q16.16.
pub const NEG_DIAG: i32 = -46341;
/// -1.0 in Q16.16.
pub const NEG_ONE: i32 = -65536;

/// Unit vectors for directions 0..=8 (none, N, NE, E, SE, S, SW, W, NW); screen y grows
/// downward. Indices above 8 read as "none".
pub open spec fn dir8_spec(d: int) -> (Fixed, Fixed) {
    if d == 1 {
        (Fixed(0), Fixed(NEG_ONE))
    } else if d == 2 {
        (Fixed(DIAG), Fixed(NEG_DIAG))
    } else if d == 3 {
        (Fixed(65536), Fixed(0))
    } else if d == 4 {
        (Fixed(DIAG), Fixed(DIAG))
    } else if d == 5 {
        (Fixed(0), Fixed(65536))
    } else if d == 6 {
        (Fixed(NEG_DIAG), Fixed(DIAG))
    } else if d == 7 {
        (Fixed(NEG_ONE), Fixed(0))
    } else if d == 8 {
        (Fixed(NEG_DIAG), Fixed(NEG_DIAG))
    } else {
        (Fixed(0), Fixed(0))
    }
}

/// Unit vector for direction `d` (see [`dir8_spec`]).
pub fn dir8(d: u8) -> (r: (Fixed, Fixed))
    ensures
        r == dir8_spec(d as int),
{
    if d == 1 {
        (Fixed(0), Fixed(NEG_ONE))
    } else if d == 2 {
        (Fixed(DIAG), Fixed(NEG_DIAG))
    } else if d == 3 {
        (Fixed(65536), Fixed(0))
    } else if d == 4 {
        (Fixed(DIAG), Fixed(DIAG))
    } else if d == 5 {
        (Fixed(0), Fixed(65536))
    } else if d == 6 {
        (Fixed(NEG_DIAG), Fixed(DIAG))
    } else if d == 7 {
        (Fixed(NEG_ONE), Fixed(0))
    } else if d == 8 {
        (Fixed(NEG_DIAG), Fixed(NEG_DIAG))
    } else {
        (Fixed(0), Fixed(0))
    }
}

/// Absolute value of a raw coordinate as an integer.
pub open spec fn iabs(v: int) -> int {
    if v < 0 {
        -v
    } else {
        v
    }
}

/// The direction (1..=8) nearest to `(dx, dy)`, 0 for the zero vector. A component dominates
/// when it exceeds the other by more than tan(67.5°) ≈ 2.4142.
pub open spec fn dir_from_delta_spec(dx: Fixed, dy: Fixed) -> u8 {
    let ax = iabs(dx.0 as int);
    let ay = iabs(dy.0 as int);
    if ax == 0 && ay == 0 {
        0
    } else {
        let horizontal = ax * 10000 > ay * 24142;
        let vertical = ay * 10000 > ax * 24142;
        if horizontal {
            if dx.0 >= 0 {
                3
            } else {
                7
            }
        } else if vertical {
            if dy.0 >= 0 {
                5
            } else {
                1
            }
        } else if dx.0 >= 0 {
            if dy.0 >= 0 {
                4
            } else {
                2
            }
        } else if dy.0 >= 0 {
            6
        } else {
            8
        }
    }
}

/// Quantize a delta vector to the nearest of 8 directions (1..=8), 0 if zero.
pub fn dir_from_delta(dx: Fixed, dy: Fixed) -> (r: u8)
    ensures
        r == dir_from_delta_spec(dx, dy),
        r <= 8,
{
    let ax: i64 = if dx.0 < 0 {
        -(dx.0 as i64)
    } else {
        dx.0 as i64
    };
    let ay: i64 = if dy.0 < 0 {
        -(dy.0 as i64)
    } else {
        dy.0 as i64
    };
    if ax == 0 && ay == 0 {
        return 0;
    }
    let horizontal = ax * 10_000 > ay * 24_142;
    let vertical = ay * 10_000 > ax * 24_142;
    if horizontal {
        if dx.0 >= 0 {
            3
        } else {
            7
        }
    } else if vertical {
        if dy.0 >= 0 {
            5
        } else {
            1
        }
    } else if dx.0 >= 0 {
        if dy.0 >= 0 {
            4
        } else {
            2
        }
    } else if dy.0 >= 0 {
        6
    } else {
        8
    }
}

/// Quantizing depends on the direction of the delta only: the result is `0..=8`, zero exactly
/// for the zero vector, the axis directions for axis-aligned deltas, and the same for every
/// positive multiple of the delta.
pub proof fn lemma_dir_from_delta_laws(dx: Fixed, dy: Fixed, k: i32)
    requires
        k >= 1,
        i32::MIN <= dx.0 * k <= i32::MAX,
        i32::MIN <= dy.0 * k <= i32::MAX,
    ensures
        dir_from_delta_spec(dx, dy) <= 8,
        dir_from_delta_spec(dx, dy) == 0 <==> (dx.0 == 0 && dy.0 == 0),
        (dy.0 == 0 && dx.0 > 0) ==> dir_from_delta_spec(dx, dy) == 3,
        (dy.0 == 0 && dx.0 < 0) ==> dir_from_delta_spec(dx, dy) == 7,
        (dx.0 == 0 && dy.0 < 0) ==> dir_from_delta_spec(dx, dy) == 1,
        (dx.0 == 0 && dy.0 > 0) ==> dir_from_delta_spec(dx, dy) == 5,
        dir_from_delta_spec(Fixed((dx.0 * k) as i32), Fixed((dy.0 * k) as i32)) == dir_from_delta_spec(dx, dy),
{
    let x = dx.0 as int;
    let y = dy.0 as int;
    let kk = k as int;
    let sx = Fixed((dx.0 * k) as i32);
    let sy = Fixed((dy.0 * k) as i32);
    assert(sx.0 == x * kk && sy.0 == y * kk);
    let ax = iabs(x);
    let ay = iabs(y);
    assert(iabs(x * kk) == ax * kk) by (nonlinear_arith)
        requires
            kk >= 1,
            ax == iabs(x),
    {
        if x < 0 {
            assert(x * kk < 0);
        }
    }
    assert(iabs(y * kk) == ay * kk) by (nonlinear_arith)
        requires
            kk >= 1,
            ay == iabs(y),
    {
        if y < 0 {
            assert(y * kk < 0);
        }
    }
    assert((ax * kk * 10000 > ay * kk * 24142) == (ax * 10000 > ay * 24142)) by (nonlinear_arith)
        requires
            kk >= 1,
    ;
    assert((ay * kk * 10000 > ax * kk * 24142) == (ay * 10000 > ax * 24142)) by (nonlinear_arith)
        requires
            kk >= 1,
    ;
    assert((x * kk >= 0) == (x >= 0)) by (nonlinear_arith)
        requires
            kk >= 1,
    ;
    assert((y * kk >= 0) == (y >= 0)) by (nonlinear_arith)
        requires
            kk >= 1,
    ;
    assert((ax * kk == 0) == (ax == 0)) by (nonlinear_arith)
        requires
            kk >= 1,
    ;
    assert((ay * kk == 0) == (ay == 0)) by (nonlinear_arith)
        requires
            kk >= 1,
    ;
}

/// Direction index mirrored top to bottom (north and south swap, east and west stay).
pub open spec fn flip_vertical(d: int) -> int {
    if d == 0 {
        0
    } else if d <= 5 {
        6 - d
    } else {
        14 - d
    }
}

/// Direction index mirrored left to right (east and west swap, north and south stay).
pub open spec fn flip_horizontal(d: int) -> int {
    if d <= 1 {
        d
    } else {
        10 - d
    }
}

/// Direction index turned a quarter clockwise on screen (east becomes south).
pub open spec fn turn_quarter(d: int) -> int {
    if d == 0 {
        0
    } else {
        (d + 1) % 8 + 1
    }
}

/// Quantizing picks the sector the delta points into, with no bias: a delta whose horizontal
/// part dominates (beyond tan 67.5°) is east or west whatever the sign of the small vertical
/// part, a dominant vertical part gives north or south, and the result turns and mirrors
/// with the delta (reflecting the delta in either axis reflects the direction; a quarter turn
/// of the delta turns the direction by two steps).
pub proof fn lemma_dir_from_delta_symmetry(dx: Fixed, dy: Fixed)
    requires
        dx.0 > i32::MIN,
        dy.0 > i32::MIN,
    ensures
        iabs(dx.0 as int) * 10000 > iabs(dy.0 as int) * 24142 ==> dir_from_delta_spec(dx, dy)
            == if dx.0 > 0 { 3u8 } else { 7u8 },
        iabs(dy.0 as int) * 10000 > iabs(dx.0 as int) * 24142 ==> dir_from_delta_spec(dx, dy)
            == if dy.0 > 0 { 5u8 } else { 1u8 },
        dir_from_delta_spec(dx, Fixed((-dy.0) as i32)) == flip_vertical(dir_from_delta_spec(dx, dy) as int),
        dir_from_delta_spec(Fixed((-dx.0) as i32), dy) == flip_horizontal(dir_from_delta_spec(dx, dy) as int),
        dir_from_delta_spec(Fixed((-dy.0) as i32), dx) == turn_quarter(dir_from_delta_spec(dx, dy) as int),
{
}

/// Quantizing each table direction gives back its index.
pub proof fn lemma_dir_round_trip(d: int)
    requires
        1 <= d <= 8,
    ensures
        dir_from_delta_spec(dir8_spec(d).0, dir8_spec(d).1) == d,
{
}

} // verus!
