//! Little-endian encodings of integers.

use vstd::prelude::*;

verus! {

/// Little-endian bytes of a `u16`.
pub open spec fn le_u16(v: u16) -> Seq<u8> {
    seq![(v % 256) as u8, (v / 256) as u8]
}

/// Little-endian bytes of a `u32`.
#[verifier::opaque]
pub open spec fn le_u32(v: u32) -> Seq<u8> {
    seq![(v % 256) as u8, ((v / 256) % 256) as u8, ((v / 65536) % 256) as u8, (v / 16777216) as u8]
}

/// A `u32` takes four bytes.
pub broadcast proof fn lemma_le_u32_len(v: u32)
    ensures
        #[trigger] le_u32(v).len() == 4,
{
    reveal(le_u32);
}

/// The two's-complement bit pattern of an `i32`.
pub open spec fn bits_i32(v: i32) -> u32 {
    if v >= 0 {
        v as u32
    } else {
        (v + 0x1_0000_0000) as u32
    }
}

/// Little-endian two's-complement bytes of an `i32`.
pub open spec fn le_i32(v: i32) -> Seq<u8> {
    le_u32(bits_i32(v))
}

} // verus!
