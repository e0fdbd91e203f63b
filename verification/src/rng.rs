//! xoshiro128** — small, fast, deterministic PRNG stored inside `State` so it rolls back with it.

use vstd::prelude::*;
use vstd::wrapping::u32_specs::{wrapping_add, wrapping_mul};

verus! {

/// Rotate a 32-bit word left by `k` (`0 < k < 32`).
pub open spec fn rotl(x: u32, k: u32) -> u32 {
    (x << k) | (x >> ((32 - k) as u32))
}

/// The splitmix32 output for the already-advanced counter `z`.
pub open spec fn splitmix_out(z: u32) -> u32 {
    let x1 = wrapping_mul(z ^ (z >> 16u32), 0x21F0_AAADu32);
    let x2 = wrapping_mul(x1 ^ (x1 >> 15u32), 0x735A_2D97u32);
    x2 ^ (x2 >> 15u32)
}

/// The `i`-th splitmix32 counter value after seeding with `seed` (`i` counts from 1).
pub open spec fn splitmix_counter(seed: u32, i: nat) -> u32
    decreases i,
{
    if i == 0 {
        seed
    } else {
        wrapping_add(splitmix_counter(seed, (i - 1) as nat), 0x9E37_79B9u32)
    }
}

/// The four state words that seeding with `seed` produces, before the all-zero fix-up.
pub open spec fn seed_words(seed: u32) -> [u32; 4] {
    [
        splitmix_out(splitmix_counter(seed, 1)),
        splitmix_out(splitmix_counter(seed, 2)),
        splitmix_out(splitmix_counter(seed, 3)),
        splitmix_out(splitmix_counter(seed, 4)),
    ]
}

/// Whether a state is the all-zero fixed point of xoshiro.
pub open spec fn all_zero(s: [u32; 4]) -> bool {
    s[0] | s[1] | s[2] | s[3] == 0
}

/// The state that [`Rng::from_seed`] produces.
pub open spec fn seeded(seed: u32) -> [u32; 4] {
    let w = seed_words(seed);
    if all_zero(w) {
        [1u32, w[1], w[2], w[3]]
    } else {
        w
    }
}

/// The 32 output bits of xoshiro128** for state `s`.
pub open spec fn output(s: [u32; 4]) -> u32 {
    wrapping_mul(rotl(wrapping_mul(s[1], 5), 7), 9)
}

/// The xoshiro128 state transition.
pub open spec fn advance(s: [u32; 4]) -> [u32; 4] {
    let t = s[1] << 9u32;
    let c = s[2] ^ s[0];
    let d = s[3] ^ s[1];
    let b = s[1] ^ c;
    let a = s[0] ^ d;
    [a, b, c ^ t, rotl(d, 11)]
}

/// `(x * n) >> 32`: Lemire's multiply-shift reduction of `x` into `0..n`.
pub open spec fn below_spec(x: u32, n: u32) -> u32 {
    ((x as int * n as int) / 0x1_0000_0000) as u32
}

/// Deterministic PRNG state.
#[derive(Clone, Copy, Debug, PartialEq, Eq)]
pub struct Rng {
    s: [u32; 4],
}

impl Rng {
    /// The generator that seeding with `seed` produces.
    pub closed spec fn seeded_rng(seed: u32) -> Rng {
        Rng { s: seeded(seed) }
    }

    /// The generator after one draw.
    pub closed spec fn next_state(self) -> Rng {
        Rng { s: advance(self.s) }
    }
}

/// The view of the advanced generator is the advanced view.
pub broadcast proof fn lemma_next_state_view(r: Rng)
    ensures
        (#[trigger] r.next_state())@ == advance(r@),
{
}

/// Two generators with the same view are the same generator.
pub proof fn lemma_view_injective(a: Rng, b: Rng)
    requires
        a@ == b@,
    ensures
        a == b,
{
}

impl View for Rng {
    type V = [u32; 4];

    closed spec fn view(&self) -> [u32; 4] {
        self.s
    }
}

fn rotl32(x: u32, k: u32) -> (r: u32)
    requires
        0 < k < 32,
    ensures
        r == rotl(x, k),
{
    (x << k) | (x >> (32 - k))
}

fn splitmix_word(z: u32) -> (r: u32)
    ensures
        r == splitmix_out(z),
{
    let mut x = z;
    x = (x ^ (x >> 16u32)).wrapping_mul(0x21F0_AAAD);
    x = (x ^ (x >> 15u32)).wrapping_mul(0x735A_2D97);
    x ^ (x >> 15u32)
}

impl Rng {
    /// Seed via splitmix32 so that small/similar seeds still produce well-mixed state.
    /// The four state words.
    pub fn words(&self) -> (r: [u32; 4])
        ensures
            r == self@,
    {
        self.s
    }

    pub fn from_seed(seed: u32) -> (r: Rng)
        ensures
            r@ == seeded(seed),
            r == Rng::seeded_rng(seed),
            !all_zero(r@),
    {
        let z1 = seed.wrapping_add(0x9E37_79B9);
        let z2 = z1.wrapping_add(0x9E37_79B9);
        let z3 = z2.wrapping_add(0x9E37_79B9);
        let z4 = z3.wrapping_add(0x9E37_79B9);
        let mut s = [splitmix_word(z1), splitmix_word(z2), splitmix_word(z3), splitmix_word(z4)];
        proof {
            reveal_with_fuel(splitmix_counter, 5);
            assert(s == seed_words(seed));
        }
        if s[0] | s[1] | s[2] | s[3] == 0 {
            s[0] = 1;  // all-zero state is a fixed point
            proof {
                let w = seed_words(seed);
                assert(s =~= [1u32, w[1], w[2], w[3]]);
                let (a, b, c, d) = (s[0], s[1], s[2], s[3]);
                assert(a == 1 ==> a | b | c | d != 0) by (bit_vector);
            }
        }
        Rng { s }
    }

    /// Next 32 random bits.
    pub fn next_u32(&mut self) -> (r: u32)
        ensures
            r == output(old(self)@),
            final(self)@ == advance(old(self)@),
            *final(self) == old(self).next_state(),
    {
        let s0 = self.s[0];
        let s1 = self.s[1];
        let s2 = self.s[2];
        let s3 = self.s[3];
        let result = rotl32(s1.wrapping_mul(5), 7).wrapping_mul(9);
        let t = s1 << 9u32;
        let c = s2 ^ s0;
        let d = s3 ^ s1;
        let b = s1 ^ c;
        let a = s0 ^ d;
        self.s = [a, b, c ^ t, rotl32(d, 11)];
        proof {
            assert(self.s =~= advance(old(self)@));
            assert(*self == old(self).next_state());
        }
        result
    }

    /// Uniform integer in `0..n` (Lemire's multiply-shift; deterministic).
    pub fn below(&mut self, n: u32) -> (r: u32)
        ensures
            r == below_spec(output(old(self)@), n),
            final(self)@ == advance(old(self)@),
            *final(self) == old(self).next_state(),
            n > 0 ==> r < n,
    {
        let x = self.next_u32();
        proof {
            assert(0 <= x as int * n as int <= 0xFFFF_FFFF * 0xFFFF_FFFF) by (nonlinear_arith)
                requires
                    0 <= x <= 0xFFFF_FFFF,
                    0 <= n <= 0xFFFF_FFFF,
            ;
            if n > 0 {
                assert((x as int * n as int) / 0x1_0000_0000 < n) by (nonlinear_arith)
                    requires
                        0 <= x <= 0xFFFF_FFFF,
                        0 < n,
                ;
            }
        }
        let p = x as u64 * n as u64;
        assert((p >> 32u64) == p / 0x1_0000_0000) by (bit_vector);
        (p >> 32u64) as u32
    }

    /// Uniform integer in `lo..=hi`.
    pub fn range_i32(&mut self, lo: i32, hi: i32) -> (r: i32)
        requires
            lo <= hi,
            hi - lo + 1 <= i32::MAX,
        ensures
            r == lo + below_spec(output(old(self)@), (hi - lo + 1) as u32),
            final(self)@ == advance(old(self)@),
            *final(self) == old(self).next_state(),
            lo <= r <= hi,
    {
        let span = (hi - lo + 1) as u32;
        let k = self.below(span);
        lo + k as i32
    }
}

/// The generator never reaches the all-zero state, which would make it stuck.
pub proof fn lemma_advance_never_all_zero(s: [u32; 4])
    requires
        !all_zero(s),
    ensures
        !all_zero(advance(s)),
{
    let (a, b, c, d) = (s[0], s[1], s[2], s[3]);
    assert(a | b | c | d != 0 ==> (a ^ (d ^ b)) | (b ^ (c ^ a)) | ((c ^ a) ^ (b << 9u32)) | (((d
        ^ b) << 11u32) | ((d ^ b) >> 21u32)) != 0) by (bit_vector);
}

/// Same seed, same sequence: seeding is a function of the seed alone, and so is every draw.
pub proof fn lemma_same_seed_same_sequence(a: Rng, b: Rng)
    requires
        a@ == b@,
    ensures
        output(a@) == output(b@),
        advance(a@) == advance(b@),
{
}

} // verus!
