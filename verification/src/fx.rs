//! Q16.16 fixed-point number. All world math in the simulation uses this type.
//!
//! Arithmetic saturates instead of wrapping so that an out-of-range value degrades
//! gameplay locally instead of silently teleporting an entity (and it stays deterministic).

use vstd::prelude::*;
use vstd::std_specs::ops::{AddSpec, DivSpec, MulSpec};

verus! {

/// Raw value of 1.0 (one world tile).
pub const ONE_RAW: i32 = 65536;
/// Raw value of 0.5.
pub const HALF_RAW: i32 = 32768;

/// `v` clamped into the `i32` range.
pub open spec fn clamp_i32(v: int) -> i32 {
    if v > i32::MAX {
        i32::MAX
    } else if v < i32::MIN {
        i32::MIN
    } else {
        v as i32
    }
}

/// Integer division rounding toward zero (Rust's `/` on signed integers); `b != 0`.
pub open spec fn trunc_div(a: int, b: int) -> int {
    if a >= 0 {
        a / b
    } else {
        -((-a) / b)
    }
}

/// Floor of `a / 2^16` (what an arithmetic right shift by the fraction bits computes).
pub open spec fn floor_frac(a: int) -> int {
    a / 65536
}

/// Q16.16 fixed-point value. `Fixed::one()` is one world tile.
#[derive(Clone, Copy, Debug, Default, PartialEq, Eq, PartialOrd, Ord, Hash, Structural)]
pub struct Fixed(pub i32);

/// Saturating product of two raw Q16.16 values.
pub open spec fn mul_spec(a: i32, b: i32) -> i32 {
    clamp_i32(floor_frac(a * b))
}

/// Quotient of two raw Q16.16 values; division by zero yields zero.
pub open spec fn div_spec(a: i32, b: i32) -> i32 {
    if b == 0 {
        0
    } else {
        clamp_i32(trunc_div(a * 65536, b as int))
    }
}

/// `x * x + y * y` over raw values (Q32.32).
pub open spec fn len_sq_spec(x: Fixed, y: Fixed) -> int {
    x.0 * x.0 + y.0 * y.0
}

/// Fixed-point product (saturating).
pub open spec fn fmul(a: Fixed, b: Fixed) -> Fixed {
    Fixed(mul_spec(a.0, b.0))
}

/// Fixed-point quotient (zero when dividing by zero).
pub open spec fn fdiv(a: Fixed, b: Fixed) -> Fixed {
    Fixed(div_spec(a.0, b.0))
}

/// Saturating negation.
pub open spec fn fneg(a: Fixed) -> Fixed {
    Fixed(clamp_i32(-a.0))
}

/// Saturating absolute value of a raw value.
pub open spec fn abs_spec(v: i32) -> i32 {
    if v == i32::MIN {
        i32::MAX
    } else if v < 0 {
        -v as i32
    } else {
        v
    }
}

impl Fixed {
    /// Number of fractional bits.
    pub const FRAC_BITS: u32 = 16;

    /// 0.0
    pub fn zero() -> (r: Fixed)
        ensures
            r.0 == 0,
    {
        Fixed(0)
    }

    /// 1.0
    pub fn one() -> (r: Fixed)
        ensures
            r.0 == ONE_RAW,
    {
        Fixed(ONE_RAW)
    }

    /// 0.5
    pub fn half() -> (r: Fixed)
        ensures
            r.0 == HALF_RAW,
    {
        Fixed(HALF_RAW)
    }

    /// Smallest positive value.
    pub fn epsilon() -> (r: Fixed)
        ensures
            r.0 == 1,
    {
        Fixed(1)
    }

    /// Integer to fixed (saturating).
    pub fn from_int(v: i32) -> (r: Fixed)
        ensures
            r.0 == clamp_i32(v * 65536),
    {
        let w = v as i64 * 65536;
        Fixed(sat_i64(w))
    }

    /// `num / den` as fixed, rounding toward zero and wrapping into `i32` like an `as` cast.
    pub fn ratio(num: i32, den: i32) -> (r: Fixed)
        requires
            den != 0,
        ensures
            r.0 == (trunc_div(num * 65536, den as int)) as i32,
    {
        let n = num as i64 * 65536;
        let q = trunc_div_i64(n, den as i64);
        Fixed(q as i32)
    }

    /// Floor to integer (tile index). Arithmetic shift floors toward negative infinity.
    pub fn floor_int(self) -> (r: i32)
        ensures
            r == floor_frac(self.0 as int),
    {
        let v = self.0;
        assert((v >> 16u32) == v / 65536) by (bit_vector);
        v >> 16u32
    }

    /// Absolute value (saturating at `i32::MAX`).
    pub fn abs(self) -> (r: Fixed)
        ensures
            r.0 == abs_spec(self.0),
    {
        if self.0 == i32::MIN {
            Fixed(i32::MAX)
        } else if self.0 < 0 {
            Fixed(-self.0)
        } else {
            self
        }
    }

    /// Clamp into `[lo, hi]`.
    pub fn clamp(self, lo: Fixed, hi: Fixed) -> (r: Fixed)
        requires
            lo.0 <= hi.0,
        ensures
            r.0 == (if self.0 < lo.0 {
                lo.0
            } else if self.0 > hi.0 {
                hi.0
            } else {
                self.0
            }),
    {
        if self.0 < lo.0 {
            lo
        } else if self.0 > hi.0 {
            hi
        } else {
            self
        }
    }

    /// Raw squared magnitude of a vector as `i64` in Q32.32.
    pub fn len_sq(x: Fixed, y: Fixed) -> (r: i64)
        requires
            len_sq_spec(x, y) <= i64::MAX,
        ensures
            r == len_sq_spec(x, y),
    {
        let a = x.0 as i64;
        let b = y.0 as i64;
        proof {
            assert(a * a >= 0) by (nonlinear_arith);
            assert(b * b >= 0) by (nonlinear_arith);
            assert(a * a <= 0x4000_0000_0000_0000) by (nonlinear_arith)
                requires
                    -0x8000_0000 <= a <= 0x7fff_ffff,
            ;
            assert(b * b <= 0x4000_0000_0000_0000) by (nonlinear_arith)
                requires
                    -0x8000_0000 <= b <= 0x7fff_ffff,
            ;
        }
        a * a + b * b
    }

    /// Squared value of a scalar as Q32.32 `i64`, for comparing against [`Self::len_sq`].
    pub fn sq(self) -> (r: i64)
        ensures
            r == self.0 * self.0,
    {
        let v = self.0 as i64;
        proof {
            assert(v * v >= 0) by (nonlinear_arith);
            assert(v * v <= 0x4000_0000_0000_0000) by (nonlinear_arith)
                requires
                    -0x8000_0000 <= v <= 0x7fff_ffff,
            ;
        }
        v * v
    }

    /// Multiply by an integer (saturating).
    pub fn mul_int(self, k: i32) -> (r: Fixed)
        ensures
            r.0 == clamp_i32(self.0 * k),
    {
        let a = self.0 as i64;
        let b = k as i64;
        proof {
            assert(-0x4000_0000_0000_0000 <= a * b <= 0x4000_0000_0000_0000) by (nonlinear_arith)
                requires
                    -0x8000_0000 <= a <= 0x7fff_ffff,
                    -0x8000_0000 <= b <= 0x7fff_ffff,
            ;
        }
        Fixed(sat_i64(a * b))
    }
}

/// Rust's truncating `n / d` for operands well inside the `i64` range.
pub fn trunc_div_i64(n: i64, d: i64) -> (q: i64)
    requires
        d != 0,
        -0x4000_0000_0000_0000 <= n <= 0x4000_0000_0000_0000,
        -0x1_0000_0000 < d < 0x1_0000_0000,
    ensures
        q == trunc_div(n as int, d as int),
{
    let an: u64 = if n < 0 { (-n) as u64 } else { n as u64 };
    let ad: u64 = if d < 0 { (-d) as u64 } else { d as u64 };
    let aq = an / ad;
    proof {
        assert(aq <= an) by (nonlinear_arith)
            requires
                aq == an / ad,
                ad >= 1,
        ;
        if n >= 0 && d < 0 {
            assert((n as int) / (d as int) == -((n as int) / (-(d as int)))) by (nonlinear_arith)
                requires
                    n >= 0,
                    d < 0,
            ;
        }
        if n < 0 && d < 0 {
            assert((-(n as int)) / (d as int) == -((-(n as int)) / (-(d as int)))) by (nonlinear_arith)
                requires
                    n < 0,
                    d < 0,
            ;
        }
    }
    if (n < 0) != (d < 0) {
        -(aq as i64)
    } else {
        aq as i64
    }
}

/// Clamp an `i64` into the `i32` range.
pub fn sat_i64(v: i64) -> (r: i32)
    ensures
        r == clamp_i32(v as int),
{
    if v > i32::MAX as i64 {
        i32::MAX
    } else if v < i32::MIN as i64 {
        i32::MIN
    } else {
        v as i32
    }
}

impl core::ops::Add for Fixed {
    type Output = Fixed;

    fn add(self, rhs: Fixed) -> (r: Fixed) {
        Fixed(sat_i64(self.0 as i64 + rhs.0 as i64))
    }
}

impl vstd::std_specs::ops::AddSpecImpl for Fixed {
    open spec fn obeys_add_spec() -> bool {
        true
    }

    open spec fn add_req(self, rhs: Fixed) -> bool {
        true
    }

    open spec fn add_spec(self, rhs: Fixed) -> Fixed {
        Fixed(clamp_i32(self.0 + rhs.0))
    }
}

impl core::ops::AddAssign for Fixed {
    fn add_assign(&mut self, rhs: Fixed)
        ensures
            final(self).0 == clamp_i32(old(self).0 + rhs.0),
    {
        *self = *self + rhs;
    }
}

impl core::ops::SubAssign for Fixed {
    fn sub_assign(&mut self, rhs: Fixed)
        ensures
            final(self).0 == clamp_i32(old(self).0 - rhs.0),
    {
        *self = *self - rhs;
    }
}

impl core::ops::Sub for Fixed {
    type Output = Fixed;

    fn sub(self, rhs: Fixed) -> (r: Fixed) {
        Fixed(sat_i64(self.0 as i64 - rhs.0 as i64))
    }
}

impl vstd::std_specs::ops::SubSpecImpl for Fixed {
    open spec fn obeys_sub_spec() -> bool {
        true
    }

    open spec fn sub_req(self, rhs: Fixed) -> bool {
        true
    }

    open spec fn sub_spec(self, rhs: Fixed) -> Fixed {
        Fixed(clamp_i32(self.0 - rhs.0))
    }
}

impl core::ops::Neg for Fixed {
    type Output = Fixed;

    fn neg(self) -> (r: Fixed) {
        Fixed(sat_i64(-(self.0 as i64)))
    }
}

impl vstd::std_specs::ops::NegSpecImpl for Fixed {
    open spec fn obeys_neg_spec() -> bool {
        true
    }

    open spec fn neg_req(self) -> bool {
        true
    }

    open spec fn neg_spec(self) -> Fixed {
        Fixed(clamp_i32(-self.0))
    }
}

impl core::ops::Mul for Fixed {
    type Output = Fixed;

    fn mul(self, rhs: Fixed) -> (r: Fixed) {
        let a = self.0 as i64;
        let b = rhs.0 as i64;
        proof {
            assert(-0x4000_0000_0000_0000 <= a * b <= 0x4000_0000_0000_0000) by (nonlinear_arith)
                requires
                    -0x8000_0000 <= a <= 0x7fff_ffff,
                    -0x8000_0000 <= b <= 0x7fff_ffff,
            ;
        }
        let p = a * b;
        assert((p >> 16u64) == p / 65536) by (bit_vector);
        Fixed(sat_i64(p >> 16u64))
    }
}

impl vstd::std_specs::ops::MulSpecImpl for Fixed {
    open spec fn obeys_mul_spec() -> bool {
        true
    }

    open spec fn mul_req(self, rhs: Fixed) -> bool {
        true
    }

    open spec fn mul_spec(self, rhs: Fixed) -> Fixed {
        Fixed(mul_spec(self.0, rhs.0))
    }
}

impl core::ops::Div for Fixed {
    type Output = Fixed;

    /// Division by zero yields zero: a stalled entity beats a crashed peer.
    fn div(self, rhs: Fixed) -> (r: Fixed) {
        if rhs.0 == 0 {
            return Fixed(0);
        }
        let n = self.0 as i64 * 65536;
        let q = trunc_div_i64(n, rhs.0 as i64);
        Fixed(sat_i64(q))
    }
}

impl vstd::std_specs::ops::DivSpecImpl for Fixed {
    open spec fn obeys_div_spec() -> bool {
        true
    }

    open spec fn div_req(self, rhs: Fixed) -> bool {
        true
    }

    open spec fn div_spec(self, rhs: Fixed) -> Fixed {
        Fixed(div_spec(self.0, rhs.0))
    }
}

/// Floor square root: the `r` with `r * r <= n < (r + 1) * (r + 1)`.
pub open spec fn is_floor_sqrt(n: int, r: int) -> bool {
    0 <= r && r * r <= n < (r + 1) * (r + 1)
}

/// Integer square root of a `u64` (floor), fixed iteration count → deterministic cost.
/// Bisection over `[0, 2^32)`: exactly 32 halvings.
pub fn isqrt_u64(n: u64) -> (r: u64)
    ensures
        is_floor_sqrt(n as int, r as int),
{
    if n < 2 {
        proof {
            assert(is_floor_sqrt(n as int, n as int)) by (nonlinear_arith)
                requires
                    n < 2,
            ;
        }
        return n;
    }
    // invariant: lo * lo <= n < hi * hi
    let mut lo: u128 = 1;
    let mut hi: u128 = 0x1_0000_0000;
    let nn = n as u128;
    proof {
        assert(hi * hi == 0x1_0000_0000_0000_0000u128) by (nonlinear_arith)
            requires
                hi == 0x1_0000_0000u128,
        ;
    }
    while hi - lo > 1
        invariant
            1 <= lo < hi <= 0x1_0000_0000,
            lo * lo <= nn,
            nn < hi * hi,
            nn == n,
        decreases hi - lo,
    {
        let mid = lo + (hi - lo) / 2;
        proof {
            assert(mid * mid <= 0x1_0000_0000_0000_0000) by (nonlinear_arith)
                requires
                    mid <= 0x1_0000_0000,
            ;
        }
        if mid * mid <= nn {
            lo = mid;
        } else {
            hi = mid;
        }
    }
    proof {
        assert(hi == lo + 1);
    }
    lo as u64
}

/// Saturating addition is commutative.
pub proof fn lemma_add_commutative(a: Fixed, b: Fixed)
    ensures
        a.add_spec(b) == b.add_spec(a),
{
}

/// Saturating addition never wraps: the result is the exact sum clamped to the `i32` range.
pub proof fn lemma_add_saturates(a: Fixed, b: Fixed)
    ensures
        a.add_spec(b).0 == (if a.0 + b.0 > i32::MAX {
            i32::MAX as int
        } else if a.0 + b.0 < i32::MIN {
            i32::MIN as int
        } else {
            a.0 + b.0
        }),
{
}

/// Fixed-point multiplication is commutative.
pub proof fn lemma_mul_commutative(a: Fixed, b: Fixed)
    ensures
        a.mul_spec(b) == b.mul_spec(a),
{
    assert(a.0 * b.0 == b.0 * a.0) by (nonlinear_arith);
}

/// Multiplying by one is the identity.
pub proof fn lemma_mul_one(a: Fixed)
    ensures
        a.mul_spec(Fixed(ONE_RAW)) == a,
{
    assert((a.0 * 65536) / 65536 == a.0) by (nonlinear_arith);
}

/// For small integers, dividing a product by one factor gives back the other.
pub proof fn lemma_div_inverts_mul(a: int, b: int)
    requires
        -300 <= a < 300,
        1 <= b < 100,
    ensures
        Fixed((a * 65536) as i32).mul_spec(Fixed((b * 65536) as i32)).div_spec(
            Fixed((b * 65536) as i32),
        ) == Fixed((a * 65536) as i32),
{
    let fa = a * 65536;
    let fb = b * 65536;
    assert((fa * fb) / 65536 == a * b * 65536) by (nonlinear_arith)
        requires
            fa == a * 65536,
            fb == b * 65536,
    ;
    let p = a * b * 65536;
    assert(-300 * 100 * 65536 <= p <= 300 * 100 * 65536) by (nonlinear_arith)
        requires
            p == a * b * 65536,
            -300 <= a < 300,
            1 <= b < 100,
    ;
    assert(trunc_div(p * 65536, fb) == fa) by (nonlinear_arith)
        requires
            p == a * b * 65536,
            fa == a * 65536,
            fb == b * 65536,
            b >= 1,
    {
        if a >= 0 {
            assert(p * 65536 == fa * fb);
            assert(p * 65536 >= 0);
        } else {
            assert(-(p * 65536) == (-fa) * fb);
        }
    }
}

} // verus!
