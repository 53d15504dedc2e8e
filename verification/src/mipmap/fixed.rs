//! Fixed-point numbers and the integer helpers the pyramid code is built on.
//!
//! A [`Fixed`] value `v` stands for the real number `v / 65536`. A texture
//! coordinate thus resolves 1/65536 of an image's extent, and a weight
//! 1/65536 of the whole.

use vstd::prelude::*;
use vstd::arithmetic::power2::{lemma2_to64, lemma_pow2_pos, lemma_pow2_unfold, pow2};

verus! {

/// A signed fixed-point number with [`FRAC_BITS`] fractional bits.
pub type Fixed = i64;

/// Number of fractional bits of a [`Fixed`].
pub const FRAC_BITS: u32 = 16;

/// The fixed-point representation of 1.
pub const ONE: i64 = 65536;

/// The fixed-point representation of 1/2.
pub const HALF: i64 = 32768;

/// Largest magnitude a stored texel may have: `2^24` as a fixed-point
/// number. The bound is what lets every weighted sum of a lookup, over as
/// many texels as a footprint may cover, be formed in 128 bits without a
/// check; an image with a texel beyond it is refused when its pyramid is built.
pub const TEXEL_MAX: i64 = 0x100_0000_0000;

/// Largest width or height of a pyramid level. With it the number of texels
/// of a level fits in `usize` where that has 32 bits, and the position of
/// any texture coordinate on any level fits in 128 bits; a larger image is
/// refused when its pyramid is built.
pub const MAX_DIM: usize = 32768;

/// `floor(log2(n))` for `n >= 1`, and 0 for `n == 0`.
pub open spec fn log2_floor(n: nat) -> nat
    decreases n,
{
    if n <= 1 {
        0
    } else {
        1 + log2_floor(n / 2)
    }
}

/// `n` is 1, 2, 4, 8, ...
pub open spec fn is_power_of_two(n: nat) -> bool {
    n == pow2(log2_floor(n))
}

/// The smallest power of two that is at least `n`.
pub open spec fn pow2_ceil(n: nat) -> nat {
    if n == 0 {
        1
    } else if is_power_of_two(n) {
        n
    } else {
        pow2(log2_floor(n) + 1)
    }
}

/// `2^floor(log2 n) <= n < 2^(floor(log2 n) + 1)` for positive `n`.
pub proof fn lemma_log2_floor_bounds(n: nat)
    requires
        n >= 1,
    ensures
        pow2(log2_floor(n)) <= n < pow2(log2_floor(n) + 1),
    decreases n,
{
    lemma2_to64();
    if n > 1 {
        lemma_log2_floor_bounds(n / 2);
        lemma_pow2_unfold(log2_floor(n));
        lemma_pow2_unfold(log2_floor(n) + 1);
    }
}

/// The exponent `k` with `2^k <= n < 2^(k+1)` is `floor(log2 n)`.
pub proof fn lemma_log2_floor_unique(n: nat, k: nat)
    requires
        pow2(k) <= n < pow2(k + 1),
    ensures
        log2_floor(n) == k,
    decreases k,
{
    lemma2_to64();
    lemma_pow2_pos(k);
    if k == 0 {
    } else {
        lemma_pow2_unfold(k);
        lemma_pow2_unfold(k + 1);
        lemma_log2_floor_unique(n / 2, (k - 1) as nat);
    }
}

/// Every power of two is its own `pow2_ceil`, and has the exponent as its logarithm.
pub proof fn lemma_pow2_is_power_of_two(k: nat)
    ensures
        log2_floor(pow2(k)) == k,
        is_power_of_two(pow2(k)),
        pow2_ceil(pow2(k)) == pow2(k),
{
    lemma_pow2_pos(k);
    lemma_pow2_unfold(k + 1);
    lemma_log2_floor_unique(pow2(k), k);
}

/// `pow2_ceil(n)` is a power of two, at least `n`, and less than `2n`.
pub proof fn lemma_pow2_ceil_bounds(n: nat)
    requires
        n >= 1,
    ensures
        is_power_of_two(pow2_ceil(n)),
        n <= pow2_ceil(n) < 2 * n,
        pow2_ceil(n) == n <==> is_power_of_two(n),
{
    lemma_log2_floor_bounds(n);
    if !is_power_of_two(n) {
        lemma_pow2_is_power_of_two(log2_floor(n) + 1);
        lemma_pow2_unfold(log2_floor(n) + 1);
    }
}

/// A quotient whose numerator is within `m` times the denominator is within `m`.
pub proof fn lemma_quotient_bounds(num: int, den: int, m: int)
    requires
        den > 0,
        -(m * den) <= num <= m * den,
    ensures
        -m <= num / den <= m,
{
    vstd::arithmetic::div_mod::lemma_fundamental_div_mod(num, den);
    let q = num / den;
    let r = num % den;
    vstd::arithmetic::div_mod::lemma_mod_bound(num, den);
    assert(q <= m) by (nonlinear_arith)
        requires
            den * q + r <= m * den,
            0 <= r,
            den > 0,
    ;
    assert(q >= -m) by (nonlinear_arith)
        requires
            den * q + r >= -(m * den),
            r < den,
            den > 0,
    ;
}

/// A quotient whose numerator lies between `lo` and `hi` times the
/// denominator lies between `lo` and `hi`.
pub proof fn lemma_quotient_between(num: int, den: int, lo: int, hi: int)
    requires
        den > 0,
        lo * den <= num <= hi * den,
    ensures
        lo <= num / den <= hi,
{
    vstd::arithmetic::div_mod::lemma_fundamental_div_mod(num, den);
    let q = num / den;
    let r = num % den;
    vstd::arithmetic::div_mod::lemma_mod_bound(num, den);
    assert(q <= hi) by (nonlinear_arith)
        requires
            den * q + r <= hi * den,
            0 <= r,
            den > 0,
    ;
    assert(q >= lo) by (nonlinear_arith)
        requires
            den * q + r >= lo * den,
            r < den,
            den > 0,
    ;
}

/// A quotient of an exact multiple is the other factor.
pub proof fn lemma_quotient_exact(c: int, den: int)
    requires
        den > 0,
    ensures
        (c * den) / den == c,
        (den * c) / den == c,
{
    vstd::arithmetic::div_mod::lemma_div_multiples_vanish(c, den);
    assert(c * den == den * c) by (nonlinear_arith);
}

/// Floor of the quotient `a / b`.
pub fn floor_div(a: i128, b: i128) -> (q: i128)
    requires
        b > 0,
    ensures
        q == a / b,
{
    if a >= 0 {
        a / b
    } else {
        let m: i128 = -(a + 1);
        assert(a / b == -(m / b) - 1) by (nonlinear_arith)
            requires
                b > 0,
                m == -(a + 1),
                m >= 0,
        ;
        -(m / b) - 1
    }
}

/// The remainder `a mod b`, in `0..b`.
pub fn modulo(a: i128, b: i128) -> (r: i128)
    requires
        b > 0,
    ensures
        r == a % b,
        0 <= r < b,
{
    if a >= 0 {
        a % b
    } else {
        let m: i128 = -(a + 1);
        proof {
            let qa = a as int / b as int;
            let qm = m as int / b as int;
            assert(qa == -qm - 1) by (nonlinear_arith)
                requires
                    b > 0,
                    m == -(a + 1),
                    m >= 0,
                    qa == a as int / b as int,
                    qm == m as int / b as int,
            ;
            assert(b * qa == -(b * qm) - b) by (nonlinear_arith)
                requires
                    qa == -qm - 1,
            ;
            vstd::arithmetic::div_mod::lemma_fundamental_div_mod(a as int, b as int);
            vstd::arithmetic::div_mod::lemma_fundamental_div_mod(m as int, b as int);
        }
        b - 1 - (m % b)
    }
}

/// `floor(log2(n))`; 0 for `n == 0`.
pub fn log2_int(n: u64) -> (r: u32)
    ensures
        r == log2_floor(n as nat),
        r < 64,
{
    let mut r: u32 = 0;
    let mut m: u64 = n;
    proof {
        lemma2_to64();
        vstd::arithmetic::power2::lemma2_to64_rest();
    }
    while m > 1
        invariant
            r + log2_floor(m as nat) == log2_floor(n as nat),
            m * pow2(r as nat) <= n,
            r < 64,
            pow2(64) == 0x1_0000_0000_0000_0000,
        decreases m,
    {
        proof {
            lemma_pow2_unfold((r + 1) as nat);
            assert((m / 2) * (2 * pow2(r as nat)) <= m * pow2(r as nat)) by (nonlinear_arith)
                requires
                    m > 1,
            ;
            if r == 63 {
                assert(m * pow2(63) >= 2 * pow2(63)) by (nonlinear_arith)
                    requires
                        m >= 2,
                ;
                lemma_pow2_unfold(64);
            }
        }
        m = m / 2;
        r = r + 1;
    }
    r
}

/// `floor(log2(n))` together with `2^floor(log2(n))`, for `n >= 1`.
pub fn log2_with_power(n: u64) -> (r: (u32, u64))
    requires
        n >= 1,
    ensures
        r.0 == log2_floor(n as nat),
        r.1 == pow2(r.0 as nat),
        r.1 <= n < 2 * r.1,
        r.0 < 64,
{
    let mut k: u32 = 0;
    let mut p: u64 = 1;
    proof {
        lemma2_to64();
    }
    while n / 2 >= p
        invariant
            p == pow2(k as nat),
            1 <= p <= n,
            k < 64,
        decreases n - p,
    {
        proof {
            lemma_pow2_unfold((k + 1) as nat);
            if k == 63 {
                vstd::arithmetic::power2::lemma2_to64_rest();
            }
        }
        p = p * 2;
        k = k + 1;
    }
    proof {
        lemma_pow2_unfold((k + 1) as nat);
        lemma_log2_floor_unique(n as nat, k as nat);
    }
    (k, p)
}

/// Whether `n` is a power of two.
pub fn is_power_of_2(n: usize) -> (r: bool)
    ensures
        r == is_power_of_two(n as nat),
{
    if n == 0 {
        proof {
            lemma2_to64();
        }
        return false;
    }
    let k = log2_int(n as u64);
    let mut p: usize = 1;
    let mut i: u32 = 0;
    proof {
        lemma2_to64();
        lemma_log2_floor_bounds(n as nat);
    }
    while i < k
        invariant
            i <= k,
            p == pow2(i as nat),
            k == log2_floor(n as nat),
            pow2(k as nat) <= n,
        decreases k - i,
    {
        proof {
            lemma_pow2_unfold((i + 1) as nat);
            if i + 1 < k {
                vstd::arithmetic::power2::lemma_pow2_strictly_increases((i + 1) as nat, k as nat);
            }
        }
        p = p * 2;
        i = i + 1;
    }
    p == n
}

/// The smallest power of two that is at least `n`, for `1 <= n <= MAX_DIM`.
pub fn round_up_pow2(n: usize) -> (r: usize)
    requires
        1 <= n <= MAX_DIM,
    ensures
        r == pow2_ceil(n as nat),
        r <= MAX_DIM,
{
    let mut p: usize = 1;
    let ghost mut k: nat = 0;
    proof {
        lemma2_to64();
    }
    while p < n
        invariant
            1 <= n <= MAX_DIM,
            p == pow2(k),
            k == 0 || pow2((k - 1) as nat) < n,
            p <= MAX_DIM,
        decreases MAX_DIM - p,
    {
        proof {
            lemma2_to64();
            lemma_pow2_pos(k);
            lemma_pow2_unfold(k + 1);
            if k > 15 {
                vstd::arithmetic::power2::lemma_pow2_strictly_increases(15, k);
            }
            if k + 1 < 15 {
                vstd::arithmetic::power2::lemma_pow2_strictly_increases(k + 1, 15);
            }
            k = k + 1;
        }
        p = p * 2;
    }
    proof {
        if k == 0 {
            assert(n == 1);
            lemma_pow2_is_power_of_two(0);
        } else {
            lemma_pow2_unfold(k);
            let j = (k - 1) as nat;
            if p == n {
                lemma_pow2_is_power_of_two(k);
            } else {
                lemma_log2_floor_unique(n as nat, j);
                lemma_log2_floor_bounds(n as nat);
            }
        }
    }
    p
}

/// `r` is the integer square root of `n`: `r * r <= n < (r + 1) * (r + 1)`.
pub open spec fn is_sqrt_floor(r: int, n: int) -> bool {
    0 <= r && r * r <= n < (r + 1) * (r + 1)
}

/// The integer square root of `n >= 0`, rounded down.
pub open spec fn sqrt_floor(n: int) -> int {
    choose|r: int| is_sqrt_floor(r, n)
}

/// The integer square root of `n >= 0`, rounded up.
pub open spec fn sqrt_ceil(n: int) -> int {
    if sqrt_floor(n) * sqrt_floor(n) == n {
        sqrt_floor(n)
    } else {
        sqrt_floor(n) + 1
    }
}

/// Squaring is monotone on the non-negative integers.
pub proof fn lemma_square_monotone(a: int, b: int)
    requires
        0 <= a <= b,
    ensures
        a * a <= b * b,
        a < b ==> a * a < b * b,
{
    assert(a * a <= b * b) by (nonlinear_arith)
        requires
            0 <= a <= b,
    ;
    if a < b {
        assert(a * a < b * b) by (nonlinear_arith)
            requires
                0 <= a < b,
        ;
    }
}

/// There is one integer square root.
pub proof fn lemma_sqrt_floor_unique(r: int, n: int)
    requires
        is_sqrt_floor(r, n),
    ensures
        sqrt_floor(n) == r,
{
    let q = sqrt_floor(n);
    assert(is_sqrt_floor(q, n));
    if q < r {
        lemma_square_monotone(q + 1, r);
    } else if r < q {
        lemma_square_monotone(r + 1, q);
    }
}

/// The largest number a square root is taken of.
pub const SQRT_MAX: i128 = 0x4000_0000_0000_0000_0000_0000_0000;

/// The integer square root of `n`, rounded down.
pub fn isqrt(n: i128) -> (r: i128)
    requires
        0 <= n < SQRT_MAX,
    ensures
        r == sqrt_floor(n as int),
        is_sqrt_floor(r as int, n as int),
        0 <= r < 0x80_0000_0000_0000,
{
    let mut lo: i128 = 0;
    let mut hi: i128 = 0x80_0000_0000_0000;
    while hi - lo > 1
        invariant
            0 <= lo < hi <= 0x80_0000_0000_0000,
            lo * lo <= n < hi * hi,
        decreases hi - lo,
    {
        let mid = lo + (hi - lo) / 2;
        proof {
            lemma_square_monotone(mid as int, 0x80_0000_0000_0000);
        }
        if mid * mid <= n {
            lo = mid;
        } else {
            hi = mid;
        }
    }
    proof {
        lemma_sqrt_floor_unique(lo as int, n as int);
    }
    lo
}

/// A product is bounded by the product of its factors' bounds.
pub proof fn lemma_product_bound(a: int, b: int, ma: int, mb: int)
    requires
        -ma <= a <= ma,
        -mb <= b <= mb,
    ensures
        -(ma * mb) <= a * b <= ma * mb,
{
    assert(-(ma * mb) <= a * b <= ma * mb) by (nonlinear_arith)
        requires
            -ma <= a <= ma,
            -mb <= b <= mb,
    ;
}

/// The integer square root of `n`, rounded up.
pub fn isqrt_ceil(n: i128) -> (r: i128)
    requires
        0 <= n < SQRT_MAX,
    ensures
        r == sqrt_ceil(n as int),
        0 <= r <= 0x80_0000_0000_0000,
        n <= r * r,
        r == 0 || (r - 1) * (r - 1) < n,
{
    let r = isqrt(n);
    proof {
        lemma_square_monotone(r as int, 0x80_0000_0000_0000);
        if r >= 1 {
            lemma_square_monotone(r - 1, r as int);
        }
    }
    if r * r == n {
        r
    } else {
        r + 1
    }
}

} // verus!
