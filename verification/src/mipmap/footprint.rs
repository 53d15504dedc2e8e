//! The footprint of a lookup: the ellipse that the two screen-space
//! derivatives of the texture coordinate span.

use vstd::prelude::*;
use crate::mipmap::fixed::{floor_div, is_sqrt_floor, isqrt, sqrt_floor, Fixed, ONE};
use crate::mipmap::filter::magnitude;

verus! {

/// Largest cap on the ratio of the ellipse's axes: 64. The cap bounds the
/// number of texels under a footprint, and with it both the cost of a
/// lookup and the size of the numbers in it, which are kept within 128 bits.
/// A texture that asks for a greater cap is filtered with this one.
pub const ANISO_MAX: Fixed = 0x40_0000;

/// The two axes of an elliptical footprint, in texture coordinates.
#[derive(Copy, Clone, Debug, PartialEq, Eq, Structural)]
pub struct Axes {
    pub major_s: Fixed,
    pub major_t: Fixed,
    pub minor_s: Fixed,
    pub minor_t: Fixed,
}

impl Axes {
    /// Both axes are shorter than the greatest anisotropy cap, and the minor
    /// axis has a length.
    pub open spec fn wf(self) -> bool {
        &&& magnitude(self.major_s as int) <= ANISO_MAX
        &&& magnitude(self.major_t as int) <= ANISO_MAX
        &&& magnitude(self.minor_s as int) <= ANISO_MAX
        &&& magnitude(self.minor_t as int) <= ANISO_MAX
        &&& length_sq(self.minor_s as int, self.minor_t as int) >= 1
    }

    /// Sum of the squares of the axes' `s` components.
    pub open spec fn sxx(self) -> int {
        self.major_s * self.major_s + self.minor_s * self.minor_s
    }

    /// Sum of the products of each axis' `s` and `t` components.
    pub open spec fn sxy(self) -> int {
        self.major_s * self.major_t + self.minor_s * self.minor_t
    }

    /// Sum of the squares of the axes' `t` components.
    pub open spec fn syy(self) -> int {
        self.major_t * self.major_t + self.minor_t * self.minor_t
    }
}

/// What the two derivatives of a lookup amount to.
#[derive(Copy, Clone, Debug, PartialEq, Eq, Structural)]
pub enum Footprint {
    /// The shorter derivative has no length: there is no ellipse.
    Degenerate,
    /// The longer derivative is at least as long as the anisotropy cap, so
    /// that the footprint spans the whole texture.
    Vast,
    /// An ellipse with these axes, the minor one stretched where the cap on
    /// the ratio of the axes asks for it.
    Ellipse(Axes),
}

/// The squared length of the vector `(a, b)`.
pub open spec fn length_sq(a: int, b: int) -> int {
    a * a + b * b
}

/// The factor, as a fixed-point number, by which a minor axis of squared
/// length `minor` is stretched so that a major axis of squared length `major`
/// is at most `aniso` times as long: 1 where it is so already.
pub open spec fn stretch(major: int, minor: int, aniso: int) -> int {
    if minor * (aniso * aniso) < major * (ONE * ONE) {
        sqrt_floor(major * (ONE * ONE * ONE * ONE) / (minor * (aniso * aniso)))
    } else {
        ONE as int
    }
}

/// The footprint of the derivatives `(dsdx, dtdx)` and `(dsdy, dtdy)` under
/// the anisotropy cap `aniso`. The longer derivative is the major axis (the
/// first, where they are equally long).
pub open spec fn footprint_of(dsdx: int, dtdx: int, dsdy: int, dtdy: int, aniso: int) -> Footprint {
    let first_is_major = length_sq(dsdx, dtdx) >= length_sq(dsdy, dtdy);
    let a0 = if first_is_major { dsdx } else { dsdy };
    let b0 = if first_is_major { dtdx } else { dtdy };
    let a1 = if first_is_major { dsdy } else { dsdx };
    let b1 = if first_is_major { dtdy } else { dtdx };
    if length_sq(a1, b1) == 0 {
        Footprint::Degenerate
    } else if length_sq(a0, b0) >= aniso * aniso {
        Footprint::Vast
    } else {
        let f = stretch(length_sq(a0, b0), length_sq(a1, b1), aniso);
        Footprint::Ellipse(
            Axes {
                major_s: a0 as Fixed,
                major_t: b0 as Fixed,
                minor_s: (a1 * f / (ONE as int)) as Fixed,
                minor_t: (b1 * f / (ONE as int)) as Fixed,
            },
        )
    }
}

impl Footprint {
    /// An ellipse's axes are well formed.
    pub open spec fn wf(self) -> bool {
        self matches Footprint::Ellipse(axes) ==> axes.wf()
    }

    /// Classifies the footprint of two derivatives.
    pub fn new(dsdx: Fixed, dtdx: Fixed, dsdy: Fixed, dtdy: Fixed, aniso: Fixed) -> (r: Footprint)
        requires
            ONE <= aniso <= ANISO_MAX,
        ensures
            r == footprint_of(dsdx as int, dtdx as int, dsdy as int, dtdy as int, aniso as int),
            r.wf(),
    {
        let x_sq = square_length(dsdx, dtdx);
        let y_sq = square_length(dsdy, dtdy);
        let first_is_major = x_sq >= y_sq;
        let a0 = if first_is_major { dsdx } else { dsdy };
        let b0 = if first_is_major { dtdx } else { dtdy };
        let a1 = if first_is_major { dsdy } else { dsdx };
        let b1 = if first_is_major { dtdy } else { dtdx };
        let major: u128 = if first_is_major { x_sq } else { y_sq };
        let minor: u128 = if first_is_major { y_sq } else { x_sq };
        if minor == 0 {
            return Footprint::Degenerate;
        }
        assert(aniso * aniso <= 0x1000_0000_0000) by (nonlinear_arith)
            requires
                0 <= aniso <= 0x40_0000,
        ;
        let cap: u128 = (aniso as u128) * (aniso as u128);
        if major >= cap {
            return Footprint::Vast;
        }
        proof {
            lemma_components_below(a0 as int, b0 as int, aniso as int);
            lemma_components_below(a1 as int, b1 as int, aniso as int);
            lemma_components_below(b0 as int, a0 as int, aniso as int);
            lemma_components_below(b1 as int, a1 as int, aniso as int);
        }
        let four: u128 = 0x1_0000_0000_0000_0000;
        assert(four == ONE * ONE * ONE * ONE);
        assert(cap <= 0x1000_0000_0000) by (nonlinear_arith)
            requires
                cap == aniso * aniso,
                0 <= aniso <= 0x40_0000,
        ;
        assert(minor * cap <= 0x1000_0000_0000 * 0x1000_0000_0000) by (nonlinear_arith)
            requires
                minor <= 0x1000_0000_0000,
                cap <= 0x1000_0000_0000,
        ;
        assert(minor * cap >= 1) by (nonlinear_arith)
            requires
                minor >= 1,
                cap >= 1,
        ;
        let factor: i128 = if minor * cap < major * 0x1_0000_0000 {
            let n: u128 = major * four;
            let d: u128 = minor * cap;
            let q: u128 = n / d;
            proof {
                vstd::arithmetic::div_mod::lemma_div_is_ordered(0, n as int, d as int);
                vstd::arithmetic::div_mod::lemma_div_is_ordered_by_denominator(n as int, 1, d as int);
            }
            isqrt(q as i128)
        } else {
            ONE as i128
        };
        assert(factor == stretch(major as int, minor as int, aniso as int));
        proof {
            lemma_stretch_bounds(a1 as int, b1 as int, major as int, minor as int, aniso as int, factor as int);
            lemma_stretch_bounds(b1 as int, a1 as int, major as int, minor as int, aniso as int, factor as int);
            lemma_stretch_grows(a1 as int, factor as int);
            lemma_stretch_grows(b1 as int, factor as int);
            assert(0 <= factor < 0x80_0000_0000_0000);
            assert(-0x40_0000 * 0x80_0000_0000_0000 <= a1 * factor <= 0x40_0000 * 0x80_0000_0000_0000) by (nonlinear_arith)
                requires
                    -0x40_0000 <= a1 <= 0x40_0000,
                    0 <= factor < 0x80_0000_0000_0000,
            ;
            assert(-0x40_0000 * 0x80_0000_0000_0000 <= b1 * factor <= 0x40_0000 * 0x80_0000_0000_0000) by (nonlinear_arith)
                requires
                    -0x40_0000 <= b1 <= 0x40_0000,
                    0 <= factor < 0x80_0000_0000_0000,
            ;
        }
        let minor_s = floor_div((a1 as i128) * factor, ONE as i128);
        let minor_t = floor_div((b1 as i128) * factor, ONE as i128);
        proof {
            let u = minor_s as int;
            let v = minor_t as int;
            assert(u * u + v * v >= 1) by (nonlinear_arith)
                requires
                    u != 0 || v != 0,
            ;
        }
        Footprint::Ellipse(Axes { major_s: a0, major_t: b0, minor_s: minor_s as i64, minor_t: minor_t as i64 })
    }
}

/// The squared length of `(a, b)`.
fn square_length(a: Fixed, b: Fixed) -> (r: u128)
    ensures
        r == length_sq(a as int, b as int),
{
    let x: u128 = if a < 0 { (-(a as i128)) as u128 } else { a as u128 };
    let y: u128 = if b < 0 { (-(b as i128)) as u128 } else { b as u128 };
    assert(x * x <= 0x4000_0000_0000_0000_0000_0000_0000_0000 && x * x == a * a) by (nonlinear_arith)
        requires
            0 <= x <= 0x8000_0000_0000_0000,
            x == a || x == -a,
    ;
    assert(y * y <= 0x4000_0000_0000_0000_0000_0000_0000_0000 && y * y == b * b) by (nonlinear_arith)
        requires
            0 <= y <= 0x8000_0000_0000_0000,
            y == b || y == -b,
    ;
    x * x + y * y
}

/// A vector shorter than `bound` has components smaller than `bound`.
proof fn lemma_components_below(a: int, b: int, bound: int)
    requires
        length_sq(a, b) < bound * bound,
        bound >= 0,
    ensures
        magnitude(a) < bound,
        a * a <= length_sq(a, b),
{
    assert(a * a <= a * a + b * b) by (nonlinear_arith);
    if magnitude(a) >= bound {
        assert(a * a >= bound * bound) by (nonlinear_arith)
            requires
                a >= bound || -a >= bound,
                bound >= 0,
        ;
    }
}

/// Stretching takes a component of the minor axis to at most 1 in magnitude
/// where it stretches at all, and leaves it as it is otherwise.
proof fn lemma_stretch_bounds(a: int, b: int, major: int, minor: int, aniso: int, f: int)
    requires
        minor == length_sq(a, b),
        minor >= 1,
        0 <= major < aniso * aniso,
        minor <= major,
        ONE <= aniso <= ANISO_MAX,
        f == stretch(major, minor, aniso),
    ensures
        magnitude(a * f / (ONE as int)) <= ANISO_MAX,
        f >= ONE,
{
    let cap = aniso * aniso;
    lemma_components_below(a, b, aniso);
    if minor * cap < major * (ONE * ONE) {
        let four = ONE * ONE * ONE * ONE;
        let n = major * four;
        let d = minor * cap;
        let q = n / d;
        assert(cap >= 1 && d >= 1) by (nonlinear_arith)
            requires
                aniso >= 1,
                minor >= 1,
                cap == aniso * aniso,
                d == minor * cap,
        ;
        assert(n >= 0) by (nonlinear_arith)
            requires
                major >= 0,
                n == major * four,
                four >= 0,
        ;
        vstd::arithmetic::div_mod::lemma_div_pos_is_pos(n, d);
        assert(exists|r: int| is_sqrt_floor(r, q)) by {
            lemma_sqrt_exists(q);
        }
        assert(is_sqrt_floor(f, q));
        vstd::arithmetic::div_mod::lemma_fundamental_div_mod(n, d);
        vstd::arithmetic::div_mod::lemma_mod_bound(n, d);
        // f * f * d <= q * d <= n
        assert(f * f * d <= n) by (nonlinear_arith)
            requires
                f * f <= q,
                d >= 1,
                d * q <= n,
        ;
        // (a f)^2 cap <= minor f^2 cap = f^2 d <= n < cap * four
        assert((a * f) * (a * f) * cap <= f * f * d) by (nonlinear_arith)
            requires
                a * a <= minor,
                d == minor * cap,
                cap >= 1,
        ;
        assert(n < cap * four) by (nonlinear_arith)
            requires
                n == major * four,
                major < cap,
                four > 0,
        ;
        let p = a * f;
        assert(p * p < four) by (nonlinear_arith)
            requires
                p * p * cap < cap * four,
                cap >= 1,
        ;
        assert(-(ONE * ONE) < p < ONE * ONE) by (nonlinear_arith)
            requires
                p * p < four,
                four == ONE * ONE * ONE * ONE,
        ;
        // q >= ONE * ONE, hence f >= ONE
        assert(d * (ONE * ONE) <= n) by (nonlinear_arith)
            requires
                d == minor * cap,
                minor * cap < major * (ONE * ONE),
                n == major * (ONE * ONE * ONE * ONE),
        ;
        vstd::arithmetic::div_mod::lemma_div_is_ordered(d * (ONE * ONE), n, d);
        crate::mipmap::fixed::lemma_quotient_exact(ONE * ONE, d);
        if f < ONE {
            crate::mipmap::fixed::lemma_square_monotone(f + 1, ONE as int);
        }
    } else {
        assert(a * f == a * ONE);
        assert(a * ONE / (ONE as int) == a) by {
            crate::mipmap::fixed::lemma_quotient_exact(a, ONE as int);
        }
    }
}

/// Every non-negative integer has an integer square root.
pub proof fn lemma_sqrt_exists(n: int)
    requires
        n >= 0,
    ensures
        exists|r: int| is_sqrt_floor(r, n),
    decreases n,
{
    if n == 0 {
        assert(is_sqrt_floor(0, 0));
    } else {
        let m = n - 1;
        lemma_sqrt_exists(m);
        let r = choose|r: int| is_sqrt_floor(r, m);
        if (r + 1) * (r + 1) <= n {
            assert(is_sqrt_floor(r + 1, n)) by (nonlinear_arith)
                requires
                    0 <= r,
                    r * r <= n - 1 < (r + 1) * (r + 1),
                    (r + 1) * (r + 1) <= n,
            ;
        } else {
            assert(is_sqrt_floor(r, n));
        }
    }
}

/// A factor of at least 1 does not bring a component nearer to zero.
proof fn lemma_stretch_grows(a: int, f: int)
    requires
        f >= ONE,
    ensures
        a > 0 ==> a * f / (ONE as int) >= a,
        a < 0 ==> a * f / (ONE as int) <= a,
        a == 0 ==> a * f / (ONE as int) == 0,
{
    crate::mipmap::fixed::lemma_quotient_exact(a, ONE as int);
    if a > 0 {
        assert(a * f >= a * ONE) by (nonlinear_arith)
            requires
                a > 0,
                f >= ONE,
        ;
        vstd::arithmetic::div_mod::lemma_div_is_ordered(a * ONE, a * f, ONE as int);
    } else if a < 0 {
        assert(a * f <= a * ONE) by (nonlinear_arith)
            requires
                a < 0,
                f >= ONE,
        ;
        vstd::arithmetic::div_mod::lemma_div_is_ordered(a * f, a * ONE, ONE as int);
    } else {
        assert(a * f == 0) by (nonlinear_arith)
            requires
                a == 0,
        ;
    }
}

} // verus!
