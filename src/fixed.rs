//! Decimal fixed-point scalars.
//!
//! A `Fixed` holds a number as a count of millionths in an `i64`. Every
//! operation is total and deterministic: results that do not fit are clamped
//! to the `i64` range, divisions round toward zero, and the degenerate cases
//! (division by zero, square root of a negative number) have fixed answers.
use vstd::prelude::*;

verus! {

/// Number of raw units in one whole unit.
pub const SCALE: i64 = 1_000_000;

/// Raw value of pi, rounded to six decimals.
pub const PI_RAW: i64 = 3_141_593;

/// Raw value of pi / 2, rounded to six decimals.
pub const HALF_PI_RAW: i64 = 1_570_796;

/// Raw value of 2 * pi, rounded to six decimals.
pub const TWO_PI_RAW: i64 = 6_283_185;

/// A signed decimal fixed-point number with six fractional digits.
#[derive(Clone, Copy, PartialEq, Eq, Structural, Debug)]
pub struct Fixed {
    pub raw: i64,
}

/// Clamps a mathematical integer into the `i64` range.
pub open spec fn clamp(x: int) -> int {
    if x > i64::MAX {
        i64::MAX as int
    } else if x < i64::MIN {
        i64::MIN as int
    } else {
        x
    }
}

pub open spec fn abs(x: int) -> int {
    if x < 0 {
        -x
    } else {
        x
    }
}

/// Division rounding toward zero (as Rust's `/` on signed integers does).
pub open spec fn tdiv(a: int, b: int) -> int {
    let q = abs(a) / abs(b);
    if (a < 0) != (b < 0) {
        -q
    } else {
        q
    }
}

pub open spec fn add_raw(a: int, b: int) -> int {
    clamp(a + b)
}

pub open spec fn sub_raw(a: int, b: int) -> int {
    clamp(a - b)
}

pub open spec fn mul_raw(a: int, b: int) -> int {
    clamp(tdiv(a * b, SCALE as int))
}

/// Division of two raw values; a zero divisor saturates toward the sign of
/// the dividend, and `0 / 0` is `0`.
pub open spec fn div_raw(a: int, b: int) -> int {
    if b == 0 {
        if a > 0 {
            i64::MAX as int
        } else if a < 0 {
            i64::MIN as int
        } else {
            0
        }
    } else {
        clamp(tdiv(a * SCALE, b))
    }
}

/// Integer square root: the largest `r` with `r * r <= n`.
pub open spec fn isqrt(n: int) -> int
    decreases n,
{
    if n <= 0 {
        0
    } else {
        let r = 2 * isqrt(n / 4);
        if (r + 1) * (r + 1) <= n {
            r + 1
        } else {
            r
        }
    }
}

/// Square root of a raw value; negative inputs give zero.
pub open spec fn sqrt_raw(a: int) -> int {
    if a <= 0 {
        0
    } else {
        isqrt(a * SCALE)
    }
}

/// Odd Taylor polynomial of degree eleven for the sine, evaluated in fixed
/// point by Horner's rule on an argument in `[-pi/2, pi/2]`.
pub open spec fn sin_poly(r: int) -> int {
    let s = tdiv(r * r, SCALE as int);
    let t5 = SCALE - tdiv(s, 110);
    let t4 = SCALE - tdiv(tdiv(s * t5, SCALE as int), 72);
    let t3 = SCALE - tdiv(tdiv(s * t4, SCALE as int), 42);
    let t2 = SCALE - tdiv(tdiv(s * t3, SCALE as int), 20);
    let t1 = SCALE - tdiv(tdiv(s * t2, SCALE as int), 6);
    tdiv(r * t1, SCALE as int)
}

/// Reduces an angle into `[-pi/2, pi/2]` keeping its sine.
pub open spec fn sin_reduce(x: int) -> int {
    let r0 = x % (TWO_PI_RAW as int);
    let r1 = if r0 > PI_RAW { r0 - TWO_PI_RAW } else { r0 };
    if r1 > HALF_PI_RAW {
        PI_RAW - r1
    } else if r1 < -HALF_PI_RAW {
        -PI_RAW - r1
    } else {
        r1
    }
}

pub open spec fn sin_raw(x: int) -> int {
    sin_poly(sin_reduce(x))
}

pub open spec fn cos_raw(x: int) -> int {
    sin_raw(add_raw(x, HALF_PI_RAW as int))
}

pub open spec fn fx(raw: int) -> Fixed {
    Fixed { raw: raw as i64 }
}

pub open spec fn fx_add(a: Fixed, b: Fixed) -> Fixed {
    fx(add_raw(a.raw as int, b.raw as int))
}

pub open spec fn fx_sub(a: Fixed, b: Fixed) -> Fixed {
    fx(sub_raw(a.raw as int, b.raw as int))
}

pub open spec fn fx_mul(a: Fixed, b: Fixed) -> Fixed {
    fx(mul_raw(a.raw as int, b.raw as int))
}

pub open spec fn fx_div(a: Fixed, b: Fixed) -> Fixed {
    fx(div_raw(a.raw as int, b.raw as int))
}

pub open spec fn fx_sqrt(a: Fixed) -> Fixed {
    fx(sqrt_raw(a.raw as int))
}

pub open spec fn fx_sin(a: Fixed) -> Fixed {
    fx(sin_raw(a.raw as int))
}

pub open spec fn fx_cos(a: Fixed) -> Fixed {
    fx(cos_raw(a.raw as int))
}

/// Multiplying by a whole number `k` is exact up to saturation.
pub proof fn lemma_mul_whole(x: int, k: int)
    ensures
        mul_raw(x, k * SCALE) == clamp(x * k),
        mul_raw(k * SCALE, x) == clamp(x * k),
{
    let y = x * k;
    assert(x * (k * SCALE) == y * SCALE) by (nonlinear_arith)
        requires
            y == x * k,
    ;
    assert((k * SCALE) * x == y * SCALE) by (nonlinear_arith)
        requires
            y == x * k,
    ;
    if y >= 0 {
        assert((y * 1_000_000) / 1_000_000 == y) by (nonlinear_arith);
    } else {
        assert(((-y) * 1_000_000) / 1_000_000 == -y) by (nonlinear_arith);
        assert(-(y * 1_000_000) == (-y) * 1_000_000);
    }
}

/// Products with the whole numbers from -2 to 2.
pub proof fn lemma_mul_small(x: int)
    ensures
        mul_raw(x, SCALE as int) == clamp(x) && mul_raw(SCALE as int, x) == clamp(x),
        mul_raw(x, -SCALE) == clamp(-x) && mul_raw(-SCALE, x) == clamp(-x),
        mul_raw(x, 0) == 0 && mul_raw(0, x) == 0,
        mul_raw(x, 2 * SCALE) == clamp(2 * x) && mul_raw(2 * SCALE, x) == clamp(2 * x),
        mul_raw(x, -2 * SCALE) == clamp(-2 * x) && mul_raw(-2 * SCALE, x) == clamp(-2 * x),
{
    lemma_mul_whole(x, 1);
    lemma_mul_whole(x, -1);
    lemma_mul_whole(x, 0);
    lemma_mul_whole(x, 2);
    lemma_mul_whole(x, -2);
}

/// The floor square root of a perfect square is its root.
pub proof fn lemma_isqrt_square(d: int)
    requires
        d >= 0,
    ensures
        isqrt(d * d) == d,
{
    assert(d * d >= 0) by (nonlinear_arith)
        requires
            d >= 0,
    ;
    lemma_isqrt(d * d);
    let r = isqrt(d * d);
    assert(r == d) by (nonlinear_arith)
        requires
            r >= 0,
            d >= 0,
            r * r <= d * d,
            d * d < (r + 1) * (r + 1),
    ;
}

/// `isqrt(n)` is the floor of the square root of `n`.
pub proof fn lemma_isqrt(n: int)
    requires
        n >= 0,
    ensures
        0 <= isqrt(n),
        isqrt(n) * isqrt(n) <= n < (isqrt(n) + 1) * (isqrt(n) + 1),
    decreases n,
{
    if n > 0 {
        let m = n / 4;
        lemma_isqrt(m);
        let q = isqrt(m);
        assert(4 * m <= n < 4 * m + 4);
        assert((2 * q) * (2 * q) <= n) by (nonlinear_arith)
            requires
                q * q <= m,
                4 * m <= n,
        ;
        assert(n < (2 * q + 2) * (2 * q + 2)) by (nonlinear_arith)
            requires
                m < (q + 1) * (q + 1),
                n < 4 * m + 4,
        ;
    }
}

proof fn lemma_le_div(a: int, n: int)
    requires
        a > 0,
        n >= 0,
    ensures
        (a * a <= n) <==> (a <= n / a),
{
    assert(a * (n / a) + n % a == n) by (nonlinear_arith)
        requires
            a > 0,
    ;
    assert(0 <= n % a < a) by (nonlinear_arith)
        requires
            a > 0,
    ;
    if a <= n / a {
        assert(a * a <= a * (n / a)) by (nonlinear_arith)
            requires
                a > 0,
                a <= n / a,
        ;
    }
    if a * a <= n {
        assert(a * a < a * (n / a + 1)) by (nonlinear_arith)
            requires
                a > 0,
                a * (n / a) + n % a == n,
                n % a < a,
                a * a <= n,
        ;
        assert(a < n / a + 1) by (nonlinear_arith)
            requires
                a > 0,
                a * a < a * (n / a + 1),
        ;
    }
}

/// Floor square root of an unsigned 128-bit integer.
pub fn isqrt_u128(n: u128) -> (r: u128)
    ensures
        r == isqrt(n as int),
        r * r <= n < (r + 1) * (r + 1),
    decreases n,
{
    proof {
        lemma_isqrt(n as int);
    }
    if n == 0 {
        0
    } else {
        let q = isqrt_u128(n / 4);
        proof {
            lemma_isqrt((n / 4) as int);
            assert(q * q <= n / 4);
            assert(q < 0x1_0000_0000_0000_0000u128) by (nonlinear_arith)
                requires
                    q * q <= n / 4,
                    n / 4 < 0x4000_0000_0000_0000_0000_0000_0000_0000u128,
                    q >= 0,
            ;
        }
        let r = 2 * q;
        let s = r + 1;
        proof {
            lemma_le_div(s as int, n as int);
        }
        if s <= n / s {
            s
        } else {
            r
        }
    }
}

/// Truncating division of an `i128` by a positive divisor, as a spec-level
/// `tdiv`.
fn tdiv_i128(a: i128, b: i128) -> (r: i128)
    requires
        b > 0,
    ensures
        r == tdiv(a as int, b as int),
{
    if a >= 0 {
        a / b
    } else {
        proof {
            assert(-(a as int) > 0);
        }
        if a == i128::MIN {
            // |a| does not fit; split off one divisor's worth first.
            let q = (a + b) / b;
            proof {
                assert(tdiv(a as int, b as int) == -((-(a as int)) / (b as int)));
                assert((-(a as int + b as int)) / (b as int) + 1 == (-(a as int)) / (b as int))
                    by (nonlinear_arith)
                    requires
                        b > 0,
                        a < -(b as int),
                ;
            }
            q - 1
        } else {
            -((-a) / b)
        }
    }
}

fn clamp_i128(x: i128) -> (r: i64)
    ensures
        r == clamp(x as int),
{
    if x > i64::MAX as i128 {
        i64::MAX
    } else if x < i64::MIN as i128 {
        i64::MIN
    } else {
        x as i64
    }
}

impl Fixed {
    pub open spec fn val(self) -> int {
        self.raw as int
    }

    /// The number zero.
    pub fn zero() -> (r: Fixed)
        ensures
            r.raw == 0,
    {
        Fixed { raw: 0 }
    }

    /// A number from its raw count of millionths.
    pub fn from_raw(raw: i64) -> (r: Fixed)
        ensures
            r.raw == raw,
    {
        Fixed { raw }
    }

    /// A whole number.
    pub fn from_int(n: i32) -> (r: Fixed)
        ensures
            r.raw == n * SCALE,
    {
        Fixed { raw: (n as i64) * SCALE }
    }

    /// A number given as `num / den`, rounded toward zero.
    pub fn ratio(num: i32, den: i32) -> (r: Fixed)
        requires
            den != 0,
        ensures
            r.raw == tdiv(num * SCALE, den as int),
    {
        assert(-0x8000_0000 * 1_000_000 <= num * 1_000_000 <= 0x8000_0000 * 1_000_000)
            by (nonlinear_arith)
            requires
                -0x8000_0000 <= num < 0x8000_0000,
        ;
        let n = (num as i128) * (SCALE as i128);
        let d = den as i128;
        let q = if d > 0 {
            tdiv_i128(n, d)
        } else {
            let t = tdiv_i128(n, -d);
            -t
        };
        proof {
            assert(abs(num * SCALE) <= 0x8000_0000 * SCALE);
            assert(abs(num * SCALE) / abs(den as int) <= abs(num * SCALE)) by (nonlinear_arith)
                requires
                    abs(den as int) >= 1,
                    abs(num * SCALE) >= 0,
            ;
        }
        Fixed { raw: q as i64 }
    }

    pub fn plus(self, o: Fixed) -> (r: Fixed)
        ensures
            r.raw == add_raw(self.raw as int, o.raw as int),
            r == fx_add(self, o),
    {
        Fixed { raw: clamp_i128(self.raw as i128 + o.raw as i128) }
    }

    pub fn minus(self, o: Fixed) -> (r: Fixed)
        ensures
            r.raw == sub_raw(self.raw as int, o.raw as int),
            r == fx_sub(self, o),
    {
        Fixed { raw: clamp_i128(self.raw as i128 - o.raw as i128) }
    }

    pub fn negate(self) -> (r: Fixed)
        ensures
            r.raw == sub_raw(0, self.raw as int),
    {
        Fixed { raw: clamp_i128(0 - self.raw as i128) }
    }

    pub fn times(self, o: Fixed) -> (r: Fixed)
        ensures
            r.raw == mul_raw(self.raw as int, o.raw as int),
            r == fx_mul(self, o),
    {
        proof {
            assert(abs(self.raw as int) * abs(o.raw as int) <= 0x8000_0000_0000_0000 * 0x8000_0000_0000_0000int)
                by (nonlinear_arith)
                requires
                    abs(self.raw as int) <= 0x8000_0000_0000_0000,
                    abs(o.raw as int) <= 0x8000_0000_0000_0000,
                    abs(self.raw as int) >= 0,
                    abs(o.raw as int) >= 0,
            ;
            assert(abs(self.raw as int * o.raw as int) == abs(self.raw as int) * abs(o.raw as int))
                by (nonlinear_arith);
        }
        let p = (self.raw as i128) * (o.raw as i128);
        Fixed { raw: clamp_i128(tdiv_i128(p, SCALE as i128)) }
    }

    pub fn divide(self, o: Fixed) -> (r: Fixed)
        ensures
            r.raw == div_raw(self.raw as int, o.raw as int),
            r == fx_div(self, o),
    {
        if o.raw == 0 {
            if self.raw > 0 {
                Fixed { raw: i64::MAX }
            } else if self.raw < 0 {
                Fixed { raw: i64::MIN }
            } else {
                Fixed { raw: 0 }
            }
        } else {
            assert(-0x8000_0000_0000_0000 * 1_000_000 <= self.raw * 1_000_000
                <= 0x8000_0000_0000_0000 * 1_000_000) by (nonlinear_arith)
                requires
                    -0x8000_0000_0000_0000 <= self.raw < 0x8000_0000_0000_0000,
            ;
            let n = (self.raw as i128) * (SCALE as i128);
            let d = o.raw as i128;
            proof {
                assert(abs(n as int) / abs(d as int) <= abs(n as int)) by (nonlinear_arith)
                    requires
                        abs(d as int) >= 1,
                        abs(n as int) >= 0,
                ;
            }
            let q = if d > 0 {
                tdiv_i128(n, d)
            } else {
                let t = tdiv_i128(n, -d);
                -t
            };
            Fixed { raw: clamp_i128(q) }
        }
    }

    /// Square root, rounded down; zero for negative inputs.
    pub fn sqrt(self) -> (r: Fixed)
        ensures
            r.raw == sqrt_raw(self.raw as int),
            r == fx_sqrt(self),
            self.raw > 0 ==> r.raw * r.raw <= self.raw * SCALE < (r.raw + 1) * (r.raw + 1),
    {
        if self.raw <= 0 {
            Fixed { raw: 0 }
        } else {
            let n = (self.raw as u128) * (SCALE as u128);
            let s = isqrt_u128(n);
            proof {
                assert(s < 0x8000_0000_0000_0000u128) by (nonlinear_arith)
                    requires
                        s * s <= n,
                        n <= 0x8000_0000_0000_0000u128 * 1_000_000u128,
                ;
            }
            Fixed { raw: s as i64 }
        }
    }

    /// Sine of an angle in radians, to about six decimals.
    pub fn sin(self) -> (r: Fixed)
        ensures
            r.raw == sin_raw(self.raw as int),
            r == fx_sin(self),
    {
        let m = self.raw % TWO_PI_RAW;
        let r0 = if m < 0 {
            m + TWO_PI_RAW
        } else {
            m
        };
        proof {
            assert(r0 == (self.raw as int) % (TWO_PI_RAW as int));
        }
        let r1 = if r0 > PI_RAW {
            r0 - TWO_PI_RAW
        } else {
            r0
        };
        let r = if r1 > HALF_PI_RAW {
            PI_RAW - r1
        } else if r1 < -HALF_PI_RAW {
            -PI_RAW - r1
        } else {
            r1
        };
        assert(-HALF_PI_RAW - 1 <= r <= HALF_PI_RAW + 1);
        Fixed { raw: sin_poly_exec(r) }
    }

    /// Cosine of an angle in radians, as the sine of the angle plus pi / 2.
    pub fn cos(self) -> (r: Fixed)
        ensures
            r.raw == cos_raw(self.raw as int),
            r == fx_cos(self),
    {
        self.plus(Fixed { raw: HALF_PI_RAW }).sin()
    }

    pub fn lt(self, o: Fixed) -> (r: bool)
        ensures
            r == (self.raw < o.raw),
    {
        self.raw < o.raw
    }

    pub fn le(self, o: Fixed) -> (r: bool)
        ensures
            r == (self.raw <= o.raw),
    {
        self.raw <= o.raw
    }
}

fn sin_poly_exec(r: i64) -> (v: i64)
    requires
        -HALF_PI_RAW - 1 <= r <= HALF_PI_RAW + 1,
    ensures
        v == sin_poly(r as int),
{
    assert(0 <= r * r <= 2_500_000_000_000) by (nonlinear_arith)
        requires
            -1_570_797 <= r <= 1_570_797,
    ;
    let rr = (r as i128) * (r as i128);
    let s = (rr / (SCALE as i128)) as i64;
    assert(s == tdiv(r * r, SCALE as int));
    let t5 = SCALE - s / 110;
    let t4 = step(s, t5, 72);
    let t3 = step(s, t4, 42);
    let t2 = step(s, t3, 20);
    let t1 = step(s, t2, 6);
    assert(-1_570_797 * 2_000_000 <= r * t1 <= 1_570_797 * 2_000_000) by (nonlinear_arith)
        requires
            -1_570_797 <= r <= 1_570_797,
            -2_000_000 <= t1 <= 2_000_000,
    ;
    let p = (r as i128) * (t1 as i128);
    let v = tdiv_i128(p, SCALE as i128);
    proof {
        assert(abs(v as int) <= abs(p as int)) by (nonlinear_arith)
            requires
                v == tdiv(p as int, 1_000_000),
        ;
        assert(abs(p as int) <= 1_570_797 * 2_000_000) by (nonlinear_arith)
            requires
                p == r as int * t1 as int,
                -1_570_797 <= r <= 1_570_797,
                -2_000_000 <= t1 <= 2_000_000,
        ;
    }
    v as i64
}

/// One Horner step `SCALE - s * t / SCALE / k` with small arguments.
fn step(s: i64, t: i64, k: i64) -> (r: i64)
    requires
        0 <= s <= 2_500_000,
        -2_000_000 <= t <= 2_000_000,
        6 <= k,
    ensures
        r == SCALE - tdiv(tdiv(s * t, SCALE as int), k as int),
        -2_000_000 <= r <= 2_000_000,
{
    assert(-5_000_000_000_000 <= s * t <= 5_000_000_000_000) by (nonlinear_arith)
        requires
            0 <= s <= 2_500_000,
            -2_000_000 <= t <= 2_000_000,
    ;
    let p = (s as i128) * (t as i128);
    let q = tdiv_i128(p, SCALE as i128);
    proof {
        assert(abs(q as int) <= 5_000_000) by (nonlinear_arith)
            requires
                q == tdiv(p as int, 1_000_000),
                p == s as int * t as int,
                0 <= s <= 2_500_000,
                -2_000_000 <= t <= 2_000_000,
        ;
    }
    let d = tdiv_i128(q, k as i128);
    proof {
        assert(abs(d as int) <= 833_333) by (nonlinear_arith)
            requires
                d == tdiv(q as int, k as int),
                abs(q as int) <= 5_000_000,
                k >= 6,
        ;
    }
    SCALE - d as i64
}

} // verus!
