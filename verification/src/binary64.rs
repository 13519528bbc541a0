//! Scaling of capacities by a binary64 number, in integer arithmetic.
//!
//! Growth factors and shrink thresholds are IEEE 754 binary64 numbers. This
//! module holds such a number by its bit pattern and computes, exactly as the
//! floating-point hardware would, the three roundings that resizing needs:
//! `ceil(n * f)`, `trunc(n * f)` and `floor(n / f)`.

use vstd::arithmetic::div_mod::*;
use vstd::arithmetic::mul::*;
use vstd::arithmetic::power2::*;
use vstd::prelude::*;

verus! {

/// `2^52`: the weight of the implicit leading bit of a normal number.
pub const IMPLICIT_BIT: u64 = 0x10_0000_0000_0000;

/// `2^53`: one past the largest significand.
pub const SIGNIFICAND_LIMIT: u64 = 0x20_0000_0000_0000;

/// `2^63`: the weight of the sign bit.
pub const SIGN_BIT: u64 = 0x8000_0000_0000_0000;

/// The bit pattern of `1.0`.
pub const ONE_BITS: u64 = 0x3FF0_0000_0000_0000;

/// The bit pattern of positive infinity.
pub const INFINITY_BITS: u64 = 0x7FF0_0000_0000_0000;

/// A binary64 number, held by its bit pattern.
#[derive(Clone, Copy, Debug, PartialEq, Eq, Structural)]
pub struct Binary64 {
    /// The sign bit, eleven exponent bits and fifty-two fraction bits.
    pub bits: u64,
}

/// `2^e` for a positive `e`, and one otherwise.
pub open spec fn scale_up(e: int) -> nat {
    if e > 0 {
        pow2(e as nat)
    } else {
        1
    }
}

/// `n / d` rounded to the nearest integer, a tie going to the even one.
pub open spec fn round_half_even(n: nat, d: nat) -> nat {
    let q = n / d;
    let r = n % d;
    if 2 * r < d || (2 * r == d && q % 2 == 0) {
        q
    } else {
        q + 1
    }
}

/// How many low bits `n` has beyond the fifty-three of a significand.
pub open spec fn excess_bits(n: nat) -> nat
    decreases n,
{
    if n < SIGNIFICAND_LIMIT {
        0
    } else {
        1 + excess_bits(n / 2)
    }
}

/// `n` rounded to fifty-three significant bits.
pub open spec fn round_significant(n: nat) -> nat {
    let unit = pow2(excess_bits(n));
    round_half_even(n, unit) * unit
}

/// How often `n` is doubled until `n / d` has fifty-three integer bits.
pub open spec fn missing_bits(n: nat, d: nat) -> nat
    decreases
            if n < d * IMPLICIT_BIT {
                d * IMPLICIT_BIT - n
            } else {
                0
            },
{
    if n == 0 || n >= d * IMPLICIT_BIT {
        0
    } else {
        1 + missing_bits(2 * n, d)
    }
}

/// How often `d` is doubled until `n / d` has no more than fifty-three integer bits.
pub open spec fn surplus_bits(n: nat, d: nat) -> nat
    decreases n - d,
{
    if d == 0 || n < d * SIGNIFICAND_LIMIT {
        0
    } else {
        1 + surplus_bits(n, 2 * d)
    }
}

/// The integer part of `n / d` after that quotient was rounded to fifty-three
/// significant bits.
pub open spec fn rounded_quotient_floor(n: nat, d: nat) -> nat {
    if n >= d * SIGNIFICAND_LIMIT {
        let unit = pow2(surplus_bits(n, d));
        round_half_even(n, d * unit) * unit
    } else {
        let unit = pow2(missing_bits(n, d));
        round_half_even(n * unit, d) / unit
    }
}

/// The smaller of `n` and the largest `usize`.
pub open spec fn saturate(n: nat) -> nat {
    if n <= usize::MAX {
        n
    } else {
        usize::MAX as nat
    }
}

impl Binary64 {
    /// Whether the sign bit is set.
    pub open spec fn negative(self) -> bool {
        self.bits >= SIGN_BIT
    }

    /// The eleven exponent bits.
    pub open spec fn exponent_field(self) -> nat {
        (self.bits as nat / IMPLICIT_BIT as nat) % 2048
    }

    /// The fifty-two fraction bits.
    pub open spec fn fraction(self) -> nat {
        self.bits as nat % IMPLICIT_BIT as nat
    }

    /// Whether the pattern stands for no number.
    pub open spec fn nan(self) -> bool {
        self.exponent_field() == 2047 && self.fraction() != 0
    }

    /// Whether the pattern stands for an infinity.
    pub open spec fn infinite(self) -> bool {
        self.exponent_field() == 2047 && self.fraction() == 0
    }

    /// The integer `m` of the magnitude `m * 2^e`.
    pub open spec fn significand(self) -> nat {
        if self.exponent_field() == 0 {
            self.fraction()
        } else {
            IMPLICIT_BIT as nat + self.fraction()
        }
    }

    /// The exponent `e` of the magnitude `m * 2^e`.
    pub open spec fn exponent(self) -> int {
        if self.exponent_field() == 0 {
            -1074
        } else {
            self.exponent_field() - 1075
        }
    }

    /// Whether the number is greater than one.
    pub open spec fn above_one(self) -> bool {
        &&& !self.negative()
        &&& !self.nan()
        &&& self.infinite() || self.significand() * scale_up(self.exponent()) > scale_up(
            -self.exponent(),
        )
    }

    /// Whether the number lies strictly between zero and one.
    pub open spec fn between_zero_and_one(self) -> bool {
        &&& !self.negative()
        &&& self.exponent_field() < 2047
        &&& 0 < self.significand() * scale_up(self.exponent()) < scale_up(-self.exponent())
    }

    /// `n` times this number, rounded to a binary64, as a multiple of `2^e`.
    pub open spec fn rounded_product(self, n: nat) -> nat {
        round_significant(round_significant(n) * self.significand())
    }

    /// `ceil(n * self)`, saturating, for a positive `n` and a number above one.
    pub open spec fn product_ceil(self, n: nat) -> nat {
        if self.infinite() {
            usize::MAX as nat
        } else {
            let unit = scale_up(-self.exponent());
            saturate(
                (((self.rounded_product(n) * scale_up(self.exponent())) + unit - 1)
                    / unit as int) as nat,
            )
        }
    }

    /// `trunc(n * self)`, saturating, for a number between zero and one.
    pub open spec fn product_trunc(self, n: nat) -> nat {
        saturate(self.rounded_product(n) / scale_up(-self.exponent()))
    }

    /// `floor(n / self)`, saturating, for a number above one.
    pub open spec fn quotient_floor(self, n: nat) -> nat {
        if self.infinite() {
            0
        } else {
            saturate(
                rounded_quotient_floor(
                    round_significant(n) * scale_up(-self.exponent()),
                    self.significand() * scale_up(self.exponent()),
                ),
            )
        }
    }

    /// The number with the given bit pattern.
    pub fn from_bits(bits: u64) -> (r: Self)
        ensures
            r.bits == bits,
    {
        Binary64 { bits }
    }

    /// Whether the number is greater than one.
    pub fn is_above_one(&self) -> (r: bool)
        ensures
            r == self.above_one(),
    {
        proof {
            lemma_above_one(*self);
        }
        ONE_BITS < self.bits && self.bits <= INFINITY_BITS
    }

    /// Whether the number lies strictly between zero and one.
    pub fn is_between_zero_and_one(&self) -> (r: bool)
        ensures
            r == self.between_zero_and_one(),
    {
        proof {
            lemma_between_zero_and_one(*self);
        }
        0 < self.bits && self.bits < ONE_BITS
    }

    /// The significand and the exponent.
    fn parts(&self) -> (r: (u64, i32))
        ensures
            r.0 == self.significand(),
            r.1 == self.exponent(),
            r.0 < SIGNIFICAND_LIMIT,
    {
        let field: u64 = (self.bits / IMPLICIT_BIT) % 2048;
        let fraction: u64 = self.bits % IMPLICIT_BIT;
        if field == 0 {
            (fraction, -1074)
        } else {
            (IMPLICIT_BIT + fraction, field as i32 - 1075)
        }
    }

    /// Whether the pattern stands for an infinity.
    fn is_infinite(&self) -> (r: bool)
        ensures
            r == self.infinite(),
    {
        (self.bits / IMPLICIT_BIT) % 2048 == 2047 && self.bits % IMPLICIT_BIT == 0
    }

    /// `n` times this number, rounded to a binary64, as a multiple of `2^e`.
    fn rounded_product_of(&self, n: usize) -> (r: u128)
        ensures
            r == self.rounded_product(n as nat),
            r < pow2(119),
            n > 0 && self.significand() > 0 ==> r > 0,
    {
        let (m, _e) = self.parts();
        proof {
            lemma_powers_beyond_64();
            assert(usize::MAX < pow2(64));
        }
        let c: u128 = round_to_significant(n as u128);
        proof {
            assert(0 <= c * m < pow2(118)) by (nonlinear_arith)
                requires
                    0 <= c < pow2(65),
                    0 <= m < pow2(53),
                    pow2(65) * pow2(53) == pow2(118),
            ;
            if n > 0 && m > 0 {
                assert(c * m > 0) by (nonlinear_arith)
                    requires
                        c > 0,
                        m > 0,
                ;
            }
        }
        round_to_significant(c * m as u128)
    }

    /// `ceil(n * self)`, saturating at the largest `usize`.
    pub fn multiply_ceil(&self, n: usize) -> (r: usize)
        requires
            self.above_one(),
            n > 0,
        ensures
            r == self.product_ceil(n as nat),
    {
        proof {
            lemma_above_one(*self);
            lemma_powers_beyond_64();
        }
        if self.is_infinite() {
            return usize::MAX;
        }
        let (_m, e) = self.parts();
        let p: u128 = self.rounded_product_of(n);
        if e >= 0 {
            let ghost unit = scale_up(e as int);
            proof {
                lemma_pow2_pos(e as nat);
                assert(unit >= 1) by {
                    if e == 0 {
                        lemma2_to64();
                    }
                }
                assert(p * unit >= p && p * unit >= unit) by (nonlinear_arith)
                    requires
                        p >= 1,
                        unit >= 1,
                ;
                assert((p * unit + 1 - 1) / 1int == p * unit);
            }
            if p > usize::MAX as u128 {
                return usize::MAX;
            }
            if e >= 64 {
                proof {
                    if e > 64 {
                        lemma_pow2_strictly_increases(64, e as nat);
                    }
                }
                return usize::MAX;
            }
            let up: u128 = power_of_two(e as u32);
            proof {
                lemma_pow2_strictly_increases(e as nat, 64);
                lemma2_to64();
                assert(up == unit);
                assert(p * up < pow2(64) * pow2(64)) by (nonlinear_arith)
                    requires
                        0 <= p < pow2(64),
                        0 <= up < pow2(64),
                ;
            }
            to_usize_saturating(p * up)
        } else {
            let down: u128 = power_of_two((-e) as u32);
            proof {
                if -e < 52 {
                    lemma_pow2_strictly_increases((-e) as nat, 52);
                }
                lemma_pow2_pos((-e) as nat);
                assert(p * 1 == p);
            }
            to_usize_saturating((p + down - 1) / down)
        }
    }

    /// `trunc(n * self)`, saturating at the largest `usize`.
    pub fn multiply_trunc(&self, n: usize) -> (r: usize)
        requires
            self.between_zero_and_one(),
        ensures
            r == self.product_trunc(n as nat),
    {
        proof {
            lemma_between_zero_and_one(*self);
            lemma_powers_beyond_64();
        }
        let (_m, e) = self.parts();
        let p: u128 = self.rounded_product_of(n);
        if e <= -119 {
            proof {
                if e < -119 {
                    lemma_pow2_strictly_increases(119, (-e) as nat);
                }
                lemma_basic_div(p as int, pow2((-e) as nat) as int);
            }
            return 0;
        }
        let down: u128 = power_of_two((-e) as u32);
        proof {
            lemma_pow2_pos((-e) as nat);
        }
        to_usize_saturating(p / down)
    }

    /// `floor(n / self)`, saturating at the largest `usize`.
    pub fn divide_floor(&self, n: usize) -> (r: usize)
        requires
            self.above_one(),
        ensures
            r == self.quotient_floor(n as nat),
    {
        proof {
            lemma_above_one(*self);
            lemma_powers_beyond_64();
            assert(usize::MAX < pow2(64));
        }
        if self.is_infinite() {
            return 0;
        }
        let (m, e) = self.parts();
        let c: u128 = round_to_significant(n as u128);
        if e < 0 {
            let down: u128 = power_of_two((-e) as u32);
            proof {
                if -e < 52 {
                    lemma_pow2_strictly_increases((-e) as nat, 52);
                }
                assert(0 <= c * down < pow2(118)) by (nonlinear_arith)
                    requires
                        0 <= c < pow2(65),
                        0 <= down < pow2(53),
                        pow2(65) * pow2(53) == pow2(118),
                ;
                assert(m * 1 == m);
            }
            to_usize_saturating(divide_rounded(c * down, m as u128))
        } else {
            if e > 60 {
                proof {
                    lemma_pow2_strictly_increases(60, e as nat);
                    lemma2_to64_rest();
                    let d = m as nat * scale_up(e as int);
                    assert(d > 2 * c) by (nonlinear_arith)
                        requires
                            d == m * scale_up(e as int),
                            m >= 0x10_0000_0000_0000,
                            scale_up(e as int) > 0x1000_0000_0000_0000,
                            c < 0x2_0000_0000_0000_0000,
                    ;
                    lemma_tiny_quotient(c as nat, d);
                    assert(c * 1 == c);
                }
                return 0;
            }
            let up: u128 = power_of_two(e as u32);
            proof {
                lemma2_to64();
                lemma2_to64_rest();
                if e < 60 {
                    lemma_pow2_strictly_increases(e as nat, 60);
                }
                lemma_pow2_pos(e as nat);
                assert(0 < m * up < pow2(53) * pow2(61)) by (nonlinear_arith)
                    requires
                        0 < m < pow2(53),
                        0 < up < pow2(61),
                ;
                assert(up == scale_up(e as int));
                assert(c * 1 == c);
            }
            to_usize_saturating(divide_rounded(c, m as u128 * up))
        }
    }
}

/// The powers of two that the computations meet.
proof fn lemma_powers_beyond_64()
    ensures
        pow2(53) == SIGNIFICAND_LIMIT,
        pow2(52) == IMPLICIT_BIT,
        pow2(64) == 0x1_0000_0000_0000_0000,
        pow2(65) == 0x2_0000_0000_0000_0000,
        pow2(65) * pow2(53) == pow2(118),
        pow2(118) == 0x40_0000_0000_0000_0000_0000_0000_0000,
        pow2(119) == 0x80_0000_0000_0000_0000_0000_0000_0000,
        pow2(126) == 0x4000_0000_0000_0000_0000_0000_0000_0000,
{
    lemma2_to64();
    lemma2_to64_rest();
    lemma_pow2_adds(64, 1);
    lemma_pow2_adds(65, 53);
    lemma_pow2_adds(118, 1);
    lemma_pow2_adds(119, 7);
}

/// `n`, or the largest `usize` where `n` is greater.
fn to_usize_saturating(n: u128) -> (r: usize)
    ensures
        r == saturate(n as nat),
{
    if n > usize::MAX as u128 {
        usize::MAX
    } else {
        n as usize
    }
}

/// `2^e`.
fn power_of_two(e: u32) -> (r: u128)
    requires
        e <= 126,
    ensures
        r == pow2(e as nat),
        r <= pow2(126),
        r > 0,
{
    proof {
        lemma_powers_beyond_64();
        lemma2_to64();
    }
    let mut r: u128 = 1;
    let mut i: u32 = 0;
    while i < e
        invariant
            i <= e <= 126,
            r == pow2(i as nat),
            pow2(126) == 0x4000_0000_0000_0000_0000_0000_0000_0000,
        decreases e - i,
    {
        proof {
            lemma_pow2_strictly_increases(i as nat, 126);
            lemma_pow2_unfold((i + 1) as nat);
        }
        r = 2 * r;
        i = i + 1;
    }
    proof {
        if e < 126 {
            lemma_pow2_strictly_increases(e as nat, 126);
        }
        lemma_pow2_pos(e as nat);
    }
    r
}

/// `n / d` rounded to the nearest integer, a tie going to the even one.
fn divide_half_even(n: u128, d: u128) -> (r: u128)
    requires
        d > 0,
        n < pow2(126),
    ensures
        r == round_half_even(n as nat, d as nat),
{
    proof {
        lemma_powers_beyond_64();
        lemma_div_is_ordered_by_denominator(n as int, 1, d as int);
        lemma_mod_bound(n as int, d as int);
    }
    let q: u128 = n / d;
    let rest: u128 = n % d;
    if rest < d - rest || (rest == d - rest && q % 2 == 0) {
        q
    } else {
        q + 1
    }
}

/// The error of a rounded division is at most half of the divisor.
pub(crate) proof fn lemma_half_even_error(n: nat, d: nat)
    requires
        d > 0,
    ensures
        2 * (round_half_even(n, d) * d) + d >= 2 * n,
        2 * (round_half_even(n, d) * d) <= 2 * n + d,
        round_half_even(n, d) == n / d || round_half_even(n, d) == n / d + 1,
        n % d == 0 ==> round_half_even(n, d) * d == n,
{
    let q = n / d;
    lemma_fundamental_div_mod(n as int, d as int);
    lemma_mod_bound(n as int, d as int);
    lemma_mul_is_commutative(d as int, q as int);
    lemma_mul_is_distributive_add_other_way(d as int, q as int, 1);
}

/// The bounds that the number of excess bits puts on a number.
pub(crate) proof fn lemma_excess_bits(n: nat)
    ensures
        n < pow2(excess_bits(n)) * SIGNIFICAND_LIMIT,
        excess_bits(n) > 0 ==> pow2(excess_bits(n)) * IMPLICIT_BIT <= n,
    decreases n,
{
    lemma2_to64();
    if n >= SIGNIFICAND_LIMIT {
        lemma_excess_bits(n / 2);
        lemma_pow2_unfold(excess_bits(n));
    }
}

/// The bounds on a number rounded to fifty-three significant bits.
pub(crate) proof fn lemma_round_significant(n: nat)
    ensures
        n < SIGNIFICAND_LIMIT ==> round_significant(n) == n,
        round_significant(n) <= 2 * n,
        n > 0 ==> round_significant(n) > 0,
        round_significant(n) * SIGNIFICAND_LIMIT + n >= n * SIGNIFICAND_LIMIT,
{
    let unit = pow2(excess_bits(n));
    lemma_pow2_pos(excess_bits(n));
    lemma_excess_bits(n);
    lemma_half_even_error(n, unit);
    if n < SIGNIFICAND_LIMIT {
        lemma2_to64();
        assert(n as int / 1 == n && n as int % 1 == 0);
        assert(n * 1 == n);
    }
}

/// `n` rounded to fifty-three significant bits.
fn round_to_significant(n: u128) -> (r: u128)
    requires
        n < pow2(118),
    ensures
        r == round_significant(n as nat),
        r <= 2 * n,
        n > 0 ==> r > 0,
{
    proof {
        lemma_powers_beyond_64();
        lemma2_to64();
        lemma_round_significant(n as nat);
        assert(n as int / 1 == n);
    }
    let mut unit: u128 = 1;
    let ghost mut k: nat = 0;
    while n / unit >= SIGNIFICAND_LIMIT as u128
        invariant
            n < pow2(118),
            pow2(118) == 0x40_0000_0000_0000_0000_0000_0000_0000,
            unit > 0,
            unit == pow2(k),
            unit <= n || unit == 1,
            excess_bits(n as nat) == k + excess_bits((n / unit) as nat),
        decreases n / unit,
    {
        proof {
            lemma_div_denominator(n as int, unit as int, 2);
            lemma_pow2_unfold(k + 1);
            lemma_fundamental_div_mod(n as int, unit as int);
            assert(unit * (n / unit) >= unit * 2) by (nonlinear_arith)
                requires
                    n / unit >= 2,
                    unit > 0,
            ;
            lemma_mod_bound(n as int, unit as int);
            k = k + 1;
        }
        unit = 2 * unit;
    }
    proof {
        lemma_powers_beyond_64();
    }
    let q: u128 = divide_half_even(n, unit);
    q * unit
}

/// A quotient below one half rounds to a number below one.
proof fn lemma_tiny_quotient(n: nat, d: nat)
    requires
        2 * n < d,
    ensures
        rounded_quotient_floor(n, d) == 0,
{
    lemma2_to64();
    let j = missing_bits(n, d);
    let unit = pow2(j);
    if n == 0 {
        assert(0nat * unit == 0);
        lemma_basic_div(0, d as int);
        lemma_small_mod(0, d);
        lemma_basic_div(0, unit as int);
    } else {
        let half = pow2((j - 1) as nat);
        lemma_pow2_unfold(j);
        lemma_pow2_pos((j - 1) as nat);
        assert(n * unit < d * half) by (nonlinear_arith)
            requires
                2 * n < d,
                unit == 2 * half,
                half > 0,
        ;
        assert((n * unit) / d < half) by {
            lemma_multiply_divide_lt((n * unit) as int, d as int, half as int);
        }
        lemma_half_even_error(n * unit, d);
        lemma_basic_div(round_half_even(n * unit, d) as int, unit as int);
    }
}

/// The integer part of `n / d` after that quotient was rounded to fifty-three
/// significant bits.
fn divide_rounded(n: u128, d: u128) -> (r: u128)
    requires
        n < pow2(118),
        0 < d,
        n < pow2(65) || d < pow2(53),
    ensures
        r == rounded_quotient_floor(n as nat, d as nat),
{
    proof {
        lemma_powers_beyond_64();
        lemma2_to64();
    }
    if n < d && n < d - n {
        proof {
            lemma_tiny_quotient(n as nat, d as nat);
        }
        return 0;
    }
    assert(d < 0x4_0000_0000_0000_0000);
    if n >= d * SIGNIFICAND_LIMIT as u128 {
        let mut divisor: u128 = d;
        let mut unit: u128 = 1;
        let ghost mut k: nat = 0;
        proof {
            assert(d * 1 == d);
        }
        while n >= divisor * SIGNIFICAND_LIMIT as u128
            invariant
                n < pow2(118),
                pow2(118) == 0x40_0000_0000_0000_0000_0000_0000_0000,
                0 < d <= divisor < 0x4_0000_0000_0000_0000,
                unit == pow2(k),
                0 < unit <= divisor,
                divisor == d * unit,
                surplus_bits(n as nat, d as nat) == k + surplus_bits(n as nat, divisor as nat),
            decreases n - divisor,
        {
            proof {
                lemma_pow2_unfold(k + 1);
                assert(d * (2 * unit) == 2 * (d * unit)) by (nonlinear_arith);
                k = k + 1;
            }
            divisor = 2 * divisor;
            unit = 2 * unit;
        }
        let q: u128 = divide_half_even(n, divisor);
        proof {
            lemma_half_even_error(n as nat, divisor as nat);
            assert(q * unit <= q * divisor) by (nonlinear_arith)
                requires
                    unit <= divisor,
                    q >= 0,
            ;
        }
        q * unit
    } else {
        let mut dividend: u128 = n;
        let mut unit: u128 = 1;
        let ghost mut k: nat = 0;
        proof {
            assert(n * 1 == n);
        }
        while dividend < d * IMPLICIT_BIT as u128
            invariant
                0 < n <= dividend,
                dividend < d * SIGNIFICAND_LIMIT,
                0 < d < 0x4_0000_0000_0000_0000,
                unit == pow2(k),
                0 < unit <= dividend,
                dividend == n * unit,
                missing_bits(n as nat, d as nat) == k + missing_bits(dividend as nat, d as nat),
            decreases d * SIGNIFICAND_LIMIT - dividend,
        {
            proof {
                lemma_pow2_unfold(k + 1);
                assert(n * (2 * unit) == 2 * (n * unit)) by (nonlinear_arith);
                k = k + 1;
            }
            dividend = 2 * dividend;
            unit = 2 * unit;
        }
        divide_half_even(dividend, d) / unit
    }
}

/// `2.0` is above one, and `0.25` lies between zero and one.
pub(crate) proof fn lemma_standard_factors()
    ensures
        (Binary64 { bits: 0x4000_0000_0000_0000 }).above_one(),
        (Binary64 { bits: 0x3FD0_0000_0000_0000 }).between_zero_and_one(),
{
    lemma_above_one(Binary64 { bits: 0x4000_0000_0000_0000 });
    lemma_between_zero_and_one(Binary64 { bits: 0x3FD0_0000_0000_0000 });
}

/// The bit patterns of the numbers above one, and what their parts are.
pub(crate) proof fn lemma_above_one(f: Binary64)
    ensures
        f.above_one() <==> ONE_BITS < f.bits <= INFINITY_BITS,
        f.above_one() && !f.infinite() ==> {
            &&& -52 <= f.exponent() <= 971
            &&& IMPLICIT_BIT <= f.significand() < SIGNIFICAND_LIMIT
            &&& f.exponent() == -52 ==> f.significand() > IMPLICIT_BIT
        },
{
    lemma2_to64();
    lemma2_to64_rest();
    let e = f.exponent();
    let m = f.significand();
    if !f.negative() && f.exponent_field() < 2047 {
        if f.exponent_field() < 1023 {
            assert(m < pow2(53));
            if -e > 53 {
                lemma_pow2_strictly_increases(53, (-e) as nat);
            }
            assert(m * 1 == m);
        } else if e < 0 {
            assert(m * 1 == m);
            if -e < 52 {
                lemma_pow2_strictly_increases((-e) as nat, 52);
            }
        } else {
            assert(scale_up(e) >= 1) by {
                lemma_pow2_pos(e as nat);
            }
            assert(m * scale_up(e) >= m) by (nonlinear_arith)
                requires
                    scale_up(e) >= 1,
            ;
        }
    }
}

/// The bit patterns of the numbers between zero and one, and what their parts
/// are.
pub(crate) proof fn lemma_between_zero_and_one(f: Binary64)
    ensures
        f.between_zero_and_one() <==> 0 < f.bits < ONE_BITS,
        f.between_zero_and_one() ==> {
            &&& f.exponent() <= -53
            &&& f.significand() < SIGNIFICAND_LIMIT
        },
{
    lemma2_to64();
    lemma2_to64_rest();
    let e = f.exponent();
    let m = f.significand();
    if !f.negative() && f.exponent_field() < 2047 {
        assert(m * 1 == m);
        if f.exponent_field() < 1023 {
            assert(m < pow2(53));
            if -e > 53 {
                lemma_pow2_strictly_increases(53, (-e) as nat);
            }
        } else if e < 0 {
            if -e < 52 {
                lemma_pow2_strictly_increases((-e) as nat, 52);
            }
        } else {
            assert(scale_up(e) >= 1) by {
                lemma_pow2_pos(e as nat);
            }
            assert(m * scale_up(e) >= m) by (nonlinear_arith)
                requires
                    scale_up(e) >= 1,
            ;
        }
    }
}

/// A factor above one enlarges every capacity that is not already the largest:
/// growing always makes room for at least one more item.
pub proof fn law_growth_is_strict(f: Binary64, n: nat)
    requires
        f.above_one(),
        0 < n < usize::MAX,
    ensures
        f.product_ceil(n) > n,
{
    lemma_above_one(f);
    if !f.infinite() {
        let e = f.exponent();
        let up = scale_up(e);
        let down = scale_up(-e);
        let p = f.rounded_product(n);
        lemma_rounded_product_grows(f, n);
        lemma2_to64();
        if e > 0 {
            lemma_pow2_pos(e as nat);
        }
        if e < 0 {
            lemma_pow2_pos((-e) as nat);
        }
        let total = p * up + down - 1;
        assert(total >= n * down + down) by {
            assert(p * up >= n * down + 1);
        }
        assert(n * down + down == (n + 1) * down) by (nonlinear_arith);
        lemma_div_is_ordered(((n + 1) * down) as int, total as int, down as int);
        lemma_div_by_multiple((n + 1) as int, down as int);
    }
}

/// The rounded product with a factor above one exceeds the other operand.
proof fn lemma_rounded_product_grows(f: Binary64, n: nat)
    requires
        f.above_one(),
        !f.infinite(),
        0 < n,
    ensures
        f.rounded_product(n) * scale_up(f.exponent()) > n * scale_up(-f.exponent()),
{
    lemma_above_one(f);
    lemma_powers_beyond_64();
    lemma2_to64();
    lemma2_to64_rest();
    let e = f.exponent();
    let m = f.significand();
    let up = scale_up(e);
    let down = scale_up(-e);
    let c = round_significant(n);
    lemma_round_significant(n);
    lemma_round_significant(c * m);
    let p = f.rounded_product(n);
    if e == -52 && m == IMPLICIT_BIT + 1 {
        lemma_smallest_factor_grows(n);
        assert(p * 1 == p);
    } else {
        if e > 0 {
            lemma_pow2_pos(e as nat);
        }
        if e < 0 {
            lemma_pow2_pos((-e) as nat);
            if -e < 51 {
                lemma_pow2_strictly_increases((-e) as nat, 51);
            }
        }
        let h: int = IMPLICIT_BIT as int;
        let l: int = SIGNIFICAND_LIMIT as int;
        assert((m * up) * h >= (h + 2) * down) by (nonlinear_arith)
            requires
                h == 0x10_0000_0000_0000,
                m >= h,
                up >= 1,
                (up == 1 && down <= 0x8_0000_0000_0000) || (up == 1 && down == h && m >= h + 2)
                    || (up >= 1 && down == 1),
        ;
        lemma_two_roundings(n as int, c as int, m as int, p as int, up as int, down as int);
    }
}

/// Two roundings to fifty-three bits take away less than a factor of at least
/// `1 + 2^-51` adds.
proof fn lemma_two_roundings(n: int, c: int, m: int, p: int, up: int, down: int)
    requires
        0 < n,
        0 <= c,
        0 <= p,
        0 < m,
        up >= 1,
        down >= 1,
        c * 0x20_0000_0000_0000 + n >= n * 0x20_0000_0000_0000,
        p * 0x20_0000_0000_0000 + c * m >= (c * m) * 0x20_0000_0000_0000,
        (m * up) * 0x10_0000_0000_0000 >= 0x10_0000_0000_0002 * down,
    ensures
        p * up > n * down,
{
    let h: int = 0x10_0000_0000_0000;
    let l: int = 0x20_0000_0000_0000;
    let x = p * up;
    let y = n * down;
    let g = m * up;
    assert(x * l >= (c * g) * (l - 1)) by (nonlinear_arith)
        requires
            x == p * up,
            g == m * up,
            p * l >= (c * m) * (l - 1),
            up >= 1,
    ;
    assert((c * g) * h >= c * ((h + 2) * down)) by (nonlinear_arith)
        requires
            g * h >= (h + 2) * down,
            c >= 0,
    ;
    let cd = c * down;
    assert(c * ((h + 2) * down) == cd * (h + 2)) by (nonlinear_arith)
        requires
            cd == c * down,
    ;
    assert(cd * l >= y * (l - 1)) by (nonlinear_arith)
        requires
            cd == c * down,
            y == n * down,
            c * l >= n * (l - 1),
            down >= 1,
    ;
    assert(y >= 1) by (nonlinear_arith)
        requires
            y == n * down,
            n >= 1,
            down >= 1,
    ;
}

/// `1 + 2^-52`, the smallest factor above one, still enlarges every number.
proof fn lemma_smallest_factor_grows(n: nat)
    requires
        0 < n,
    ensures
        round_significant(round_significant(n) * (IMPLICIT_BIT as nat + 1)) > n * IMPLICIT_BIT,
{
    let h: int = IMPLICIT_BIT as int;
    lemma_powers_beyond_64();
    lemma2_to64();
    lemma_round_significant(n);
    let c = round_significant(n);
    let product = c * (IMPLICIT_BIT as nat + 1);
    let k = excess_bits(product);
    let unit = pow2(k);
    lemma_pow2_pos(k);
    lemma_excess_bits(product);
    lemma_half_even_error(product, unit);
    if n >= SIGNIFICAND_LIMIT {
        let j = excess_bits(n);
        let w = pow2(j);
        let q = round_half_even(n, w);
        lemma_pow2_pos(j);
        lemma_excess_bits(n);
        lemma_half_even_error(n, w);
        assert(q >= h) by {
            lemma_div_is_ordered(h * w, n as int, w as int);
            lemma_div_by_multiple(h, w as int);
        }
        assert(c == q * w);
        if q <= h + 2 {
            if k > j + 52 {
                lemma_pow2_adds(j, 53);
                if k > j + 53 {
                    lemma_pow2_strictly_increases(j + 53, k);
                }
                assert(unit >= w * SIGNIFICAND_LIMIT);
                assert(c <= 0x10_0000_0000_0002 * w) by (nonlinear_arith)
                    requires
                        c == q * w,
                        q <= 0x10_0000_0000_0002,
                        w > 0,
                ;
                assert(unit * IMPLICIT_BIT <= product);
                assert(product == c * 0x10_0000_0000_0001);
                assert(false);
            }
            lemma_pow2_adds(j, 52);
            assert(pow2(j + 52) == w * IMPLICIT_BIT);
            if k < j + 52 {
                lemma_pow2_strictly_increases(k, j + 52);
            }
            if q == h {
                lemma_pow2_adds(k, (j + 52 - k) as nat);
                let times = pow2((j + 52 - k) as nat) * (IMPLICIT_BIT as nat + 1);
                assert(product == unit * times) by (nonlinear_arith)
                    requires
                        product == (h * w) * (h + 1),
                        h * w == unit * pow2((j + 52 - k) as nat),
                        times == pow2((j + 52 - k) as nat) * (h + 1),
                ;
                lemma_mod_multiples_basic(times as int, unit as int);
                lemma_mul_is_commutative(times as int, unit as int);
            } else {
                assert(c >= (h + 1) * w) by (nonlinear_arith)
                    requires
                        c == q * w,
                        q >= h + 1,
                        w > 0,
                ;
            }
        } else {
            assert(c >= (h + 3) * w) by (nonlinear_arith)
                requires
                    c == q * w,
                    q >= h + 3,
                    w > 0,
            ;
            assert(c <= 2 * h * w) by {
                lemma_multiply_divide_lt(n as int, w as int, SIGNIFICAND_LIMIT as int);
                assert(c <= (2 * h) * w) by (nonlinear_arith)
                    requires
                        c == q * w,
                        q <= 2 * h,
                        w > 0,
                ;
            }
        }
    }
}

} // verus!
