//! What holds of scaling capacities by a binary64 number.

use crate::binary64;
use crate::binary64::Binary64;
use vstd::arithmetic::div_mod::*;
use vstd::arithmetic::mul::*;
use vstd::arithmetic::power2::*;
use vstd::prelude::*;

verus! {

/// The bit patterns of the numbers above one, infinity among them, and of those
/// between zero and one.
pub proof fn law_bit_patterns(f: Binary64)
    ensures
        f.above_one() <==> 0x3FF0_0000_0000_0000 < f.bits <= 0x7FF0_0000_0000_0000,
        f.between_zero_and_one() <==> 0 < f.bits < 0x3FF0_0000_0000_0000,
        f.above_one() ==> (f.infinite() <==> f.bits == 0x7FF0_0000_0000_0000),
{
    binary64::lemma_above_one(f);
    binary64::lemma_between_zero_and_one(f);
}

/// The significand and the exponent of a positive number make up its bit pattern.
pub proof fn law_parts_make_up_the_pattern(f: Binary64)
    requires
        f.above_one() && !f.infinite() || f.between_zero_and_one(),
    ensures
        f.significand() < 0x20_0000_0000_0000,
        f.significand() >= 0x10_0000_0000_0000 ==> f.bits == (f.exponent() + 1075)
            * 0x10_0000_0000_0000 + (f.significand() - 0x10_0000_0000_0000),
        f.significand() < 0x10_0000_0000_0000 ==> f.exponent() == -1074 && f.bits
            == f.significand(),
{
    binary64::lemma_above_one(f);
    binary64::lemma_between_zero_and_one(f);
}

/// How far two numbers are apart.
pub open spec fn distance(a: int, b: int) -> int {
    if a <= b {
        b - a
    } else {
        a - b
    }
}

/// No multiple of a divisor is nearer to a number than the rounded one, and it is
/// an even multiple if another one is as near.
proof fn lemma_nearest_multiple(n: nat, d: nat, t: nat)
    requires
        d > 0,
    ensures
        ({
            let q = binary64::round_half_even(n, d);
            &&& distance((q * d) as int, n as int) <= distance((t * d) as int, n as int)
            &&& t != q && distance((q * d) as int, n as int) == distance(
                (t * d) as int,
                n as int,
            ) ==> q % 2 == 0
        }),
{
    let q = binary64::round_half_even(n, d);
    binary64::lemma_half_even_error(n, d);
    lemma_fundamental_div_mod(n as int, d as int);
    lemma_mod_bound(n as int, d as int);
    lemma_mul_is_commutative(d as int, (n / d) as int);
    lemma_mul_is_distributive_add_other_way(d as int, (n / d) as int, 1);
    if t < q {
        assert(t * d + d <= q * d) by (nonlinear_arith)
            requires
                t + 1 <= q,
                d > 0,
        ;
    } else if t > q {
        assert(q * d + d <= t * d) by (nonlinear_arith)
            requires
                q + 1 <= t,
                d > 0,
        ;
    }
}

/// `q * 2^k`.
pub open spec fn times_power(q: nat, k: nat) -> nat {
    q * pow2(k)
}

/// What rounding to fifty-three significant bits gives, against any number with no
/// more bits.
proof fn lemma_rounding(n: nat, a: nat, j: nat) -> (r: (nat, nat))
    requires
        a < 0x20_0000_0000_0000,
    ensures
        binary64::round_significant(n) == times_power(r.0, r.1),
        r.0 <= 0x20_0000_0000_0000,
        distance(binary64::round_significant(n) as int, n as int) <= distance(
            times_power(a, j) as int,
            n as int,
        ),
        times_power(a, j) != binary64::round_significant(n) && distance(
            binary64::round_significant(n) as int,
            n as int,
        ) == distance(times_power(a, j) as int, n as int) ==> r.0 % 2 == 0 && r.0
            >= 0x10_0000_0000_0000,
{
    let k = binary64::excess_bits(n);
    let unit = pow2(k);
    let q = binary64::round_half_even(n, unit);
    let x = times_power(a, j);
    let h: nat = 0x10_0000_0000_0000;
    lemma_pow2_pos(k);
    lemma_pow2_pos(j);
    lemma2_to64();
    binary64::lemma_excess_bits(n);
    binary64::lemma_half_even_error(n, unit);
    lemma_multiply_divide_lt(n as int, unit as int, 0x20_0000_0000_0000);
    if k == 0 {
        assert(n as int / 1 == n && n as int % 1 == 0);
        assert(q * 1 == q);
    } else {
        assert(q >= h) by {
            lemma_div_is_ordered((h * unit) as int, n as int, unit as int);
            lemma_div_by_multiple(h as int, unit as int);
        }
        lemma_nearest_multiple(n, unit, h);
        if j >= k {
            let t = a * pow2((j - k) as nat);
            lemma_pow2_adds(k, (j - k) as nat);
            assert(x == t * unit) by (nonlinear_arith)
                requires
                    x == a * pow2(j),
                    pow2(j) == unit * pow2((j - k) as nat),
                    t == a * pow2((j - k) as nat),
            ;
            lemma_nearest_multiple(n, unit, t);
        } else {
            lemma_pow2_unfold(k);
            let half = pow2((k - 1) as nat);
            if j < k - 1 {
                lemma_pow2_strictly_increases(j, (k - 1) as nat);
            }
            assert(x <= h * unit) by (nonlinear_arith)
                requires
                    x == a * pow2(j),
                    a <= 2 * h,
                    pow2(j) <= half,
                    unit == 2 * half,
            ;
        }
    }
    (q, k)
}

/// Rounding to fifty-three significant bits gives the nearest number that has no
/// more: it is of the form `q * 2^k` with `q` below `2^53`, and no number of that
/// form is nearer.
pub proof fn law_rounding_is_nearest(n: nat, a: nat, j: nat)
    requires
        a < 0x20_0000_0000_0000,
    ensures
        distance(binary64::round_significant(n) as int, n as int) <= distance(
            times_power(a, j) as int,
            n as int,
        ),
        exists|q: nat, k: nat|
            q < 0x20_0000_0000_0000 && binary64::round_significant(n) == #[trigger] times_power(
                q,
                k,
            ),
{
    let (q, k) = lemma_rounding(n, a, j);
    if q < 0x20_0000_0000_0000 {
        assert(binary64::round_significant(n) == times_power(q, k));
    } else {
        lemma_pow2_unfold(k + 1);
        assert(times_power(q, k) == times_power(0x10_0000_0000_0000, k + 1)) by (nonlinear_arith)
            requires
                q == 0x20_0000_0000_0000,
                pow2(k + 1) == 2 * pow2(k),
                times_power(q, k) == q * pow2(k),
                times_power(0x10_0000_0000_0000, k + 1) == 0x10_0000_0000_0000 * pow2(k + 1),
        ;
    }
}

/// Of two numbers that are equally near, rounding takes the one whose fifty-three
/// bits end in a zero.
pub proof fn law_ties_go_to_even(n: nat, a: nat, j: nat)
    requires
        a < 0x20_0000_0000_0000,
        times_power(a, j) != binary64::round_significant(n),
        distance(binary64::round_significant(n) as int, n as int) == distance(
            times_power(a, j) as int,
            n as int,
        ),
    ensures
        exists|q: nat, k: nat|
            q % 2 == 0 && 0x10_0000_0000_0000 <= q <= 0x20_0000_0000_0000
                && binary64::round_significant(n) == #[trigger] times_power(q, k),
{
    let (q, k) = lemma_rounding(n, a, j);
    assert(binary64::round_significant(n) == times_power(q, k));
}

/// A number with no more than fifty-three significant bits stays as it is.
pub proof fn law_short_numbers_are_exact(a: nat, j: nat)
    requires
        a < 0x20_0000_0000_0000,
    ensures
        binary64::round_significant(times_power(a, j)) == times_power(a, j),
{
    law_rounding_is_nearest(times_power(a, j), a, j);
}

/// Rounding changes a number by no more than one part in `2^53`.
proof fn lemma_relative_error(n: nat)
    ensures
        binary64::round_significant(n) * 0x20_0000_0000_0000 <= n * 0x20_0000_0000_0001,
        binary64::round_significant(n) * 0x20_0000_0000_0000 >= n * 0x1F_FFFF_FFFF_FFFF,
{
    let k = binary64::excess_bits(n);
    let unit = pow2(k);
    lemma_pow2_pos(k);
    binary64::lemma_excess_bits(n);
    binary64::lemma_half_even_error(n, unit);
    binary64::lemma_round_significant(n);
}

/// The product of a capacity and a number between zero and one, rounded down: the
/// rounded product of the two lies between it and the next integer.
pub proof fn law_truncated_product(f: Binary64, n: nat)
    requires
        f.between_zero_and_one(),
        n <= usize::MAX,
    ensures
        ({
            let q = f.product_trunc(n);
            let down = pow2((-f.exponent()) as nat);
            let product = binary64::round_significant(
                binary64::round_significant(n) * f.significand(),
            );
            &&& q <= usize::MAX
            &&& q * down <= product
            &&& q < usize::MAX ==> product < (q + 1) * down
        }),
{
    binary64::lemma_between_zero_and_one(f);
    let down = pow2((-f.exponent()) as nat);
    let product = binary64::round_significant(binary64::round_significant(n) * f.significand());
    let whole = product / down;
    lemma_pow2_pos((-f.exponent()) as nat);
    lemma_fundamental_div_mod(product as int, down as int);
    lemma_mod_bound(product as int, down as int);
    lemma_mul_is_commutative(down as int, whole as int);
    lemma_mul_is_distributive_add_other_way(down as int, whole as int, 1);
    let q = f.product_trunc(n);
    assert(q * down <= whole * down) by (nonlinear_arith)
        requires
            q <= whole,
            down > 0,
    ;
}

/// The share of a capacity that a threshold stands for is, to one part in `2^53`,
/// the largest integer that is not above the capacity times the threshold.
pub proof fn law_share_is_the_product(f: Binary64, n: nat)
    requires
        f.between_zero_and_one(),
        n < 0x20_0000_0000_0000,
        n < usize::MAX,
    ensures
        ({
            let q = f.product_trunc(n);
            let down = pow2((-f.exponent()) as nat);
            let exact = n * f.significand();
            &&& q <= n
            &&& (q * down) * 0x20_0000_0000_0000 <= exact * 0x20_0000_0000_0001
            &&& ((q + 1) * down) * 0x20_0000_0000_0000 > exact * 0x1F_FFFF_FFFF_FFFF
        }),
{
    let q = f.product_trunc(n);
    let m = f.significand();
    let down = pow2((-f.exponent()) as nat);
    let exact = n * m;
    let product = binary64::round_significant(exact);
    binary64::lemma_between_zero_and_one(f);
    binary64::lemma_round_significant(n);
    lemma_relative_error(exact);
    lemma_pow2_pos((-f.exponent()) as nat);
    law_truncated_product(f, n);
    lemma_small_factor(f, n);
    assert(q <= n) by (nonlinear_arith)
        requires
            q * down <= product,
            product <= n * down,
            down > 0,
    ;
}

/// A number between zero and one takes no capacity above itself, even rounded.
proof fn lemma_small_factor(f: Binary64, n: nat)
    requires
        f.between_zero_and_one(),
        n < 0x20_0000_0000_0000,
    ensures
        binary64::round_significant(n * f.significand()) <= n * pow2((-f.exponent()) as nat),
{
    binary64::lemma_between_zero_and_one(f);
    let m = f.significand();
    let e = (-f.exponent()) as nat;
    let exact = n * m;
    let limit = times_power(n, e);
    assert(m < pow2(e)) by {
        assert(m * 1 == m);
    }
    assert(exact <= limit) by (nonlinear_arith)
        requires
            exact == n * m,
            limit == n * pow2(e),
            m <= pow2(e),
    ;
    law_rounding_is_nearest(exact, n, e);
    lemma_rounding_is_monotonic_at(exact, n, e);
}

/// Rounding does not jump over a number with no more than fifty-three bits.
proof fn lemma_rounding_is_monotonic_at(n: nat, a: nat, j: nat)
    requires
        a < 0x20_0000_0000_0000,
        n <= times_power(a, j),
    ensures
        binary64::round_significant(n) <= times_power(a, j),
{
    law_rounding_is_nearest(n, a, j);
    law_short_numbers_are_exact(a, j);
}

/// The product of a capacity and a finite number above one, rounded up: the
/// rounded product of the two lies between the integer before and it.
pub proof fn law_raised_product(f: Binary64, n: nat)
    requires
        f.above_one(),
        0 < n <= usize::MAX,
    ensures
        f.infinite() ==> f.product_ceil(n) == usize::MAX,
        !f.infinite() ==> {
            let q = f.product_ceil(n);
            let product = binary64::round_significant(
                binary64::round_significant(n) * f.significand(),
            );
            &&& q <= usize::MAX
            &&& f.exponent() <= 0 ==> {
                let down = pow2((-f.exponent()) as nat);
                &&& (q - 1) * down < product
                &&& q < usize::MAX ==> product <= q * down
            }
            &&& f.exponent() > 0 ==> {
                let up = pow2(f.exponent() as nat);
                &&& product * up <= usize::MAX ==> q == product * up
                &&& product * up > usize::MAX ==> q == usize::MAX
            }
        },
{
    binary64::lemma_above_one(f);
    if !f.infinite() {
        let e = f.exponent();
        let q = f.product_ceil(n);
        let product = f.rounded_product(n);
        lemma2_to64();
        if e <= 0 {
            let down = pow2((-e) as nat);
            lemma_pow2_pos((-e) as nat);
            assert(binary64::scale_up(-e) == down);
            assert(product * 1 == product);
            let total = product + down - 1;
            let whole = total / down as int;
            lemma_fundamental_div_mod(total, down as int);
            lemma_mod_bound(total, down as int);
            lemma_mul_is_commutative(down as int, whole);
            assert(whole >= 0) by {
                lemma_div_pos_is_pos(total, down as int);
            }
            assert((whole - 1) * down == whole * down - down) by (nonlinear_arith);
            assert((q - 1) * down <= (whole - 1) * down) by (nonlinear_arith)
                requires
                    q <= whole,
                    down > 0,
            ;
        } else {
            let up = pow2(e as nat);
            assert((product * up + 1 - 1) / 1int == product * up);
        }
    }
}

/// A capacity grows, to one part in `2^53`, to the smallest integer that is not
/// below the capacity times the factor.
pub proof fn law_growth_is_the_product(f: Binary64, n: nat)
    requires
        f.above_one(),
        !f.infinite(),
        f.exponent() <= 0,
        0 < n < 0x20_0000_0000_0000,
        n <= usize::MAX,
    ensures
        ({
            let q = f.product_ceil(n);
            let down = pow2((-f.exponent()) as nat);
            let exact = n * f.significand();
            &&& ((q - 1) * down) * 0x20_0000_0000_0000 < exact * 0x20_0000_0000_0001
            &&& q < usize::MAX ==> (q * down) * 0x20_0000_0000_0000 >= exact
                * 0x1F_FFFF_FFFF_FFFF
        }),
{
    binary64::lemma_round_significant(n);
    lemma_relative_error(n * f.significand());
    law_raised_product(f, n);
}

/// The bounds that doubling the dividend ends with.
proof fn lemma_missing_bits(n: nat, d: nat)
    requires
        0 < n < d * 0x20_0000_0000_0000,
    ensures
        d * 0x10_0000_0000_0000 <= n * pow2(binary64::missing_bits(n, d)) < d
            * 0x20_0000_0000_0000,
    decreases
            if n < d * 0x10_0000_0000_0000 {
                d * 0x10_0000_0000_0000 - n
            } else {
                0
            },
{
    lemma2_to64();
    if n >= d * 0x10_0000_0000_0000 {
        assert(n * 1 == n);
    } else {
        lemma_missing_bits(2 * n, d);
        let k = binary64::missing_bits(2 * n, d);
        lemma_pow2_unfold(k + 1);
        assert((2 * n) * pow2(k) == n * (2 * pow2(k))) by (nonlinear_arith);
    }
}

/// The bounds that doubling the divisor ends with.
proof fn lemma_surplus_bits(n: nat, d: nat)
    requires
        0 < d,
        d * 0x10_0000_0000_0000 <= n,
    ensures
        (d * pow2(binary64::surplus_bits(n, d))) * 0x10_0000_0000_0000 <= n,
        n < (d * pow2(binary64::surplus_bits(n, d))) * 0x20_0000_0000_0000,
    decreases n - d,
{
    lemma2_to64();
    if n < d * 0x20_0000_0000_0000 {
        assert(d * 1 == d);
    } else {
        lemma_surplus_bits(n, 2 * d);
        let k = binary64::surplus_bits(n, 2 * d);
        lemma_pow2_unfold(k + 1);
        assert((2 * d) * pow2(k) == d * (2 * pow2(k))) by (nonlinear_arith);
    }
}

/// A rounded quotient is, to one part in `2^53`, the largest integer that is not
/// above the quotient, and the quotient itself if that is an integer below `2^53`.
proof fn lemma_rounded_quotient(n: nat, d: nat)
    requires
        0 < d,
    ensures
        ({
            let q = binary64::rounded_quotient_floor(n, d);
            &&& (q * d) * 0x20_0000_0000_0000 <= n * 0x20_0000_0000_0001
            &&& ((q + 1) * d) * 0x20_0000_0000_0000 > n * 0x1F_FFFF_FFFF_FFFF
            &&& forall|t: nat| t < 0x20_0000_0000_0000 && n == #[trigger] (t * d) ==> q == t
        }),
{
    let q = binary64::rounded_quotient_floor(n, d);
    if n >= d * 0x20_0000_0000_0000 {
        let unit = pow2(binary64::surplus_bits(n, d));
        let by = d * unit;
        let r = binary64::round_half_even(n, by);
        lemma_surplus_bits(n, d);
        lemma_pow2_pos(binary64::surplus_bits(n, d));
        assert(by > 0) by (nonlinear_arith)
            requires
                by == d * unit,
                d > 0,
                unit > 0,
        ;
        binary64::lemma_half_even_error(n, by);
        assert(q * d == r * by) by (nonlinear_arith)
            requires
                q == r * unit,
                by == d * unit,
        ;
        assert((q + 1) * d == q * d + d) by (nonlinear_arith);
        assert forall|t: nat| t < 0x20_0000_0000_0000 && n == #[trigger] (t * d) implies q == t by {
            assert(t * d < 0x20_0000_0000_0000 * d) by (nonlinear_arith)
                requires
                    t < 0x20_0000_0000_0000,
                    d > 0,
            ;
        }
    } else {
        let unit = pow2(binary64::missing_bits(n, d));
        let scaled = n * unit;
        let r = binary64::round_half_even(scaled, d);
        lemma_pow2_pos(binary64::missing_bits(n, d));
        binary64::lemma_half_even_error(scaled, d);
        lemma_fundamental_div_mod(r as int, unit as int);
        lemma_mod_bound(r as int, unit as int);
        lemma_mul_is_commutative(unit as int, q as int);
        lemma_mul_is_distributive_add_other_way(unit as int, q as int, 1);
        if n == 0 {
            assert(scaled == 0) by (nonlinear_arith)
                requires
                    scaled == n * unit,
                    n == 0,
            ;
            lemma_small_mod(0, d);
            assert(r == 0) by (nonlinear_arith)
                requires
                    r * d == 0,
                    d > 0,
                    r >= 0,
            ;
            lemma_basic_div(0, unit as int);
            assert((q + 1) * d == d && q * d == 0) by (nonlinear_arith)
                requires
                    q == 0,
            ;
        } else {
            lemma_missing_bits(n, d);
            lemma_scaled_bounds(n as int, d as int, unit as int, r as int, q as int);
        }
        assert forall|t: nat| t < 0x20_0000_0000_0000 && n == #[trigger] (t * d) implies q == t by {
            assert(scaled == (t * unit) * d) by (nonlinear_arith)
                requires
                    scaled == n * unit,
                    n == t * d,
            ;
            lemma_mod_multiples_basic((t * unit) as int, d as int);
            assert(r == t * unit) by (nonlinear_arith)
                requires
                    r * d == (t * unit) * d,
                    d > 0,
            ;
            lemma_div_by_multiple(t as int, unit as int);
        }
    }
}

/// What the rounding of a scaled quotient means for the quotient.
proof fn lemma_scaled_bounds(n: int, d: int, unit: int, r: int, q: int)
    requires
        0 < n,
        0 < d,
        0 < unit,
        0 <= q,
        0 <= r,
        d * 0x10_0000_0000_0000 <= n * unit,
        2 * (r * d) + d >= 2 * (n * unit),
        2 * (r * d) <= 2 * (n * unit) + d,
        q * unit <= r < q * unit + unit,
    ensures
        (q * d) * 0x20_0000_0000_0000 <= n * 0x20_0000_0000_0001,
        ((q + 1) * d) * 0x20_0000_0000_0000 > n * 0x1F_FFFF_FFFF_FFFF,
{
    let l: int = 0x20_0000_0000_0000;
    let x = n * unit;
    let y = r * d;
    assert(y * l <= x * (l + 1) && y * l >= x * (l - 1));
    let low = q * d;
    let high = (q + 1) * d;
    assert(low * unit <= y) by (nonlinear_arith)
        requires
            low == q * d,
            y == r * d,
            q * unit <= r,
            d > 0,
    ;
    assert(high * unit > y) by (nonlinear_arith)
        requires
            high == (q + 1) * d,
            y == r * d,
            r < q * unit + unit,
            d > 0,
    ;
    assert(low * l <= n * (l + 1)) by (nonlinear_arith)
        requires
            low * unit <= y,
            y * l <= x * (l + 1),
            x == n * unit,
            unit > 0,
            l > 0,
    ;
    assert(high * l > n * (l - 1)) by (nonlinear_arith)
        requires
            high * unit > y,
            y * l >= x * (l - 1),
            x == n * unit,
            unit > 0,
            l > 0,
    ;
}

/// A capacity shrinks, to one part in `2^53`, to the largest integer that is not
/// above the capacity divided by the factor, and to the quotient itself if that
/// is an integer.
pub proof fn law_shrinking_is_the_quotient(f: Binary64, n: nat)
    requires
        f.above_one(),
        n < 0x20_0000_0000_0000,
        n < usize::MAX,
    ensures
        f.infinite() ==> f.quotient_floor(n) == 0,
        !f.infinite() ==> {
            let q = f.quotient_floor(n);
            let dividend = n * binary64::scale_up(-f.exponent());
            let divisor = f.significand() * binary64::scale_up(f.exponent());
            &&& q <= n
            &&& (q * divisor) * 0x20_0000_0000_0000 <= dividend * 0x20_0000_0000_0001
            &&& ((q + 1) * divisor) * 0x20_0000_0000_0000 > dividend * 0x1F_FFFF_FFFF_FFFF
            &&& forall|t: nat| t <= n && dividend == #[trigger] (t * divisor) ==> q == t
        },
{
    binary64::lemma_above_one(f);
    if !f.infinite() {
        binary64::lemma_round_significant(n);
        let e = f.exponent();
        let down = binary64::scale_up(-e);
        let up = binary64::scale_up(e);
        let dividend = n * down;
        let divisor = f.significand() * up;
        lemma2_to64();
        if e > 0 {
            lemma_pow2_pos(e as nat);
        }
        if e < 0 {
            lemma_pow2_pos((-e) as nat);
        }
        assert(divisor > down);
        lemma_rounded_quotient(dividend, divisor);
        let q = binary64::rounded_quotient_floor(dividend, divisor);
        assert(q <= n) by {
            if q >= n + 1 {
                assert((q * divisor) >= (n + 1) * divisor) by (nonlinear_arith)
                    requires
                        q >= n + 1,
                        divisor > 0,
                ;
                assert((n + 1) * divisor == n * divisor + divisor) by (nonlinear_arith);
                assert(n * divisor >= n * down) by (nonlinear_arith)
                    requires
                        divisor >= down,
                ;
                assert(n * down < 0x20_0000_0000_0000 * divisor) by (nonlinear_arith)
                    requires
                        n < 0x20_0000_0000_0000,
                        0 < down < divisor,
                ;
            }
        }
    }
}

/// The same of any capacity, which is first rounded to fifty-three bits.
pub proof fn law_floored_quotient(f: Binary64, n: nat)
    requires
        f.above_one(),
        !f.infinite(),
        n <= usize::MAX,
    ensures
        ({
            let q = f.quotient_floor(n);
            let dividend = binary64::round_significant(n) * binary64::scale_up(-f.exponent());
            let divisor = f.significand() * binary64::scale_up(f.exponent());
            &&& q <= usize::MAX
            &&& (q * divisor) * 0x20_0000_0000_0000 <= dividend * 0x20_0000_0000_0001
            &&& q < usize::MAX ==> ((q + 1) * divisor) * 0x20_0000_0000_0000 > dividend
                * 0x1F_FFFF_FFFF_FFFF
        }),
{
    binary64::lemma_above_one(f);
    let e = f.exponent();
    let dividend = binary64::round_significant(n) * binary64::scale_up(-e);
    let divisor = f.significand() * binary64::scale_up(e);
    lemma2_to64();
    if e > 0 {
        lemma_pow2_pos(e as nat);
    }
    if e < 0 {
        lemma_pow2_pos((-e) as nat);
    }
    assert(divisor > 0);
    lemma_rounded_quotient(dividend, divisor);
    let whole = binary64::rounded_quotient_floor(dividend, divisor);
    let q = f.quotient_floor(n);
    assert(q * divisor <= whole * divisor) by (nonlinear_arith)
        requires
            q <= whole,
            divisor > 0,
    ;
}

/// Powers of two for positive exponents, and one for all others.
pub proof fn law_scales(e: int)
    ensures
        e >= 0 ==> binary64::scale_up(e) == pow2(e as nat),
        e <= 0 ==> binary64::scale_up(e) == 1,
{
    lemma2_to64();
}

} // verus!
