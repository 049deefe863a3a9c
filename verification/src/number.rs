//! Numbers of the rule language: IEEE-754 binary64 values, held as their
//! 64 bits and handled with integer arithmetic alone.
//!
//! The top bit is the sign; the other 63 bits are the magnitude, which
//! orders the values of one sign. A magnitude above that of infinity is
//! not a number (NaN), and compares with nothing.

use vstd::arithmetic::mul::*;
use vstd::arithmetic::power2::*;
use vstd::prelude::*;

verus! {

/// The sign bit of a binary64 value.
pub const SIGN_BIT: u64 = 0x8000_0000_0000_0000;

/// The bits of positive infinity.
pub const INFINITY_BITS: u64 = 0x7ff0_0000_0000_0000;

/// Two to the power 52: the weight of the exponent field, and the hidden
/// bit of a normal significand.
pub const HIDDEN_BIT: u64 = 0x0010_0000_0000_0000;

/// Whether the sign bit is set.
pub open spec fn is_negative(bits: u64) -> bool {
    bits >= SIGN_BIT
}

/// The bits without the sign bit.
pub open spec fn magnitude(bits: u64) -> u64 {
    if bits >= SIGN_BIT {
        (bits - SIGN_BIT) as u64
    } else {
        bits
    }
}

/// Whether the bits stand for no number.
pub open spec fn is_nan(bits: u64) -> bool {
    magnitude(bits) > INFINITY_BITS
}

/// The place of a number on the number line: two numbers compare as their
/// keys do. Both zeros have the key 0.
pub open spec fn order_key(bits: u64) -> int {
    if is_negative(bits) {
        -(magnitude(bits) as int)
    } else {
        magnitude(bits) as int
    }
}

/// Numeric equality: false as soon as either side is NaN.
pub open spec fn num_eq(a: u64, b: u64) -> bool {
    !is_nan(a) && !is_nan(b) && order_key(a) == order_key(b)
}

/// Numeric order: false as soon as either side is NaN.
pub open spec fn num_lt(a: u64, b: u64) -> bool {
    !is_nan(a) && !is_nan(b) && order_key(a) < order_key(b)
}

/// Numeric order or equality: false as soon as either side is NaN.
pub open spec fn num_le(a: u64, b: u64) -> bool {
    !is_nan(a) && !is_nan(b) && order_key(a) <= order_key(b)
}

/// Executable form of [`is_nan`].
pub fn bits_are_nan(bits: u64) -> (r: bool)
    ensures
        r == is_nan(bits),
{
    let m = if bits >= SIGN_BIT {
        bits - SIGN_BIT
    } else {
        bits
    };
    m > INFINITY_BITS
}

/// Executable form of [`num_eq`].
pub fn bits_eq(a: u64, b: u64) -> (r: bool)
    ensures
        r == num_eq(a, b),
{
    if bits_are_nan(a) || bits_are_nan(b) {
        return false;
    }
    let ma = if a >= SIGN_BIT {
        a - SIGN_BIT
    } else {
        a
    };
    let mb = if b >= SIGN_BIT {
        b - SIGN_BIT
    } else {
        b
    };
    if ma == 0 && mb == 0 {
        true
    } else {
        a == b
    }
}

/// Executable form of [`num_lt`].
pub fn bits_lt(a: u64, b: u64) -> (r: bool)
    ensures
        r == num_lt(a, b),
{
    if bits_are_nan(a) || bits_are_nan(b) {
        return false;
    }
    let na = a >= SIGN_BIT;
    let nb = b >= SIGN_BIT;
    let ma = if na {
        a - SIGN_BIT
    } else {
        a
    };
    let mb = if nb {
        b - SIGN_BIT
    } else {
        b
    };
    if na && nb {
        ma > mb
    } else if na {
        ma > 0 || mb > 0
    } else if nb {
        false
    } else {
        ma < mb
    }
}

/// Executable form of [`num_le`].
pub fn bits_le(a: u64, b: u64) -> (r: bool)
    ensures
        r == num_le(a, b),
{
    bits_lt(a, b) || bits_eq(a, b)
}

/// The quotient `a / b` divided by two to the `e`, as a fraction: its
/// numerator.
pub open spec fn scaled_num(a: nat, e: int) -> nat {
    if e < 0 {
        a * pow2((-e) as nat)
    } else {
        a
    }
}

/// The quotient `a / b` divided by two to the `e`, as a fraction: its
/// denominator.
pub open spec fn scaled_den(b: nat, e: int) -> nat {
    if e >= 0 {
        b * pow2(e as nat)
    } else {
        b
    }
}

/// Whether `e` is the exponent under which `a / b` is rounded: the
/// quotient divided by two to the `e` is below two to the 53, and either it
/// is at least two to the 52 or `e` is the least exponent, -1074.
pub open spec fn fits(a: nat, b: nat, e: int) -> bool {
    &&& e >= -1074
    &&& scaled_num(a, e) < scaled_den(b, e) * pow2(53)
    &&& (e == -1074 || scaled_num(a, e) >= scaled_den(b, e) * pow2(52))
}

/// The exponent under which `a / b` is rounded.
pub open spec fn binary_exponent(a: nat, b: nat) -> int {
    choose|e: int| fits(a, b, e)
}

/// The bits of the quotient `n / d`, rounded to a whole significand, ties
/// to even, under the exponent `e`; infinity if that is out of range.
pub open spec fn assemble(n: nat, d: nat, e: int) -> u64 {
    let q = n / d;
    let r = n % d;
    let up: nat = if 2 * r > d || (2 * r == d && q % 2 == 1) {
        1
    } else {
        0
    };
    let bits = (e + 1074) * pow2(52) + q + up;
    if bits >= INFINITY_BITS {
        INFINITY_BITS
    } else {
        bits as u64
    }
}

/// The bits of the binary64 number nearest to the quotient `a / b` of two
/// naturals; of two nearest, the one with the even significand. The
/// quotient is divided by the power of two that leaves its whole part 53
/// bits (fewer for the smallest numbers), and the whole part is rounded by
/// what is left. A quotient beyond the largest number gives infinity.
pub open spec fn nearest_bits(a: nat, b: nat) -> u64 {
    if a == 0 || b == 0 {
        0
    } else {
        let e = binary_exponent(a, b);
        assemble(scaled_num(a, e), scaled_den(b, e), e)
    }
}

/// The number that an unsigned integer widens to.
pub open spec fn widened(n: u64) -> u64 {
    nearest_bits(n as nat, 1)
}

/// Scaling a positive ratio keeps both of its parts positive.
pub proof fn lemma_scaled_positive(a: nat, b: nat, e: int)
    requires
        a > 0,
        b > 0,
    ensures
        scaled_num(a, e) > 0,
        scaled_den(b, e) > 0,
{
    if e < 0 {
        lemma_pow2_pos((-e) as nat);
        assert(a * pow2((-e) as nat) > 0) by (nonlinear_arith)
            requires
                a > 0,
                pow2((-e) as nat) > 0,
        ;
    } else {
        lemma_pow2_pos(e as nat);
        assert(b * pow2(e as nat) > 0) by (nonlinear_arith)
            requires
                b > 0,
                pow2(e as nat) > 0,
        ;
    }
}

/// One exponent lower, the scaled quotient is twice as large: its
/// numerator doubles, or its denominator halves.
pub proof fn lemma_scaled_down(a: nat, b: nat, e: int)
    ensures
        e <= 0 ==> scaled_num(a, e - 1) == 2 * scaled_num(a, e) && scaled_den(b, e - 1)
            == scaled_den(b, e),
        e >= 1 ==> scaled_num(a, e - 1) == scaled_num(a, e) && scaled_den(b, e) == 2 * scaled_den(
            b,
            e - 1,
        ),
{
    lemma2_to64();
    if e <= 0 {
        lemma_pow2_unfold((1 - e) as nat);
        assert(a * (2 * pow2((-e) as nat)) == 2 * (a * pow2((-e) as nat))) by (nonlinear_arith);
        assert(b * 1 == b);
        assert(a * 1 == a);
    } else {
        lemma_pow2_unfold(e as nat);
        assert(b * (2 * pow2((e - 1) as nat)) == 2 * (b * pow2((e - 1) as nat)))
            by (nonlinear_arith);
    }
}

/// A lower bound on the scaled quotient carries over to lower exponents,
/// doubling at each step.
pub proof fn lemma_scaled_lower(a: nat, b: nat, e: int, lo: int, m: nat)
    requires
        a > 0,
        b > 0,
        lo <= e,
        scaled_num(a, e) >= scaled_den(b, e) * m,
    ensures
        scaled_num(a, lo) >= scaled_den(b, lo) * (m * pow2((e - lo) as nat)),
    decreases e - lo,
{
    lemma2_to64();
    if lo < e {
        lemma_scaled_down(a, b, e);
        lemma_scaled_positive(a, b, e);
        lemma_scaled_positive(a, b, e - 1);
        let n = scaled_num(a, e);
        let d = scaled_den(b, e);
        let n1 = scaled_num(a, e - 1);
        let d1 = scaled_den(b, e - 1);
        assert(n1 >= d1 * (2 * m)) by (nonlinear_arith)
            requires
                n >= d * m,
                (n1 == 2 * n && d1 == d) || (n1 == n && d == 2 * d1),
        ;
        lemma_scaled_lower(a, b, e - 1, lo, 2 * m);
        lemma_pow2_unfold((e - lo) as nat);
        assert((2 * m) * pow2((e - 1 - lo) as nat) == m * (2 * pow2((e - 1 - lo) as nat)))
            by (nonlinear_arith);
    } else {
        assert(m * 1 == m);
    }
}

/// At most one exponent fits a quotient.
pub proof fn lemma_fits_unique(a: nat, b: nat, e1: int, e2: int)
    requires
        a > 0,
        b > 0,
        fits(a, b, e1),
        fits(a, b, e2),
    ensures
        e1 == e2,
{
    lemma_fits_not_below(a, b, e1, e2);
    lemma_fits_not_below(a, b, e2, e1);
}

/// Of two exponents that fit a quotient, the first is not below the
/// second.
proof fn lemma_fits_not_below(a: nat, b: nat, lo: int, hi: int)
    requires
        a > 0,
        b > 0,
        fits(a, b, lo),
        fits(a, b, hi),
    ensures
        lo >= hi,
{
    if lo < hi {
        lemma_scaled_lower(a, b, hi, lo, pow2(52));
        lemma_pow2_strictly_increases(0, (hi - lo) as nat);
        lemma2_to64();
        lemma2_to64_rest();
        lemma_scaled_positive(a, b, lo);
        let d = scaled_den(b, lo);
        let k = pow2((hi - lo) as nat);
        assert(d * (pow2(52) * k) >= d * pow2(53)) by (nonlinear_arith)
            requires
                k >= 2,
                d > 0,
                pow2(53) == 2 * pow2(52),
        ;
    }
}

/// An exponent above which the scaled quotient is too large lies below
/// the exponent that fits.
pub proof fn lemma_fits_above(a: nat, b: nat, s: int, e: int)
    requires
        a > 0,
        b > 0,
        fits(a, b, e),
        scaled_num(a, s) >= scaled_den(b, s) * pow2(53),
    ensures
        e > s,
{
    if e <= s {
        lemma_scaled_lower(a, b, s, e, pow2(53));
        lemma_pow2_pos((s - e) as nat);
        lemma_scaled_positive(a, b, e);
        let d = scaled_den(b, e);
        let k = pow2((s - e) as nat);
        assert(d * (pow2(53) * k) >= d * pow2(53)) by (nonlinear_arith)
            requires
                k >= 1,
                d > 0,
        ;
    }
}

/// The whole part and the remainder of a quotient.
pub proof fn lemma_floor(n: nat, d: nat)
    requires
        d > 0,
    ensures
        n == d * (n / d) + n % d,
        0 <= n % d < d,
{
    vstd::arithmetic::div_mod::lemma_fundamental_div_mod(n as int, d as int);
    vstd::arithmetic::div_mod::lemma_mod_pos_bound(n as int, d as int);
}

/// A natural is at most the whole part of a quotient exactly when its
/// product with the denominator is at most the numerator.
pub proof fn lemma_floor_le(n: nat, d: nat, x: nat)
    requires
        d > 0,
    ensures
        (x * d <= n) <==> (x <= n / d),
{
    lemma_floor(n, d);
    let q = n / d;
    if x <= q {
        assert(x * d <= q * d) by (nonlinear_arith)
            requires
                x <= q,
                d > 0,
        ;
        assert(q * d == d * q) by (nonlinear_arith);
    } else {
        assert(x * d >= (q + 1) * d) by (nonlinear_arith)
            requires
                x >= q + 1,
                d > 0,
        ;
        assert((q + 1) * d == d * q + d) by (nonlinear_arith);
    }
}

/// Two fractions of the same value have the same whole part, and their
/// remainders stand to their denominators alike.
pub proof fn lemma_same_ratio(n: nat, d: nat, n2: nat, d2: nat)
    requires
        d > 0,
        d2 > 0,
        n * d2 == n2 * d,
    ensures
        n / d == n2 / d2,
        (2 * (n % d) < d) == (2 * (n2 % d2) < d2),
        (2 * (n % d) == d) == (2 * (n2 % d2) == d2),
        (2 * (n % d) > d) == (2 * (n2 % d2) > d2),
{
    lemma_floor(n, d);
    let q = n / d;
    let r = n % d;
    let r2 = n2 as int - q * d2;
    assert(r2 * d == r * d2) by (nonlinear_arith)
        requires
            n * d2 == n2 * d,
            n == d * q + r,
            r2 == n2 - q * d2,
    ;
    assert(r2 >= 0) by (nonlinear_arith)
        requires
            r2 * d == r * d2,
            r >= 0,
            d > 0,
            d2 > 0,
    ;
    assert(r2 < d2) by (nonlinear_arith)
        requires
            r2 * d == r * d2,
            r < d,
            d > 0,
            d2 > 0,
    ;
    vstd::arithmetic::div_mod::lemma_fundamental_div_mod_converse(
        n2 as int,
        d2 as int,
        q as int,
        r2,
    );
    assert((2 * r < d) == (2 * r2 < d2)) by (nonlinear_arith)
        requires
            r2 * d == r * d2,
            d > 0,
            d2 > 0,
    ;
    assert((2 * r == d) == (2 * r2 == d2)) by (nonlinear_arith)
        requires
            r2 * d == r * d2,
            d > 0,
            d2 > 0,
    ;
}

/// Some exponent fits every quotient of positive naturals.
pub proof fn lemma_fits_exists(a: nat, b: nat)
    requires
        a > 0,
        b > 0,
    ensures
        fits(a, b, binary_exponent(a, b)),
{
    lemma_fits_from(a, b, -1074);
}

/// From an exponent at which the scaled ratio is not below the normal
/// range, a fitting exponent is found by going upward.
proof fn lemma_fits_from(a: nat, b: nat, e: int)
    requires
        a > 0,
        b > 0,
        e >= -1074,
        e == -1074 || scaled_num(a, e) >= scaled_den(b, e) * pow2(52),
    ensures
        exists|x: int| fits(a, b, x),
    decreases scaled_num(a, e) / scaled_den(b, e),
{
    lemma2_to64();
    lemma2_to64_rest();
    let n = scaled_num(a, e);
    let d = scaled_den(b, e);
    if n < d * pow2(53) {
        assert(fits(a, b, e));
    } else {
        lemma_scaled_down(a, b, e + 1);
        lemma_scaled_positive(a, b, e);
        lemma_scaled_positive(a, b, e + 1);
        let n1 = scaled_num(a, e + 1);
        let d1 = scaled_den(b, e + 1);
        assert(n1 >= d1 * pow2(52)) by (nonlinear_arith)
            requires
                n >= d * pow2(53),
                pow2(53) == 2 * pow2(52),
                (n == 2 * n1 && d == d1) || (n == n1 && d1 == 2 * d),
        ;
        lemma_floor(n, d);
        lemma_floor(n1, d1);
        let q = n / d;
        let q1 = n1 / d1;
        assert(pow2(53) * d <= n) by (nonlinear_arith)
            requires
                n >= d * pow2(53),
        ;
        lemma_floor_le(n, d, pow2(53));
        assert(pow2(53) <= q);
        assert((2 * q1) * d <= n) by (nonlinear_arith)
            requires
                n1 == d1 * q1 + n1 % d1,
                n1 % d1 >= 0,
                (n == 2 * n1 && d == d1) || (n == n1 && d1 == 2 * d),
        ;
        lemma_floor_le(n, d, 2 * q1);
        assert(2 * q1 <= q);
        lemma_fits_from(a, b, e + 1);
    }
}

/// A quotient of at least two to the 1025 rounds to infinity.
pub proof fn lemma_huge_is_infinite(a: nat, b: nat)
    requires
        b > 0,
        a >= b * pow2(1025),
    ensures
        nearest_bits(a, b) == INFINITY_BITS,
{
    lemma_pow2_pos(1025);
    assert(a > 0) by (nonlinear_arith)
        requires
            a >= b * pow2(1025),
            b > 0,
            pow2(1025) > 0,
    ;
    lemma_fits_exists(a, b);
    let e = binary_exponent(a, b);
    lemma2_to64();
    lemma2_to64_rest();
    if e <= 972 {
        lemma_pow2_adds(972, 53);
        if e >= 0 {
            if e < 972 {
                lemma_pow2_strictly_increases(e as nat, 972);
            }
            assert(a >= (b * pow2(e as nat)) * pow2(53)) by (nonlinear_arith)
                requires
                    a >= b * pow2(1025),
                    pow2(1025) == pow2(972) * pow2(53),
                    pow2(e as nat) <= pow2(972),
                    b > 0,
                    pow2(53) > 0,
            ;
        } else {
            lemma_pow2_pos((-e) as nat);
            lemma_pow2_pos(972);
            assert(a * pow2((-e) as nat) >= b * pow2(53)) by (nonlinear_arith)
                requires
                    a >= b * pow2(1025),
                    pow2(1025) == pow2(972) * pow2(53),
                    pow2(972) >= 1,
                    pow2((-e) as nat) >= 1,
                    b > 0,
                    pow2(53) > 0,
            ;
        }
        assert(false);
    }
    assert((e + 1074) * pow2(52) >= 2047 * pow2(52)) by (nonlinear_arith)
        requires
            e >= 973,
            pow2(52) > 0,
    ;
}

/// A quotient of at most two to the -1075 rounds to zero.
pub proof fn lemma_tiny_is_zero(a: nat, b: nat)
    requires
        a > 0,
        b > 0,
        a * pow2(1075) <= b,
    ensures
        nearest_bits(a, b) == 0,
{
    lemma_fits_exists(a, b);
    let e = binary_exponent(a, b);
    lemma2_to64();
    lemma2_to64_rest();
    lemma_pow2_pos(1075);
    lemma_pow2_pos(1074);
    lemma_pow2_unfold(1075);
    if e > -1074 {
        if e >= 0 {
            lemma_pow2_pos(e as nat);
            assert(false) by (nonlinear_arith)
                requires
                    a >= (b * pow2(e as nat)) * pow2(52),
                    a * pow2(1075) <= b,
                    a > 0,
                    b > 0,
                    pow2(e as nat) >= 1,
                    pow2(52) >= 2,
                    pow2(1075) >= 1,
            ;
        } else {
            lemma_pow2_strictly_increases((-e) as nat, 1075);
            assert(false) by (nonlinear_arith)
                requires
                    a * pow2((-e) as nat) >= b * pow2(52),
                    a * pow2(1075) <= b,
                    pow2((-e) as nat) < pow2(1075),
                    a > 0,
                    b > 0,
                    pow2(52) >= 1,
            ;
        }
    }
    let n = a * pow2(1074);
    assert(2 * n <= b) by (nonlinear_arith)
        requires
            n == a * pow2(1074),
            pow2(1075) == 2 * pow2(1074),
            a * pow2(1075) <= b,
    ;
    assert(n > 0) by (nonlinear_arith)
        requires
            n == a * pow2(1074),
            a > 0,
            pow2(1074) > 0,
    ;
    vstd::arithmetic::div_mod::lemma_small_mod(n, b);
    vstd::arithmetic::div_mod::lemma_basic_div(n as int, b as int);
    assert(0 * pow2(52) == 0);
}

/// What rounding gives is a number: it is never beyond infinity, and
/// never NaN.
pub proof fn lemma_nearest_is_a_number(a: nat, b: nat)
    ensures
        nearest_bits(a, b) <= INFINITY_BITS,
        !is_nan(nearest_bits(a, b)),
        !is_negative(nearest_bits(a, b)),
{
    if a > 0 && b > 0 {
        lemma_fits_exists(a, b);
        let e = binary_exponent(a, b);
        lemma_pow2_pos(52);
        assert((e + 1074) * pow2(52) >= 0) by (nonlinear_arith)
            requires
                e >= -1074,
                pow2(52) > 0,
        ;
        let n = scaled_num(a, e);
        let d = scaled_den(b, e);
        lemma_scaled_positive(a, b, e);
        lemma_floor(n, d);
        let q = n / d;
        let r = n % d;
        let up: nat = if 2 * r > d || (2 * r == d && q % 2 == 1) {
            1
        } else {
            0
        };
        let bits = (e + 1074) * pow2(52) + q + up;
        assert(bits >= 0);
        assert(assemble(n, d, e) == (if bits >= INFINITY_BITS {
            INFINITY_BITS
        } else {
            bits as u64
        }));
        assert(assemble(n, d, e) <= INFINITY_BITS);
        assert(nearest_bits(a, b) == assemble(n, d, e));
    }
    assert(INFINITY_BITS < SIGN_BIT);
}

/// Two to the power `k`.
fn power_of_two(k: u64) -> (r: u64)
    requires
        k <= 63,
    ensures
        r == pow2(k as nat),
{
    let mut r: u64 = 1;
    let mut i: u64 = 0;
    proof {
        lemma2_to64();
        lemma2_to64_rest();
    }
    while i < k
        invariant
            i <= k <= 63,
            r == pow2(i as nat),
        decreases k - i,
    {
        proof {
            lemma_pow2_unfold((i + 1) as nat);
            lemma_pow2_strictly_increases((i + 1) as nat, 64);
            lemma2_to64();
            lemma2_to64_rest();
        }
        r = r * 2;
        i += 1;
    }
    r
}

/// Widens an unsigned integer to the nearest number; integers of more than
/// 53 bits are rounded, ties to even.
pub fn from_u64(n: u64) -> (r: u64)
    ensures
        r == widened(n),
{
    if n == 0 {
        return 0;
    }
    let mut l: u64 = 0;
    let mut p: u64 = 1;
    proof {
        lemma2_to64();
        lemma2_to64_rest();
    }
    while n / 2 >= p
        invariant
            p == pow2(l as nat),
            1 <= p <= n,
            l <= 63,
        decreases n - p,
    {
        proof {
            lemma_pow2_unfold((l + 1) as nat);
            if l == 63 {
                lemma2_to64();
                lemma2_to64_rest();
                assert(false);
            }
        }
        p = p * 2;
        l += 1;
    }
    assert(p <= n < 2 * p);
    proof {
        lemma2_to64();
        lemma2_to64_rest();
    }
    let ghost e = l as int - 52;
    if l <= 52 {
        let scale = power_of_two(52 - l);
        proof {
            lemma_pow2_adds(l as nat, (52 - l) as nat);
            assert(p * scale == HIDDEN_BIT);
            lemma_mul_strict_inequality(n as int, 2 * p, scale as int);
            lemma_mul_inequality(p as int, n as int, scale as int);
            assert((2 * p) * scale == 2 * (p * scale)) by (nonlinear_arith);
        }
        let m = n * scale;
        let bits = (l + 1022) * HIDDEN_BIT + m;
        proof {
            assert(scaled_den(1, e) == 1) by {
                assert((1 as nat) * pow2(0) == 1);
            }
            assert(scaled_num(n as nat, e) == m) by {
                if e == 0 {
                    assert(m == n) by (nonlinear_arith)
                        requires
                            scale == 1,
                            m == n * scale,
                    ;
                }
            }
            assert(1 * pow2(53) == pow2(53));
            assert(1 * pow2(52) == pow2(52));
            assert(fits(n as nat, 1, e));
            lemma_fits_exists(n as nat, 1);
            lemma_fits_unique(n as nat, 1, e, binary_exponent(n as nat, 1));
            assert((m as nat) / 1 == m && (m as nat) % 1 == 0);
            assert(bits == (e + 1074) * pow2(52) + m);
            assert(assemble(m as nat, 1, e) == bits);
        }
        bits
    } else {
        let d = power_of_two(l - 52);
        proof {
            lemma_pow2_adds(52, (l - 52) as nat);
            lemma_pow2_strictly_increases((l - 52) as nat, 12);
        }
        let q = n / d;
        let r = n % d;
        let up: u64 = if 2 * r > d || (2 * r == d && q % 2 == 1) {
            1
        } else {
            0
        };
        proof {
            assert(p == HIDDEN_BIT * d);
            lemma_floor(n as nat, d as nat);
            assert(q < 2 * HIDDEN_BIT) by (nonlinear_arith)
                requires
                    n < 2 * p,
                    p == HIDDEN_BIT * d,
                    n == d * q + r,
                    r >= 0,
                    d > 0,
            ;
        }
        let bits = (l + 1022) * HIDDEN_BIT + q + up;
        proof {
            assert((1 as nat) * pow2(e as nat) == d);
            assert(p == HIDDEN_BIT * d);
            assert(n < d * pow2(53)) by (nonlinear_arith)
                requires
                    n < 2 * p,
                    p == HIDDEN_BIT * d,
                    pow2(53) == 2 * HIDDEN_BIT,
            ;
            assert(n >= d * pow2(52)) by (nonlinear_arith)
                requires
                    n >= p,
                    p == HIDDEN_BIT * d,
                    pow2(52) == HIDDEN_BIT,
            ;
            assert(fits(n as nat, 1, e));
            lemma_fits_exists(n as nat, 1);
            lemma_fits_unique(n as nat, 1, e, binary_exponent(n as nat, 1));
            lemma_floor(n as nat, d as nat);
            assert(q < 2 * HIDDEN_BIT) by (nonlinear_arith)
                requires
                    n < d * pow2(53),
                    pow2(53) == 2 * HIDDEN_BIT,
                    n == d * q + r,
                    r >= 0,
                    d > 0,
            ;
            assert(bits == (e + 1074) * pow2(52) + q + up);
            assert(assemble(n as nat, d as nat, e) == bits);
        }
        bits
    }
}

} // verus!
