//! From decimal digits to binary64 numbers, correctly rounded.

use crate::decimal::{
    all_digits, digits_nat, half_compare, half_sign, lemma_digits_above, lemma_digits_below,
    lemma_pow10_grows, lemma_pow10_positive, pow10, times_small, whole_part,
};
use crate::grammar::{digit_value, digits_value, is_digit};
use crate::number::{
    assemble, binary_exponent, fits, lemma_fits_above, lemma_fits_exists, lemma_fits_unique,
    lemma_floor, lemma_floor_le, lemma_same_ratio, lemma_scaled_down, lemma_scaled_positive,
    nearest_bits, scaled_den, scaled_num, HIDDEN_BIT, INFINITY_BITS,
};
use vstd::arithmetic::power2::{lemma2_to64, lemma2_to64_rest, lemma_pow2_pos, pow2};
use vstd::prelude::*;

verus! {

/// The greatest number of decimal places that the conversion takes.
pub const MAX_PLACES: u128 = 0x1_0000_0000_0000_0000_0000_0000;

/// The whole part of the quotient of the natural by ten to the `k`, if it
/// has at most eighteen digits.
fn whole_at(d: &Vec<u8>, k: u128) -> (r: Option<u64>)
    requires
        all_digits(d@),
        d@.len() > 0 ==> d@.last() > 0,
    ensures
        match r {
            Some(v) => v == digits_nat(d@) / pow10(k as nat) && v < 1_000_000_000_000_000_000,
            None => digits_nat(d@) / pow10(k as nat) >= 1_000_000_000_000_000_000,
        },
{
    if k > d.len() as u128 {
        proof {
            lemma_digits_below(d@);
            lemma_pow10_grows(d@.len(), k as nat);
            lemma_pow10_positive(k as nat);
            vstd::arithmetic::div_mod::lemma_basic_div(digits_nat(d@) as int, pow10(k as nat) as int);
        }
        Some(0)
    } else {
        whole_part(d, k as usize)
    }
}

/// How twice the remainder of the natural by ten to the `k` compares with
/// ten to the `k`.
fn half_at(d: &Vec<u8>, k: u128) -> (r: i8)
    requires
        all_digits(d@),
    ensures
        r == half_sign(digits_nat(d@), k as nat),
{
    if k > d.len() as u128 {
        proof {
            let p = pow10((k - 1) as nat);
            lemma_digits_below(d@);
            lemma_pow10_grows(d@.len(), (k - 1) as nat);
            lemma_pow10_positive((k - 1) as nat);
            assert(pow10(k as nat) == 10 * p);
            vstd::arithmetic::div_mod::lemma_small_mod(digits_nat(d@), pow10(k as nat));
        }
        -1
    } else {
        half_compare(d, k as usize)
    }
}

/// Whether the digits, over ten to the `places`, are the quotient `a / b`
/// divided by two to the `s`.
pub open spec fn tracks(a: nat, b: nat, s: int, digits: Seq<u8>, places: nat) -> bool {
    scaled_num(a, s) * pow10(places) == digits_nat(digits) * scaled_den(b, s)
}

/// One exponent up, five times the digits over ten times the power of ten
/// is the same quotient.
proof fn lemma_tracks_up(a: nat, b: nat, s: int, x: nat, p: nat, x5: nat)
    requires
        scaled_num(a, s) * p == x * scaled_den(b, s),
        x5 == 5 * x,
    ensures
        scaled_num(a, s + 1) * (10 * p) == x5 * scaled_den(b, s + 1),
{
    lemma_scaled_down(a, b, s + 1);
    let n = scaled_num(a, s);
    let d = scaled_den(b, s);
    let n1 = scaled_num(a, s + 1);
    let d1 = scaled_den(b, s + 1);
    assert(n1 * (10 * p) == x5 * d1) by (nonlinear_arith)
        requires
            n * p == x * d,
            x5 == 5 * x,
            (n == 2 * n1 && d == d1) || (n == n1 && d1 == 2 * d),
    ;
}

/// One exponent down, twice the digits over the same power of ten is the
/// same quotient.
proof fn lemma_tracks_down(a: nat, b: nat, s: int, x: nat, p: nat, x2: nat)
    requires
        scaled_num(a, s) * p == x * scaled_den(b, s),
        x2 == 2 * x,
    ensures
        scaled_num(a, s - 1) * p == x2 * scaled_den(b, s - 1),
{
    lemma_scaled_down(a, b, s);
    let n = scaled_num(a, s);
    let d = scaled_den(b, s);
    let n1 = scaled_num(a, s - 1);
    let d1 = scaled_den(b, s - 1);
    assert(n1 * p == x2 * d1) by (nonlinear_arith)
        requires
            n * p == x * d,
            x2 == 2 * x,
            (n1 == 2 * n && d1 == d) || (n1 == n && d == 2 * d1),
    ;
}

/// The bits of the number nearest to the natural of the digits over ten
/// to the `k`.
pub fn round_decimal(x: Vec<u8>, k: u128) -> (r: u64)
    requires
        all_digits(x@),
        x@.len() > 0,
        x@.last() > 0,
        k <= MAX_PLACES,
    ensures
        r == nearest_bits(digits_nat(x@), pow10(k as nat)),
{
    let ghost a = digits_nat(x@);
    let ghost b = pow10(k as nat);
    proof {
        lemma_digits_above(x@);
        lemma_pow10_positive((x@.len() - 1) as nat);
        lemma_pow10_positive(k as nat);
        lemma2_to64();
        lemma2_to64_rest();
        assert(scaled_num(a, 0) == a);
        assert(scaled_den(b, 0) == b) by {
            assert(b * 1 == b);
        }
        assert(a * b == a * b);
    }
    let mut digits = x;
    let mut places: u128 = k;
    let mut s: i64 = 0;
    let mut whole = whole_at(&digits, places);
    let mut too_big = match whole {
        None => true,
        Some(v) => v >= 0x20_0000_0000_0000,
    };
    while too_big
        invariant
            a > 0,
            b > 0,
            a == digits_nat(x@),
            b == pow10(k as nat),
            all_digits(digits@),
            digits@.len() > 0,
            digits@.last() > 0,
            0 <= s <= 2000,
            places == k + s,
            k <= MAX_PLACES,
            tracks(a, b, s as int, digits@, places as nat),
            match whole {
                Some(v) => v == digits_nat(digits@) / pow10(places as nat),
                None => digits_nat(digits@) / pow10(places as nat) >= 1_000_000_000_000_000_000,
            },
            too_big == (match whole {
                None => true,
                Some(v) => v >= 0x20_0000_0000_0000,
            }),
        decreases 2000 - s,
    {
        if s >= 2000 {
            proof {
                let n = scaled_num(a, s as int);
                let d = scaled_den(b, s as int);
                let xv = digits_nat(digits@);
                let p = pow10(places as nat);
                lemma_pow10_positive(places as nat);
                lemma_scaled_positive(a, b, s as int);
                lemma_same_ratio(n, d, xv, p);
                lemma2_to64();
                lemma2_to64_rest();
                lemma_floor_le(n, d, pow2(53));
                assert(pow2(53) * d == d * pow2(53)) by (nonlinear_arith);
                lemma_fits_exists(a, b);
                let e = binary_exponent(a, b);
                lemma_fits_above(a, b, s as int, e);
                assert((e + 1074) * pow2(52) >= 2047 * pow2(52)) by (nonlinear_arith)
                    requires
                        e >= 973,
                        pow2(52) > 0,
                ;
            }
            return INFINITY_BITS;
        }
        let ghost before = digits_nat(digits@);
        let ghost p = pow10(places as nat);
        digits = times_small(&digits, 5);
        places += 1;
        proof {
            lemma_tracks_up(a, b, s as int, before, p, digits_nat(digits@));
            assert(pow10(places as nat) == 10 * p);
        }
        s += 1;
        whole = whole_at(&digits, places);
        too_big = match whole {
            None => true,
            Some(v) => v >= 0x20_0000_0000_0000,
        };
    }
    let mut v: u64 = whole.unwrap();
    while v < 0x10_0000_0000_0000 && s > -1074
        invariant
            a > 0,
            b > 0,
            all_digits(digits@),
            digits@.len() > 0,
            digits@.last() > 0,
            -1074 <= s <= 2000,
            tracks(a, b, s as int, digits@, places as nat),
            v == digits_nat(digits@) / pow10(places as nat),
            v < 0x20_0000_0000_0000,
        decreases s + 1074,
    {
        let ghost before = digits_nat(digits@);
        let ghost p = pow10(places as nat);
        digits = times_small(&digits, 2);
        proof {
            lemma_tracks_down(a, b, s as int, before, p, digits_nat(digits@));
            lemma_pow10_positive(places as nat);
            lemma_floor(before, p);
            let twice = digits_nat(digits@);
            assert(twice < (2 * v + 2) * p) by (nonlinear_arith)
                requires
                    twice == 2 * before,
                    before == p * v + before % p,
                    before % p < p,
            ;
            lemma_floor_le(twice, p, (2 * v + 2) as nat);
        }
        s -= 1;
        match whole_at(&digits, places) {
            Some(next) => {
                v = next;
            },
            None => {
                assert(false);
            },
        }
    }
    let sign = half_at(&digits, places);
    let up: u64 = if sign > 0 || (sign == 0 && v % 2 == 1) {
        1
    } else {
        0
    };
    proof {
        let n = scaled_num(a, s as int);
        let d = scaled_den(b, s as int);
        let xv = digits_nat(digits@);
        let p = pow10(places as nat);
        lemma_pow10_positive(places as nat);
        lemma_scaled_positive(a, b, s as int);
        lemma_same_ratio(n, d, xv, p);
        lemma2_to64();
        lemma2_to64_rest();
        lemma_floor_le(n, d, pow2(53));
        lemma_floor_le(n, d, pow2(52));
        assert(pow2(53) * d == d * pow2(53)) by (nonlinear_arith);
        assert(pow2(52) * d == d * pow2(52)) by (nonlinear_arith);
        assert(fits(a, b, s as int));
        lemma_fits_exists(a, b);
        lemma_fits_unique(a, b, s as int, binary_exponent(a, b));
        assert(nearest_bits(a, b) == assemble(n, d, s as int));
        assert((s + 1074) * pow2(52) >= 2047 * pow2(52) <==> s + 1074 >= 2047) by (nonlinear_arith)
            requires
                pow2(52) > 0,
        ;
        assert(s + 1074 <= 2046 ==> (s + 1074) * pow2(52) <= 2046 * pow2(52)) by (nonlinear_arith)
            requires
                pow2(52) > 0,
        ;
    }
    if s + 1074 >= 2047 {
        return INFINITY_BITS;
    }
    let bits = ((s + 1074) as u64) * HIDDEN_BIT + v + up;
    if bits >= INFINITY_BITS {
        INFINITY_BITS
    } else {
        bits
    }
}

/// The value of a decimal literal as a quotient of two naturals: the
/// digits before and after the point, times ten to the exponent that is
/// written less the number of digits after the point.
pub open spec fn decimal_value(
    int_digits: Seq<char>,
    frac_digits: Seq<char>,
    exp_negative: bool,
    exp_digits: Seq<char>,
) -> (nat, nat) {
    let n = digits_value(int_digits + frac_digits, 10);
    let x = digits_value(exp_digits, 10) as int;
    let e: int = (if exp_negative {
        -x
    } else {
        x
    }) - frac_digits.len();
    if e >= 0 {
        (n * pow10(e as nat), 1)
    } else {
        (n, pow10((-e) as nat))
    }
}

/// The bits of the number nearest to the value of a decimal literal.
pub open spec fn decimal_bits(
    int_digits: Seq<char>,
    frac_digits: Seq<char>,
    exp_negative: bool,
    exp_digits: Seq<char>,
) -> u64 {
    let (a, b) = decimal_value(int_digits, frac_digits, exp_negative, exp_digits);
    nearest_bits(a, b)
}

/// The first of a run of digits weighs ten to the number of the others.
pub proof fn lemma_digits_value_front(s: Seq<char>)
    requires
        s.len() > 0,
    ensures
        digits_value(s, 10) == digit_value(s[0]) * pow10((s.len() - 1) as nat) + digits_value(
            s.subrange(1, s.len() as int),
            10,
        ),
    decreases s.len(),
{
    let rest = s.subrange(1, s.len() as int);
    if s.len() == 1 {
        assert(s.drop_last() =~= Seq::<char>::empty());
        assert(rest =~= Seq::<char>::empty());
        assert(digits_value(s.drop_last(), 10) == 0);
        assert(pow10(0) == 1);
        assert(digit_value(s[0]) * 1 == digit_value(s[0]));
    } else {
        let shorter = s.drop_last();
        lemma_digits_value_front(shorter);
        let mid = shorter.subrange(1, shorter.len() as int);
        assert(rest.drop_last() =~= mid);
        assert(rest.last() == s.last());
        assert(shorter[0] == s[0]);
        let x = digit_value(s[0]);
        let p = pow10((s.len() - 2) as nat);
        assert(pow10((s.len() - 1) as nat) == 10 * p);
        assert((x * p + digits_value(mid, 10)) * 10 == x * (10 * p) + digits_value(mid, 10) * 10)
            by (nonlinear_arith);
    }
}

/// The digits of a run of decimal digit characters, the least significant
/// first.
pub fn digits_from_chars(chars: &Vec<char>) -> (r: Vec<u8>)
    requires
        forall|i: int| 0 <= i < chars@.len() ==> is_digit(#[trigger] chars@[i]),
    ensures
        all_digits(r@),
        digits_nat(r@) == digits_value(chars@, 10),
        r@.len() == chars@.len(),
{
    let mut out: Vec<u8> = Vec::new();
    let n = chars.len();
    let mut i: usize = n;
    assert(chars@.subrange(n as int, n as int) =~= Seq::<char>::empty());
    while i > 0
        invariant
            i <= n,
            n == chars.len(),
            forall|j: int| 0 <= j < chars@.len() ==> is_digit(#[trigger] chars@[j]),
            all_digits(out@),
            out@.len() == n - i,
            digits_nat(out@) == digits_value(chars@.subrange(i as int, n as int), 10),
        decreases i,
    {
        i -= 1;
        let c = chars[i];
        assert(is_digit(chars@[i as int]));
        let digit = (c as u32 - '0' as u32) as u8;
        let ghost before = out@;
        let ghost piece = chars@.subrange(i as int, n as int);
        proof {
            lemma_digits_value_front(piece);
            assert(piece.subrange(1, piece.len() as int) =~= chars@.subrange(
                i as int + 1,
                n as int,
            ));
            assert(piece[0] == c);
            assert(digit_value(c) == digit);
        }
        out.push(digit);
        assert(out@.drop_last() =~= before);
    }
    assert(chars@.subrange(0, n as int) =~= chars@);
    out
}

/// The greatest exponent that is read in full; a greater one is as good
/// as endless.
pub const EXPONENT_LIMIT: u128 = 1_000_000_000_000_000_000_000_000_000;

/// The exponent that the digits denote, if it is at most the limit.
pub fn exponent_of(chars: &Vec<char>) -> (r: Option<u128>)
    requires
        forall|i: int| 0 <= i < chars@.len() ==> is_digit(#[trigger] chars@[i]),
    ensures
        match r {
            Some(v) => v == digits_value(chars@, 10) && v <= EXPONENT_LIMIT,
            None => digits_value(chars@, 10) > EXPONENT_LIMIT,
        },
{
    let mut value: u128 = 0;
    let mut i: usize = 0;
    assert(chars@.subrange(0, 0) =~= Seq::<char>::empty());
    while i < chars.len()
        invariant
            i <= chars.len(),
            forall|j: int| 0 <= j < chars@.len() ==> is_digit(#[trigger] chars@[j]),
            value == digits_value(chars@.subrange(0, i as int), 10),
            value <= EXPONENT_LIMIT,
        decreases chars.len() - i,
    {
        let c = chars[i];
        assert(is_digit(chars@[i as int]));
        let digit = (c as u32 - '0' as u32) as u128;
        let ghost longer = chars@.subrange(0, i as int + 1);
        assert(longer.drop_last() =~= chars@.subrange(0, i as int));
        assert(longer.last() == c);
        assert(digit_value(c) == digit);
        let next = value * 10 + digit;
        if next > EXPONENT_LIMIT {
            proof {
                crate::parser::lemma_digits_value_grows(
                    chars@,
                    0,
                    i as int + 1,
                    chars@.len() as int,
                    10,
                );
                assert(chars@.subrange(0, chars@.len() as int) =~= chars@);
            }
            return None;
        }
        value = next;
        i += 1;
    }
    assert(chars@.subrange(0, chars@.len() as int) =~= chars@);
    Some(value)
}

/// A natural with `d` digits, times ten to the `e`, over ten to the `k`,
/// is at least two to the 1025 when it has 343 digits more before the
/// point than `k`.
proof fn lemma_many_digits(n: nat, d: nat, e: nat, k: nat)
    requires
        d >= 1,
        n >= pow10((d - 1) as nat),
        d + e >= k + 343,
    ensures
        n * pow10(e) >= pow10(k) * pow2(1025),
{
    let extra = (d - 1 + e - k) as nat;
    crate::decimal::lemma_pow10_adds((d - 1) as nat, e);
    crate::decimal::lemma_pow10_adds(k, extra);
    crate::decimal::lemma_pow10_above_pow2(extra);
    lemma_pow10_positive(e);
    lemma_pow10_positive(k);
    if 3 * extra > 1025 {
        vstd::arithmetic::power2::lemma_pow2_strictly_increases(1025, 3 * extra);
    }
    assert(n * pow10(e) >= pow10((d - 1) as nat) * pow10(e)) by (nonlinear_arith)
        requires
            n >= pow10((d - 1) as nat),
            pow10(e) > 0,
    ;
    assert(pow10(k) * pow10(extra) >= pow10(k) * pow2(1025)) by (nonlinear_arith)
        requires
            pow10(extra) >= pow2(1025),
            pow10(k) > 0,
    ;
}

/// A natural with `d` digits, over ten to the `k`, is at most two to the
/// -1075 when `k` exceeds `d` by 359.
proof fn lemma_few_digits(n: nat, d: nat, k: nat)
    requires
        n < pow10(d),
        k >= d + 359,
    ensures
        n * pow2(1075) <= pow10(k),
{
    let extra = (k - d) as nat;
    crate::decimal::lemma_pow10_adds(d, extra);
    crate::decimal::lemma_pow10_above_pow2(extra);
    lemma_pow10_positive(d);
    lemma_pow2_pos(1075);
    if 3 * extra > 1075 {
        vstd::arithmetic::power2::lemma_pow2_strictly_increases(1075, 3 * extra);
    }
    assert(n * pow2(1075) <= pow10(d) * pow10(extra)) by (nonlinear_arith)
        requires
            n < pow10(d),
            pow10(extra) >= pow2(1075),
            pow2(1075) > 0,
    ;
}

/// The bits of the number nearest to the value of a decimal literal:
/// its digits before and after the point, and its exponent.
pub fn parse_decimal(
    int_digits: &Vec<char>,
    frac_digits: &Vec<char>,
    exp_negative: bool,
    exp_digits: &Vec<char>,
) -> (r: u64)
    requires
        forall|i: int| 0 <= i < int_digits@.len() ==> is_digit(#[trigger] int_digits@[i]),
        forall|i: int| 0 <= i < frac_digits@.len() ==> is_digit(#[trigger] frac_digits@[i]),
        forall|i: int| 0 <= i < exp_digits@.len() ==> is_digit(#[trigger] exp_digits@[i]),
    ensures
        r == decimal_bits(int_digits@, frac_digits@, exp_negative, exp_digits@),
{
    let mut all: Vec<char> = Vec::new();
    crate::text::push_chars(&mut all, int_digits);
    crate::text::push_chars(&mut all, frac_digits);
    assert(all@ =~= int_digits@ + frac_digits@);
    let mut digits = digits_from_chars(&all);
    crate::decimal::normalise(&mut digits);
    let ghost n = digits_value(int_digits@ + frac_digits@, 10);
    let ghost x = digits_value(exp_digits@, 10) as int;
    let ghost e: int = (if exp_negative {
        -x
    } else {
        x
    }) - frac_digits@.len();
    let ghost (a, b) = decimal_value(int_digits@, frac_digits@, exp_negative, exp_digits@);
    if digits.len() == 0 {
        proof {
            assert(n == 0);
            assert(0 * pow10(e as nat) == 0);
        }
        return 0;
    }
    let count: u128 = digits.len() as u128;
    let places: u128 = frac_digits.len() as u128;
    proof {
        lemma_digits_above(digits@);
        lemma_digits_below(digits@);
        lemma_pow10_positive((count - 1) as nat);
        lemma_pow10_positive((-e) as nat);
        assert(pow10(0) == 1);
    }
    let written = exponent_of(exp_digits);
    match written {
        None => {
            if exp_negative {
                proof {
                    lemma_few_digits(n, count as nat, (-e) as nat);
                    crate::number::lemma_tiny_is_zero(a, b);
                }
                0
            } else {
                proof {
                    lemma_many_digits(n, count as nat, e as nat, 0);
                    assert(1 * pow2(1025) == pow2(1025));
                    crate::number::lemma_huge_is_infinite(a, b);
                }
                INFINITY_BITS
            }
        },
        Some(v) => {
            if !exp_negative && v >= places {
                let shift: u128 = v - places;
                if count + shift >= 343 {
                    proof {
                        lemma_many_digits(n, count as nat, e as nat, 0);
                        assert(1 * pow2(1025) == pow2(1025));
                        crate::number::lemma_huge_is_infinite(a, b);
                    }
                    return INFINITY_BITS;
                }
                let scaled = crate::decimal::shifted(&digits, shift as usize);
                round_decimal(scaled, 0)
            } else {
                let k: u128 = if exp_negative {
                    places + v
                } else {
                    places - v
                };
                assert(k == -e);
                if k >= count + 359 {
                    proof {
                        lemma_few_digits(n, count as nat, k as nat);
                        crate::number::lemma_tiny_is_zero(a, b);
                    }
                    return 0;
                }
                if count >= k + 343 {
                    proof {
                        lemma_many_digits(n, count as nat, 0, k as nat);
                        assert(n * 1 == n);
                        crate::number::lemma_huge_is_infinite(a, b);
                    }
                    return INFINITY_BITS;
                }
                round_decimal(digits, k)
            }
        },
    }
}

} // verus!
