//! The text of a number: the shortest decimal that denotes it.
//!
//! A finite number has an exact decimal value. Its text has the least
//! number of significant digits, from 1 to 17, at which a decimal denotes
//! the same number: the exact value rounded to that many digits or, where
//! that decimal denotes another number, its other neighbour of as many
//! digits. It is written without an exponent, as Rust writes a float.

use crate::convert::round_decimal;
use crate::decimal::{
    all_digits, digits_nat, digits_of, half_compare, half_sign, lemma_digits_above,
    lemma_digits_below, lemma_digits_split, lemma_pow10_adds, lemma_pow10_grows,
    lemma_pow10_positive, lemma_pow10_values, pow10, shifted, times_small, whole_part,
};
use crate::number::{
    is_nan, is_negative, lemma_floor, lemma_floor_le, magnitude, nearest_bits, HIDDEN_BIT,
    INFINITY_BITS, SIGN_BIT,
};
use crate::text::{decimal_digits, push_decimal, push_str};
use vstd::arithmetic::power2::{lemma2_to64, lemma2_to64_rest, lemma_pow2_unfold, pow2};
use vstd::prelude::*;

verus! {

/// Five to the power `n`.
pub open spec fn pow5(n: nat) -> nat
    decreases n,
{
    if n == 0 {
        1
    } else {
        5 * pow5((n - 1) as nat)
    }
}

/// The number of decimal digits of a natural; zero has none.
pub open spec fn digit_count(n: nat) -> nat
    decreases n,
{
    if n == 0 {
        0
    } else {
        1 + digit_count(n / 10)
    }
}

/// The significand of a finite magnitude.
pub open spec fn significand(mag: u64) -> nat {
    if mag / HIDDEN_BIT == 0 {
        (mag % HIDDEN_BIT) as nat
    } else {
        (mag % HIDDEN_BIT + HIDDEN_BIT) as nat
    }
}

/// The power of two of a finite magnitude.
pub open spec fn exponent(mag: u64) -> int {
    if mag / HIDDEN_BIT == 0 {
        -1074
    } else {
        mag / HIDDEN_BIT - 1075
    }
}

/// The exact value of a finite magnitude, as a natural over a power of
/// ten: the natural, and the power.
pub open spec fn exact_decimal(mag: u64) -> (nat, nat) {
    let e = exponent(mag);
    if e >= 0 {
        (significand(mag) * pow2(e as nat), 0)
    } else {
        (significand(mag) * pow5((-e) as nat), (-e) as nat)
    }
}

/// A natural rounded to `p` significant digits, ties upwards: the digits
/// that are kept, and the number of digits that are dropped.
pub open spec fn rounded_to(x: nat, p: nat) -> (nat, nat) {
    let len = digit_count(x);
    if len <= p {
        (x, 0)
    } else {
        let drop = (len - p) as nat;
        let q = x / pow10(drop);
        let up: nat = if half_sign(x, drop) >= 0 {
            1
        } else {
            0
        };
        (q + up, drop)
    }
}

/// The other neighbour of a natural among the decimals of `p` significant
/// digits: the one that [`rounded_to`] does not give.
pub open spec fn other_rounded(x: nat, p: nat) -> (nat, nat) {
    let len = digit_count(x);
    if len <= p {
        (x, 0)
    } else {
        let drop = (len - p) as nat;
        let q = x / pow10(drop);
        let up: nat = if half_sign(x, drop) >= 0 {
            0
        } else {
            1
        };
        (q + up, drop)
    }
}

/// The bits of the number nearest to `y` times ten to the `drop`, over
/// ten to the `k`.
pub open spec fn candidate_bits(y: nat, drop: nat, k: nat) -> u64 {
    if drop >= k {
        nearest_bits(y * pow10((drop - k) as nat), 1)
    } else {
        nearest_bits(y, pow10((k - drop) as nat))
    }
}

/// The decimal of `p` significant digits that denotes the number of
/// magnitude `mag`, whose exact value is `x` over ten to the `k`: the
/// value rounded to `p` digits, or else its other neighbour; none where
/// neither denotes the number.
pub open spec fn denoting_at(mag: u64, x: nat, k: nat, p: nat) -> Option<(nat, nat)> {
    let (y, drop) = rounded_to(x, p);
    let (z, _) = other_rounded(x, p);
    if candidate_bits(y, drop, k) == mag {
        Some((y, drop))
    } else if candidate_bits(z, drop, k) == mag {
        Some((z, drop))
    } else {
        None
    }
}

/// The decimal of the least number of significant digits, from `p` on,
/// that denotes the number of magnitude `mag`; with 17 digits it is the
/// exact value rounded.
pub open spec fn shortest_decimal(mag: u64, x: nat, k: nat, p: nat) -> (nat, nat)
    decreases 17 - p,
{
    if p >= 17 {
        rounded_to(x, 17)
    } else {
        match denoting_at(mag, x, k, p) {
            Some(found) => found,
            None => shortest_decimal(mag, x, k, p + 1),
        }
    }
}

/// A run of zeros.
pub open spec fn zeros(n: nat) -> Seq<char> {
    Seq::new(n, |i: int| '0')
}

/// The end of the text once trailing zeros are dropped.
pub open spec fn zeros_end(s: Seq<char>, to: int) -> int
    decreases to,
{
    if 0 < to <= s.len() && s[to - 1] == '0' {
        zeros_end(s, to - 1)
    } else {
        to
    }
}

/// The numeral `ds` times ten to the `shift`, written without an
/// exponent: zeros are added behind it, or a point is set into it, with a
/// zero before the point if need be and without zeros at the end.
pub open spec fn fixed_text(ds: Seq<char>, shift: int) -> Seq<char> {
    if shift >= 0 {
        ds + zeros(shift as nat)
    } else {
        let f = -shift;
        let padded = if ds.len() > f {
            ds
        } else {
            zeros((f + 1 - ds.len()) as nat) + ds
        };
        let split = padded.len() - f;
        let end = zeros_end(padded, padded.len() as int);
        if end <= split {
            padded.subrange(0, split)
        } else {
            padded.subrange(0, split) + "."@ + padded.subrange(split, end)
        }
    }
}

/// The shortest decimal of a finite magnitude that is not zero: a
/// natural, and the power of ten that it is multiplied by.
pub open spec fn shortest_of(mag: u64) -> (nat, int) {
    let (x, k) = exact_decimal(mag);
    let (y, drop) = shortest_decimal(mag, x, k, 1);
    (y, drop - k)
}

/// The text of a magnitude that is a number.
pub open spec fn magnitude_text(mag: u64) -> Seq<char> {
    if mag == 0 {
        "0"@
    } else if mag == INFINITY_BITS {
        "inf"@
    } else {
        fixed_text(decimal_digits(shortest_of(mag).0), shortest_of(mag).1)
    }
}

/// The magnitude of ten to the sixteenth, from which on the debug form of
/// a number has an exponent.
pub const GREAT_BITS: u64 = 0x4341_C379_37E0_8000;

/// The magnitude of the number nearest to one ten-thousandth, below which
/// the debug form of a number has an exponent.
pub const SMALL_BITS: u64 = 0x3F1A_36E2_EB1C_432D;

/// A power of ten as it follows the `e` of a numeral.
pub open spec fn power_text(e: int) -> Seq<char> {
    if e < 0 {
        "-"@ + decimal_digits((-e) as nat)
    } else {
        decimal_digits(e as nat)
    }
}

/// The numeral `ds` times ten to the `shift`, written with an exponent:
/// the first digit, the other digits behind a point without zeros at the
/// end, and the power of ten of the first digit.
pub open spec fn exponent_text(ds: Seq<char>, shift: int) -> Seq<char> {
    let end = zeros_end(ds, ds.len() as int);
    let head = ds.subrange(0, 1);
    let mantissa = if end <= 1 {
        head
    } else {
        head + "."@ + ds.subrange(1, end)
    };
    mantissa + "e"@ + power_text(shift + ds.len() - 1)
}

/// The debug form of a magnitude that is a number: as its text, with
/// `.0` behind a whole number; from ten to the sixteenth on, and below
/// one ten-thousandth, with an exponent.
pub open spec fn debug_magnitude_text(mag: u64) -> Seq<char> {
    if mag == 0 {
        "0.0"@
    } else if mag == INFINITY_BITS {
        "inf"@
    } else if mag >= GREAT_BITS || mag < SMALL_BITS {
        exponent_text(decimal_digits(shortest_of(mag).0), shortest_of(mag).1)
    } else if crate::text::has_char(magnitude_text(mag), '.') {
        magnitude_text(mag)
    } else {
        magnitude_text(mag) + ".0"@
    }
}

/// The debug form of a number, as Rust writes a float with `{:?}`.
pub open spec fn debug_number_text(bits: u64) -> Seq<char> {
    if is_nan(bits) {
        "NaN"@
    } else if is_negative(bits) {
        "-"@ + debug_magnitude_text(magnitude(bits))
    } else {
        debug_magnitude_text(bits)
    }
}

/// The text of a number.
pub open spec fn number_text(bits: u64) -> Seq<char> {
    if is_nan(bits) {
        "NaN"@
    } else if is_negative(bits) {
        "-"@ + magnitude_text(magnitude(bits))
    } else {
        magnitude_text(bits)
    }
}

/// Normalised digits are as many as their natural has digits.
pub proof fn lemma_digit_count(d: Seq<u8>)
    requires
        all_digits(d),
        d.len() > 0 ==> d.last() > 0,
    ensures
        digit_count(digits_nat(d)) == d.len(),
    decreases d.len(),
{
    if d.len() == 0 {
    } else {
        lemma_digits_above(d);
        lemma_pow10_positive((d.len() - 1) as nat);
        lemma_digits_split(d, 1);
        lemma_pow10_values();
        let rest = d.subrange(1, d.len() as int);
        assert(all_digits(rest));
        if rest.len() > 0 {
            assert(rest.last() == d.last());
        }
        lemma_digit_count(rest);
    }
}

/// The digits of the exact decimal value of a finite magnitude that is
/// not zero, and the power of ten under them.
fn exact_digits(mag: u64) -> (r: (Vec<u8>, usize))
    requires
        0 < mag < INFINITY_BITS,
    ensures
        all_digits(r.0@),
        r.0@.len() > 0,
        r.0@.last() > 0,
        (digits_nat(r.0@), r.1 as nat) == exact_decimal(mag),
        r.1 <= 1074,
        r.0@.len() <= 2200,
{
    let field = mag / HIDDEN_BIT;
    let fraction = mag % HIDDEN_BIT;
    let sig: u64 = if field == 0 {
        fraction
    } else {
        fraction + HIDDEN_BIT
    };
    assert(sig > 0);
    assert(field < 2047);
    let mut digits = digits_of(sig);
    assert(digits@.len() > 0);
    proof {
        lemma_digits_above(digits@);
        if digits@.len() > 20 {
            lemma_pow10_grows(20, (digits@.len() - 1) as nat);
        }
        lemma_pow10_20();
    }
    if field >= 1075 {
        let e: u64 = field - 1075;
        let mut i: u64 = 0;
        proof {
            lemma2_to64();
            assert(sig * 1 == sig);
        }
        while i < e
            invariant
                i <= e <= 971,
                all_digits(digits@),
                digits@.len() > 0,
                digits@.last() > 0,
                digits_nat(digits@) == sig * pow2(i as nat),
                digits@.len() <= 20 + 2 * i,
            decreases e - i,
        {
            let ghost before = digits_nat(digits@);
            digits = times_small(&digits, 2);
            proof {
                lemma_pow2_unfold((i + 1) as nat);
                assert(2 * (sig * pow2(i as nat)) == sig * (2 * pow2(i as nat)))
                    by (nonlinear_arith);
            }
            i += 1;
        }
        (digits, 0)
    } else {
        let k: u64 = if field == 0 {
            1074
        } else {
            1075 - field
        };
        let mut i: u64 = 0;
        proof {
            assert(sig * 1 == sig);
        }
        while i < k
            invariant
                i <= k <= 1074,
                all_digits(digits@),
                digits@.len() > 0,
                digits@.last() > 0,
                digits_nat(digits@) == sig * pow5(i as nat),
                digits@.len() <= 20 + 2 * i,
            decreases k - i,
        {
            digits = times_small(&digits, 5);
            proof {
                assert(5 * (sig * pow5(i as nat)) == sig * (5 * pow5(i as nat)))
                    by (nonlinear_arith);
            }
            i += 1;
        }
        (digits, k as usize)
    }
}

/// Ten to the power twenty, written out.
proof fn lemma_pow10_20()
    ensures
        pow10(20) == 100_000_000_000_000_000_000,
{
    reveal_with_fuel(pow10, 21);
}

/// The digits that are kept when the natural is rounded to `p`
/// significant digits, and the number of digits that are dropped; with
/// `near` unset, those of its other neighbour.
fn round_digits(x: &Vec<u8>, p: usize, near: bool) -> (r: (u64, usize))
    requires
        all_digits(x@),
        x@.len() > 0,
        x@.last() > 0,
        1 <= p <= 17,
    ensures
        (r.0 as nat, r.1 as nat) == (if near {
            rounded_to(digits_nat(x@), p as nat)
        } else {
            other_rounded(digits_nat(x@), p as nat)
        }),
        r.0 > 0,
        r.0 <= 100_000_000_000_000_000,
        r.1 <= x@.len(),
{
    let len = x.len();
    proof {
        lemma_digit_count(x@);
        lemma_digits_above(x@);
        lemma_digits_below(x@);
        lemma_pow10_positive((len - 1) as nat);
        lemma_pow10_values();
    }
    if len <= p {
        proof {
            lemma_pow10_grows(len as nat, 17);
            assert(pow10(0) == 1);
            vstd::arithmetic::div_mod::lemma_div_basics_2(digits_nat(x@) as int);
        }
        match whole_part(x, 0) {
            Some(v) => (v, 0),
            None => {
                assert(false);
                (1, 0)
            },
        }
    } else {
        let drop: usize = len - p;
        let ghost xv = digits_nat(x@);
        let ghost d = pow10(drop as nat);
        proof {
            lemma_pow10_positive(drop as nat);
            lemma_pow10_adds(drop as nat, p as nat);
            lemma_pow10_adds(drop as nat, (p - 1) as nat);
            lemma_pow10_positive((p - 1) as nat);
            lemma_pow10_grows(p as nat, 17);
            lemma_floor(xv, d);
            lemma_floor_le(xv, d, pow10(p as nat));
            lemma_floor_le(xv, d, pow10((p - 1) as nat));
            assert(pow10((p - 1) as nat) * d == d * pow10((p - 1) as nat)) by (nonlinear_arith);
            assert(pow10(p as nat) * d == d * pow10(p as nat)) by (nonlinear_arith);
        }
        let q = match whole_part(x, drop) {
            Some(v) => v,
            None => {
                assert(false);
                1
            },
        };
        let up: u64 = if (half_compare(x, drop) >= 0) == near {
            1
        } else {
            0
        };
        (q + up, drop)
    }
}

/// The bits of the number nearest to `y` times ten to the `drop`, over
/// ten to the `k`.
fn candidate(y: u64, drop: usize, k: usize) -> (r: u64)
    requires
        y > 0,
        drop <= 4000,
        k <= 4000,
    ensures
        r == candidate_bits(y as nat, drop as nat, k as nat),
{
    let digits = digits_of(y);
    assert(digits@.len() > 0);
    proof {
        lemma_digits_above(digits@);
        if digits@.len() > 20 {
            lemma_pow10_grows(20, (digits@.len() - 1) as nat);
        }
        lemma_pow10_20();
        assert(pow10(0) == 1);
    }
    if drop >= k {
        let scaled = shifted(&digits, drop - k);
        round_decimal(scaled, 0)
    } else {
        round_decimal(digits, (k - drop) as u128)
    }
}

/// Appends the numeral times ten to the `shift`, written without an
/// exponent.
fn push_fixed(out: &mut Vec<char>, ds: &Vec<char>, shift_up: usize, shift_down: usize)
    requires
        shift_up == 0 || shift_down == 0,
        ds@.len() + shift_down + 1 <= usize::MAX,
    ensures
        final(out)@ == old(out)@ + fixed_text(ds@, shift_up as int - shift_down as int),
{
    if shift_down == 0 {
        let ghost start = out@;
        crate::text::push_chars(out, ds);
        let mut i: usize = 0;
        while i < shift_up
            invariant
                i <= shift_up,
                out@ == start + ds@ + zeros(i as nat),
            decreases shift_up - i,
        {
            out.push('0');
            assert(zeros((i + 1) as nat) =~= zeros(i as nat).push('0'));
            assert(out@ =~= start + ds@ + zeros((i + 1) as nat));
            i += 1;
        }
        assert(out@ =~= start + (ds@ + zeros(shift_up as nat)));
        return ;
    }
    let f = shift_down;
    let mut padded: Vec<char> = Vec::new();
    if ds.len() <= f {
        let fill = f + 1 - ds.len();
        let mut i: usize = 0;
        while i < fill
            invariant
                i <= fill,
                padded@ == zeros(i as nat),
            decreases fill - i,
        {
            padded.push('0');
            assert(zeros((i + 1) as nat) =~= zeros(i as nat).push('0'));
            i += 1;
        }
    }
    crate::text::push_chars(&mut padded, ds);
    let ghost spec_padded = if ds@.len() > f {
        ds@
    } else {
        zeros((f + 1 - ds@.len()) as nat) + ds@
    };
    assert(padded@ =~= spec_padded);
    let split = padded.len() - f;
    let mut end: usize = padded.len();
    while end > 0 && padded[end - 1] == '0'
        invariant
            end <= padded.len(),
            zeros_end(padded@, padded.len() as int) == zeros_end(padded@, end as int),
        decreases end,
    {
        end -= 1;
    }
    let ghost start = out@;
    let whole = crate::text::slice_of(&padded, 0, split);
    crate::text::push_chars(out, &whole);
    if end > split {
        out.push('.');
        let rest = crate::text::slice_of(&padded, split, end);
        crate::text::push_chars(out, &rest);
        proof {
            reveal_strlit(".");
            assert("."@ =~= seq!['.']);
            assert(out@ =~= start + (padded@.subrange(0, split as int) + "."@ + padded@.subrange(
                split as int,
                end as int,
            )));
        }
    } else {
        assert(out@ =~= start + padded@.subrange(0, split as int));
    }
}

/// The numeral of the shortest decimal of a finite magnitude that is not
/// zero, and the power of ten that it is multiplied by: up, or down.
fn shortest_numeral(mag: u64) -> (r: (Vec<char>, usize, usize))
    requires
        0 < mag < INFINITY_BITS,
    ensures
        r.0@ == decimal_digits(shortest_of(mag).0),
        r.1 as int - r.2 as int == shortest_of(mag).1,
        r.1 == 0 || r.2 == 0,
        1 <= r.0@.len() <= 20,
        r.1 <= 2200,
        r.2 <= 1074,
{
    let (x, k) = exact_digits(mag);
    let ghost xv = digits_nat(x@);
    let mut p: usize = 1;
    let mut found: Option<(u64, usize)> = None;
    while p < 17 && found.is_none()
        invariant
            1 <= p <= 17,
            all_digits(x@),
            x@.len() > 0,
            x@.last() > 0,
            x@.len() <= 2200,
            k <= 1074,
            xv == digits_nat(x@),
            shortest_decimal(mag, xv, k as nat, 1) == shortest_decimal(mag, xv, k as nat, p as nat),
            match found {
                Some((y, drop)) => p < 17 && denoting_at(mag, xv, k as nat, p as nat) == Some(
                    (y as nat, drop as nat),
                ) && 0 < y <= 100_000_000_000_000_000 && drop <= x@.len(),
                None => true,
            },
        decreases 17 - p, (if found is Some { 0int } else { 1int }),
    {
        let (y, drop) = round_digits(&x, p, true);
        if candidate(y, drop, k) == mag {
            found = Some((y, drop));
        } else {
            let (z, same) = round_digits(&x, p, false);
            if candidate(z, same, k) == mag {
                found = Some((z, same));
            } else {
                p += 1;
            }
        }
    }
    let (y, drop) = match found {
        Some(decimal) => decimal,
        None => round_digits(&x, 17, true),
    };
    let mut ds: Vec<char> = Vec::new();
    push_decimal(&mut ds, y);
    assert(ds@ =~= decimal_digits(y as nat));
    proof {
        lemma_pow10_20();
        lemma_numeral_len(y as nat, 20);
    }
    proof {
        lemma_numeral_some(y as nat);
    }
    if drop >= k {
        (ds, drop - k, 0)
    } else {
        (ds, 0, k - drop)
    }
}

/// Appends the text of a magnitude that is a number.
fn push_magnitude(out: &mut Vec<char>, mag: u64)
    requires
        mag <= INFINITY_BITS,
    ensures
        final(out)@ == old(out)@ + magnitude_text(mag),
{
    if mag == 0 {
        push_str(out, "0");
        return ;
    }
    if mag == INFINITY_BITS {
        push_str(out, "inf");
        return ;
    }
    let (ds, up, down) = shortest_numeral(mag);
    push_fixed(out, &ds, up, down);
}

/// Appends the numeral times ten to the `shift`, written with an
/// exponent.
fn push_exponent(out: &mut Vec<char>, ds: &Vec<char>, shift_up: usize, shift_down: usize)
    requires
        shift_up == 0 || shift_down == 0,
        1 <= ds@.len() <= 20,
        shift_up <= 2200,
        shift_down <= 1074,
    ensures
        final(out)@ == old(out)@ + exponent_text(ds@, shift_up as int - shift_down as int),
{
    let mut end: usize = ds.len();
    while end > 0 && ds[end - 1] == '0'
        invariant
            end <= ds.len(),
            zeros_end(ds@, ds.len() as int) == zeros_end(ds@, end as int),
        decreases end,
    {
        end -= 1;
    }
    let ghost start = out@;
    let head = crate::text::slice_of(ds, 0, 1);
    crate::text::push_chars(out, &head);
    if end > 1 {
        push_str(out, ".");
        let rest = crate::text::slice_of(ds, 1, end);
        crate::text::push_chars(out, &rest);
    }
    push_str(out, "e");
    let high: usize = shift_up + ds.len() - 1;
    if high >= shift_down {
        push_decimal(out, (high - shift_down) as u64);
    } else {
        push_str(out, "-");
        push_decimal(out, (shift_down - high) as u64);
    }
    assert(out@ =~= start + exponent_text(ds@, shift_up as int - shift_down as int));
}

/// Appends the debug form of a magnitude that is a number.
fn push_debug_magnitude(out: &mut Vec<char>, mag: u64)
    requires
        mag <= INFINITY_BITS,
    ensures
        final(out)@ == old(out)@ + debug_magnitude_text(mag),
{
    if mag == 0 {
        push_str(out, "0.0");
        return ;
    }
    if mag == INFINITY_BITS {
        push_str(out, "inf");
        return ;
    }
    let (ds, up, down) = shortest_numeral(mag);
    if mag >= GREAT_BITS || mag < SMALL_BITS {
        push_exponent(out, &ds, up, down);
    } else {
        let mut fixed: Vec<char> = Vec::new();
        push_fixed(&mut fixed, &ds, up, down);
        assert(fixed@ =~= magnitude_text(mag));
        let whole = crate::text::find_char(&fixed, '.', 0) >= fixed.len();
        let ghost start = out@;
        crate::text::push_chars(out, &fixed);
        if whole {
            push_str(out, ".0");
            assert(out@ =~= start + (magnitude_text(mag) + ".0"@));
        }
    }
}

/// A numeral has a digit.
pub proof fn lemma_numeral_some(n: nat)
    ensures
        decimal_digits(n).len() >= 1,
    decreases n,
{
    if n >= 10 {
        lemma_numeral_some(n / 10);
    }
}

/// The numeral of a natural below ten to the `k` has at most `k` digits.
pub proof fn lemma_numeral_len(n: nat, k: nat)
    requires
        n < pow10(k),
        k >= 1,
    ensures
        decimal_digits(n).len() <= k,
    decreases k,
{
    if n >= 10 {
        if k == 1 {
            assert(pow10(1) == 10 * pow10(0));
            assert(pow10(0) == 1);
        } else {
            lemma_numeral_len(n / 10, (k - 1) as nat);
        }
    }
}

/// Appends the text of a number.
pub fn push_number(out: &mut Vec<char>, bits: u64)
    ensures
        final(out)@ == old(out)@ + number_text(bits),
{
    let negative = bits >= SIGN_BIT;
    let mag = if negative {
        bits - SIGN_BIT
    } else {
        bits
    };
    if mag > INFINITY_BITS {
        push_str(out, "NaN");
        return ;
    }
    if negative {
        let ghost start = out@;
        push_str(out, "-");
        push_magnitude(out, mag);
        assert(out@ =~= start + ("-"@ + magnitude_text(mag)));
    } else {
        push_magnitude(out, mag);
    }
}

/// Appends the debug form of a number.
pub fn push_debug_number(out: &mut Vec<char>, bits: u64)
    ensures
        final(out)@ == old(out)@ + debug_number_text(bits),
{
    let negative = bits >= SIGN_BIT;
    let mag = if negative {
        bits - SIGN_BIT
    } else {
        bits
    };
    if mag > INFINITY_BITS {
        push_str(out, "NaN");
        return ;
    }
    if negative {
        let ghost start = out@;
        push_str(out, "-");
        push_debug_magnitude(out, mag);
        assert(out@ =~= start + ("-"@ + debug_magnitude_text(mag)));
    } else {
        push_debug_magnitude(out, mag);
    }
}

} // verus!
