//! Naturals in decimal digits, of any size.
//!
//! A natural is a vector of its decimal digits, the least significant
//! first. This is what turning decimal text into binary numbers and back
//! needs: multiplying by a small number, and cutting at a power of ten.

use vstd::arithmetic::power2::pow2;
use vstd::prelude::*;

verus! {

/// Ten to the power `n`.
pub open spec fn pow10(n: nat) -> nat
    decreases n,
{
    if n == 0 {
        1
    } else {
        10 * pow10((n - 1) as nat)
    }
}

/// Whether every item is a decimal digit.
pub open spec fn all_digits(d: Seq<u8>) -> bool {
    forall|i: int| 0 <= i < d.len() ==> #[trigger] d[i] < 10
}

/// The natural that the digits denote, the least significant first.
pub open spec fn digits_nat(d: Seq<u8>) -> nat
    decreases d.len(),
{
    if d.len() == 0 {
        0
    } else {
        digits_nat(d.drop_last()) + d.last() as nat * pow10((d.len() - 1) as nat)
    }
}

/// A power of ten is positive.
pub proof fn lemma_pow10_positive(n: nat)
    ensures
        pow10(n) > 0,
    decreases n,
{
    if n > 0 {
        lemma_pow10_positive((n - 1) as nat);
    }
}

/// Powers of ten multiply as their exponents add.
pub proof fn lemma_pow10_adds(a: nat, b: nat)
    ensures
        pow10(a + b) == pow10(a) * pow10(b),
    decreases a,
{
    if a == 0 {
        assert(pow10(0 + b) == 1 * pow10(b));
    } else {
        lemma_pow10_adds((a - 1) as nat, b);
        assert(pow10(a + b) == 10 * pow10((a + b - 1) as nat));
        assert((a - 1) as nat + b == (a + b - 1) as nat);
        assert(10 * (pow10((a - 1) as nat) * pow10(b)) == (10 * pow10((a - 1) as nat)) * pow10(b))
            by (nonlinear_arith);
    }
}

/// Powers of ten grow with their exponent.
pub proof fn lemma_pow10_grows(a: nat, b: nat)
    requires
        a <= b,
    ensures
        pow10(a) <= pow10(b),
    decreases b - a,
{
    if a < b {
        lemma_pow10_grows(a, (b - 1) as nat);
        lemma_pow10_positive((b - 1) as nat);
    }
}

/// Ten to a power is at least two to three times that power.
pub proof fn lemma_pow10_above_pow2(n: nat)
    ensures
        pow10(n) >= pow2(3 * n),
    decreases n,
{
    if n == 0 {
        vstd::arithmetic::power2::lemma2_to64();
    } else {
        lemma_pow10_above_pow2((n - 1) as nat);
        vstd::arithmetic::power2::lemma_pow2_adds(3, (3 * (n - 1)) as nat);
        vstd::arithmetic::power2::lemma2_to64();
        assert(pow2(3 * n) == 8 * pow2((3 * (n - 1)) as nat));
    }
}

/// Digits denote a natural below ten to their number.
pub proof fn lemma_digits_below(d: Seq<u8>)
    requires
        all_digits(d),
    ensures
        digits_nat(d) < pow10(d.len()),
    decreases d.len(),
{
    if d.len() > 0 {
        lemma_digits_below(d.drop_last());
        let p = pow10((d.len() - 1) as nat);
        let top = d.last() as nat;
        assert(top * p <= 9 * p) by (nonlinear_arith)
            requires
                top <= 9,
                p >= 0,
        ;
    }
}

/// Digits whose most significant one is not zero denote at least ten to
/// their number less one.
pub proof fn lemma_digits_above(d: Seq<u8>)
    requires
        d.len() > 0,
        d.last() > 0,
    ensures
        digits_nat(d) >= pow10((d.len() - 1) as nat),
{
    let p = pow10((d.len() - 1) as nat);
    let top = d.last() as nat;
    assert(top * p >= p) by (nonlinear_arith)
        requires
            top >= 1,
            p >= 0,
    ;
}

/// The digits from position `k` on denote the whole part of the quotient
/// by ten to the `k`, and the digits below it the remainder.
pub proof fn lemma_digits_split(d: Seq<u8>, k: int)
    requires
        all_digits(d),
        0 <= k <= d.len(),
    ensures
        digits_nat(d) == digits_nat(d.subrange(0, k)) + pow10(k as nat) * digits_nat(
            d.subrange(k, d.len() as int),
        ),
        digits_nat(d) / pow10(k as nat) == digits_nat(d.subrange(k, d.len() as int)),
        digits_nat(d) % pow10(k as nat) == digits_nat(d.subrange(0, k)),
    decreases d.len(),
{
    let low = d.subrange(0, k);
    let high = d.subrange(k, d.len() as int);
    let p = pow10(k as nat);
    lemma_pow10_positive(k as nat);
    if k == d.len() {
        assert(low =~= d);
        assert(high =~= Seq::<u8>::empty());
        assert(p * 0 == 0);
    } else {
        let rest = d.drop_last();
        lemma_digits_split(rest, k);
        assert(rest.subrange(0, k) =~= low);
        assert(rest.subrange(k, rest.len() as int) =~= high.drop_last());
        assert(high.last() == d.last());
        let top = d.last() as nat;
        let h = (high.len() - 1) as nat;
        lemma_pow10_adds(k as nat, h);
        assert(k as nat + h == (d.len() - 1) as nat);
        let hv = digits_nat(high.drop_last());
        assert(p * (hv + top * pow10(h)) == p * hv + top * (p * pow10(h))) by (nonlinear_arith);
    }
    assert(all_digits(low));
    lemma_digits_below(low);
    let lv = digits_nat(low) as int;
    let hv = digits_nat(high) as int;
    assert(digits_nat(d) as int == hv * (p as int) + lv) by (nonlinear_arith)
        requires
            digits_nat(d) == digits_nat(low) + p * digits_nat(high),
            lv == digits_nat(low),
            hv == digits_nat(high),
    ;
    vstd::arithmetic::div_mod::lemma_fundamental_div_mod_converse(
        digits_nat(d) as int,
        p as int,
        hv,
        lv,
    );
}

/// The natural of a machine integer in digits.
pub fn digits_of(n: u64) -> (r: Vec<u8>)
    ensures
        all_digits(r@),
        digits_nat(r@) == n,
        r@.len() > 0 ==> r@.last() > 0,
{
    let mut out: Vec<u8> = Vec::new();
    let mut rest: u64 = n;
    assert(pow10(0) == 1);
    while rest > 0
        invariant
            all_digits(out@),
            digits_nat(out@) + rest * pow10(out@.len()) == n,
            out@.len() > 0 && rest == 0 ==> out@.last() > 0,
        decreases rest,
    {
        let digit = (rest % 10) as u8;
        let ghost before = out@;
        let ghost p = pow10(before.len());
        out.push(digit);
        assert(out@.drop_last() =~= before);
        assert((rest / 10) * (10 * p) + digit * p == rest * p) by (nonlinear_arith)
            requires
                digit == rest % 10,
        ;
        rest = rest / 10;
    }
    out
}

/// The digits of `c` times the natural.
pub fn times_small(d: &Vec<u8>, c: u8) -> (r: Vec<u8>)
    requires
        all_digits(d@),
        1 <= c <= 10,
    ensures
        all_digits(r@),
        digits_nat(r@) == c * digits_nat(d@),
        r@.len() >= d@.len(),
        r@.len() <= d@.len() + 2,
        d@.len() > 0 && d@.last() > 0 ==> r@.last() > 0,
{
    let mut out: Vec<u8> = Vec::new();
    let mut carry: u8 = 0;
    let mut i: usize = 0;
    assert(d@.subrange(0, 0) =~= Seq::<u8>::empty());
    assert(c * 0 == 0);
    assert(0 * pow10(0) == 0);
    while i < d.len()
        invariant
            i <= d.len(),
            all_digits(d@),
            all_digits(out@),
            1 <= c <= 10,
            out@.len() == i,
            carry < 10,
            digits_nat(out@) + carry * pow10(i as nat) == c * digits_nat(d@.subrange(0, i as int)),
            i > 0 && d@[i - 1] > 0 ==> carry > 0 || out@.last() > 0,
        decreases d.len() - i,
    {
        assert(d@[i as int] < 10);
        assert(c * d@[i as int] <= 90) by (nonlinear_arith)
            requires
                c <= 10,
                d@[i as int] <= 9,
        ;
        assert(d@[i as int] > 0 ==> c * d@[i as int] > 0) by (nonlinear_arith)
            requires
                c >= 1,
        ;
        let total: u8 = c * d[i] + carry;
        let digit = total % 10;
        let ghost before = out@;
        let ghost p = pow10(i as nat);
        let ghost prefix = d@.subrange(0, i as int);
        let ghost longer = d@.subrange(0, i as int + 1);
        assert(longer.drop_last() =~= prefix);
        assert(longer.last() == d@[i as int]);
        out.push(digit);
        assert(out@.drop_last() =~= before);
        let next = total / 10;
        assert(digits_nat(out@) + next * pow10((i + 1) as nat) == c * digits_nat(longer)) by {
            let dv = digits_nat(prefix);
            let x = d@[i as int] as nat;
            assert(pow10((i + 1) as nat) == 10 * p);
            assert(digit * p + next * (10 * p) == total * p) by (nonlinear_arith)
                requires
                    digit == total % 10,
                    next == total / 10,
            ;
            assert(c * (dv + x * p) == c * dv + (c * x) * p) by (nonlinear_arith);
            assert(total * p == (c * x) * p + carry * p) by (nonlinear_arith)
                requires
                    total == c * x + carry,
            ;
        }
        carry = next;
        i += 1;
    }
    assert(d@.subrange(0, d.len() as int) =~= d@);
    if carry > 0 {
        let ghost before = out@;
        out.push(carry);
        assert(out@.drop_last() =~= before);
    }
    out
}

/// The digits of the natural times ten to the `n`.
pub fn shifted(d: &Vec<u8>, n: usize) -> (r: Vec<u8>)
    requires
        all_digits(d@),
        d@.len() + n <= usize::MAX,
    ensures
        all_digits(r@),
        digits_nat(r@) == digits_nat(d@) * pow10(n as nat),
        r@.len() == d@.len() + n,
        d@.len() > 0 ==> r@.last() == d@.last(),
{
    let mut out: Vec<u8> = Vec::new();
    let mut i: usize = 0;
    while i < n
        invariant
            i <= n,
            out@.len() == i,
            all_digits(out@),
            digits_nat(out@) == 0,
        decreases n - i,
    {
        let ghost before = out@;
        out.push(0);
        assert(out@.drop_last() =~= before);
        assert(0 * pow10(i as nat) == 0);
        i += 1;
    }
    let mut j: usize = 0;
    assert(d@.subrange(0, 0) =~= Seq::<u8>::empty());
    assert(0 * pow10(n as nat) == 0);
    while j < d.len()
        invariant
            j <= d.len(),
            d@.len() + n <= usize::MAX,
            all_digits(d@),
            all_digits(out@),
            out@.len() == n + j,
            digits_nat(out@) == digits_nat(d@.subrange(0, j as int)) * pow10(n as nat),
            j > 0 ==> out@.last() == d@[j - 1],
        decreases d.len() - j,
    {
        let ghost before = out@;
        let ghost prefix = d@.subrange(0, j as int);
        let ghost longer = d@.subrange(0, j as int + 1);
        assert(longer.drop_last() =~= prefix);
        assert(longer.last() == d@[j as int]);
        out.push(d[j]);
        assert(out@.drop_last() =~= before);
        proof {
            let x = d@[j as int] as nat;
            let pn = pow10(n as nat);
            let pj = pow10(j as nat);
            lemma_pow10_adds(n as nat, j as nat);
            assert((digits_nat(prefix) + x * pj) * pn == digits_nat(prefix) * pn + x * (pn * pj))
                by (nonlinear_arith);
        }
        j += 1;
    }
    assert(d@.subrange(0, d.len() as int) =~= d@);
    out
}

/// Drops the zeros at the significant end of the digits.
pub fn normalise(d: &mut Vec<u8>)
    requires
        all_digits(old(d)@),
    ensures
        all_digits(final(d)@),
        digits_nat(final(d)@) == digits_nat(old(d)@),
        final(d)@.len() <= old(d)@.len(),
        final(d)@.len() > 0 ==> final(d)@.last() > 0,
{
    while d.len() > 0 && d[d.len() - 1] == 0
        invariant
            all_digits(d@),
            digits_nat(d@) == digits_nat(old(d)@),
            d@.len() <= old(d)@.len(),
        decreases d.len(),
    {
        let ghost before = d@;
        assert(0 * pow10((before.len() - 1) as nat) == 0);
        let _ = d.pop();
        assert(d@ =~= before.drop_last());
    }
}

/// The whole part of the quotient of the natural by ten to the `k`, if it
/// has at most eighteen digits.
pub fn whole_part(d: &Vec<u8>, k: usize) -> (r: Option<u64>)
    requires
        all_digits(d@),
        d@.len() > 0 ==> d@.last() > 0,
    ensures
        match r {
            Some(v) => v == digits_nat(d@) / pow10(k as nat) && v < 1_000_000_000_000_000_000,
            None => digits_nat(d@) / pow10(k as nat) >= 1_000_000_000_000_000_000,
        },
{
    proof {
        lemma_pow10_positive(k as nat);
    }
    if d.len() <= k {
        proof {
            lemma_digits_below(d@);
            lemma_pow10_grows(d@.len(), k as nat);
            vstd::arithmetic::div_mod::lemma_basic_div(digits_nat(d@) as int, pow10(k as nat) as int);
        }
        return Some(0);
    }
    let ghost high = d@.subrange(k as int, d@.len() as int);
    proof {
        lemma_digits_split(d@, k as int);
        assert(all_digits(high));
        assert(high.last() == d@.last());
        lemma_pow10_values();
    }
    if d.len() - k > 18 {
        proof {
            lemma_digits_above(high);
            lemma_pow10_grows(18, (high.len() - 1) as nat);
        }
        return None;
    }
    let mut value: u64 = 0;
    let mut i: usize = d.len();
    assert(d@.subrange(d@.len() as int, d@.len() as int) =~= Seq::<u8>::empty());
    while i > k
        invariant
            k <= i <= d.len(),
            d.len() - k <= 18,
            all_digits(d@),
            value == digits_nat(d@.subrange(i as int, d@.len() as int)),
            value < pow10((d.len() - i) as nat),
        decreases i,
    {
        i -= 1;
        let ghost piece = d@.subrange(i as int, d@.len() as int);
        proof {
            assert(all_digits(piece));
            lemma_digits_split(piece, 1);
            assert(piece.subrange(1, piece.len() as int) =~= d@.subrange(
                i as int + 1,
                d@.len() as int,
            ));
            assert(piece.subrange(0, 1) =~= seq![d@[i as int]]);
            lemma_single_digit(d@[i as int]);
            assert(pow10(1) == 10) by {
                assert(pow10(1) == 10 * pow10(0));
            }
            lemma_digits_below(piece);
            lemma_pow10_grows(piece.len(), 18);
            lemma_pow10_values();
            let tail = digits_nat(d@.subrange(i as int + 1, d@.len() as int));
            assert(pow10(1) * tail == tail * 10) by (nonlinear_arith)
                requires
                    pow10(1) == 10,
            ;
            assert(digits_nat(piece) == d@[i as int] as nat + tail * 10);
            assert(tail * 10 + d@[i as int] < pow10(18));
        }
        value = value * 10 + d[i] as u64;
    }
    proof {
        lemma_digits_split(d@, k as int);
        lemma_pow10_grows((d.len() - k) as nat, 18);
        lemma_pow10_values();
    }
    Some(value)
}

/// One digit denotes itself.
pub proof fn lemma_single_digit(x: u8)
    ensures
        digits_nat(seq![x]) == x,
{
    let one = seq![x];
    assert(one.len() == 1);
    assert(one.drop_last() =~= Seq::<u8>::empty());
    assert(digits_nat(one.drop_last()) == 0);
    assert(pow10(0) == 1);
    assert(one.last() == x);
    assert(x as nat * pow10(0) == x as nat) by (nonlinear_arith)
        requires
            pow10(0) == 1,
    ;
    assert(digits_nat(one) == digits_nat(one.drop_last()) + one.last() as nat * pow10(
        (one.len() - 1) as nat,
    ));
}

/// Whether the first `n` digits are all zero.
pub fn low_digits_zero(d: &Vec<u8>, n: usize) -> (r: bool)
    requires
        all_digits(d@),
        n <= d.len(),
    ensures
        r == (digits_nat(d@.subrange(0, n as int)) == 0),
{
    let mut i: usize = 0;
    assert(d@.subrange(0, 0) =~= Seq::<u8>::empty());
    while i < n
        invariant
            i <= n <= d.len(),
            all_digits(d@),
            digits_nat(d@.subrange(0, i as int)) == 0,
        decreases n - i,
    {
        let ghost longer = d@.subrange(0, i as int + 1);
        assert(longer.drop_last() =~= d@.subrange(0, i as int));
        assert(longer.last() == d@[i as int]);
        if d[i] != 0 {
            proof {
                let x = d@[i as int] as nat;
                let q = pow10(i as nat);
                lemma_pow10_positive(i as nat);
                assert(x * q > 0) by (nonlinear_arith)
                    requires
                        x > 0,
                        q > 0,
                ;
                let whole = d@.subrange(0, n as int);
                assert(all_digits(whole));
                lemma_digits_split(whole, i as int + 1);
                assert(whole.subrange(0, i as int + 1) =~= longer);
            }
            return false;
        }
        assert(0 * pow10(i as nat) == 0);
        i += 1;
    }
    true
}

/// The powers of ten that bound the machine integers used here.
pub proof fn lemma_pow10_values()
    ensures
        pow10(0) == 1,
        pow10(1) == 10,
        pow10(16) == 10_000_000_000_000_000,
        pow10(17) == 100_000_000_000_000_000,
        pow10(18) == 1_000_000_000_000_000_000,
{
    reveal_with_fuel(pow10, 19);
}

/// How twice the remainder of the natural by ten to the `k` compares with
/// ten to the `k`: below, equal or above.
pub open spec fn half_sign(n: nat, k: nat) -> int {
    let twice = 2 * (n % pow10(k));
    if twice < pow10(k) {
        -1
    } else if twice == pow10(k) {
        0
    } else {
        1
    }
}

/// Executable form of [`half_sign`].
pub fn half_compare(d: &Vec<u8>, k: usize) -> (r: i8)
    requires
        all_digits(d@),
    ensures
        r == half_sign(digits_nat(d@), k as nat),
{
    proof {
        lemma_pow10_positive(k as nat);
    }
    if k == 0 {
        assert(pow10(0) == 1);
        return -1;
    }
    let ghost p = pow10((k - 1) as nat);
    proof {
        lemma_pow10_positive((k - 1) as nat);
        assert(pow10(k as nat) == 10 * p);
    }
    if d.len() < k {
        proof {
            lemma_digits_below(d@);
            lemma_pow10_grows(d@.len(), (k - 1) as nat);
            vstd::arithmetic::div_mod::lemma_small_mod(digits_nat(d@), pow10(k as nat));
        }
        return -1;
    }
    let ghost low = d@.subrange(0, k as int);
    let ghost lower = d@.subrange(0, k as int - 1);
    proof {
        lemma_digits_split(d@, k as int);
        assert(low.drop_last() =~= lower);
        assert(low.last() == d@[k as int - 1]);
        assert(all_digits(lower));
        lemma_digits_below(lower);
    }
    let top = d[k - 1];
    let ghost rest = digits_nat(lower);
    assert(digits_nat(low) == rest + top * p);
    if top > 5 {
        assert(2 * (rest + top * p) > 10 * p) by (nonlinear_arith)
            requires
                top >= 6,
                p > 0,
                rest >= 0,
        ;
        return 1;
    }
    if top < 5 {
        assert(2 * (rest + top * p) < 10 * p) by (nonlinear_arith)
            requires
                top <= 4,
                p > 0,
                rest < p,
        ;
        return -1;
    }
    if low_digits_zero(d, k - 1) {
        assert(2 * (0 + 5 * p) == 10 * p) by (nonlinear_arith);
        0
    } else {
        assert(2 * (rest + 5 * p) > 10 * p) by (nonlinear_arith)
            requires
                rest > 0,
        ;
        1
    }
}

} // verus!
