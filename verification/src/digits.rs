//! Decimal digit runs: their numeric values, and how scaling by powers of
//! ten relates a run to its trailing zeros. Everything here is ghost
//! vocabulary for the parser's and the renderer's contracts.

use vstd::prelude::*;

verus! {

use vstd::arithmetic::div_mod::lemma_div_decreases;
use vstd::arithmetic::div_mod::lemma_fundamental_div_mod;
use vstd::arithmetic::mul::lemma_mul_is_associative;

/// An ASCII decimal digit byte.
pub open spec fn is_digit(b: u8) -> bool {
    48 <= b <= 57
}

/// The numeric value of a digit byte.
pub open spec fn digit_val(b: u8) -> nat {
    (b - 48) as nat
}

/// Every byte of the run is a decimal digit.
pub open spec fn all_digits(s: Seq<u8>) -> bool {
    forall|i: int| 0 <= i < s.len() ==> is_digit(#[trigger] s[i])
}

/// The value of a digit run read in base ten.
pub open spec fn digits_value(s: Seq<u8>) -> nat
    decreases s.len(),
{
    if s.len() == 0 {
        0
    } else {
        digits_value(s.drop_last()) * 10 + digit_val(s.last())
    }
}

/// How many `'0'` bytes end the run.
pub open spec fn trailing_zeros(s: Seq<u8>) -> nat
    decreases s.len(),
{
    if s.len() > 0 && s.last() == 48 {
        trailing_zeros(s.drop_last()) + 1
    } else {
        0
    }
}

/// Ten to the `n`.
pub open spec fn pow10(n: nat) -> nat
    decreases n,
{
    if n == 0 {
        1
    } else {
        10 * pow10((n - 1) as nat)
    }
}

/// The base-ten digits of `n`, most significant first, no leading zeros.
pub open spec fn dec_digits(n: nat) -> Seq<u8>
    decreases n,
    via dec_digits_decreases
{
    if n < 10 {
        seq![(48 + n) as u8]
    } else {
        dec_digits(n / 10).push((48 + n % 10) as u8)
    }
}

#[via_fn]
proof fn dec_digits_decreases(n: nat) {
    if n >= 10 {
        lemma_div_decreases(n as int, 10);
    }
}

/// The lowest `w` base-ten digits of `n`, most significant first, zero
/// padded to exactly `w` bytes.
pub open spec fn dec_digits_padded(n: nat, w: nat) -> Seq<u8>
    decreases w,
{
    if w == 0 {
        Seq::empty()
    } else {
        dec_digits_padded(n / 10, (w - 1) as nat).push((48 + n % 10) as u8)
    }
}

/// Appending a digit multiplies the run's value by ten and adds the digit.
pub proof fn lemma_digits_value_push(s: Seq<u8>, b: u8)
    ensures
        digits_value(s.push(b)) == digits_value(s) * 10 + digit_val(b),
{
    assert(s.push(b).drop_last() =~= s);
    assert(s.push(b).last() == b);
}

/// No run has more trailing zeros than bytes.
pub proof fn lemma_trailing_zeros_le_len(s: Seq<u8>)
    ensures
        trailing_zeros(s) <= s.len(),
    decreases s.len(),
{
    if s.len() > 0 && s.last() == 48 {
        lemma_trailing_zeros_le_len(s.drop_last());
    }
}

/// Ten to the `n` grows with `n`.
pub proof fn lemma_pow10_monotone(m: nat, n: nat)
    requires
        m <= n,
    ensures
        pow10(m) <= pow10(n),
    decreases n,
{
    if m < n && n > 0 {
        lemma_pow10_monotone(m, (n - 1) as nat);
        assert(pow10(n) == 10 * pow10((n - 1) as nat));
        assert(pow10((n - 1) as nat) <= 10 * pow10((n - 1) as nat));
    }
}

/// The eighth power of ten, spelled out: the base units in one BTC.
pub proof fn lemma_pow10_8()
    ensures
        pow10(8) == 100_000_000,
{
    assert(pow10(0) == 1);
    assert(pow10(1) == 10);
    assert(pow10(2) == 100);
    assert(pow10(3) == 1000);
    assert(pow10(4) == 10000);
    assert(pow10(5) == 100000);
    assert(pow10(6) == 1000000);
    assert(pow10(7) == 10000000);
}

/// Powers of ten multiply as their exponents add.
pub proof fn lemma_pow10_adds(a: nat, b: nat)
    ensures
        pow10(a + b) == pow10(a) * pow10(b),
    decreases a,
{
    if a > 0 {
        let am = (a - 1) as nat;
        lemma_pow10_adds(am, b);
        assert(pow10(a + b) == 10 * pow10(am + b));
        assert(pow10(a) == 10 * pow10(am));
        assert(10 * (pow10(am) * pow10(b)) == (10 * pow10(am)) * pow10(b)) by {
            lemma_mul_is_associative(10, pow10(am) as int, pow10(b) as int);
        }
        assert(pow10(a + b) == pow10(a) * pow10(b));
    } else {
        assert(pow10(a + b) == pow10(b));
        assert(pow10(a) == 1);
        assert(pow10(a + b) == pow10(a) * pow10(b));
    }
}

/// A run's value is the value of the run without its trailing zeros,
/// scaled by ten for each zero dropped.
pub proof fn lemma_strip_trailing_zeros(s: Seq<u8>)
    ensures
        digits_value(s) == digits_value(s.take(s.len() - trailing_zeros(s)))
            * pow10(trailing_zeros(s)),
    decreases s.len(),
{
    lemma_trailing_zeros_le_len(s);
    let z = trailing_zeros(s);
    let k = s.len() - z;
    if s.len() > 0 && s.last() == 48 {
        let t = s.drop_last();
        lemma_strip_trailing_zeros(t);
        lemma_trailing_zeros_le_len(t);
        assert(z == trailing_zeros(t) + 1);
        assert(t.take(t.len() - trailing_zeros(t)) =~= s.take(k));
        assert(digits_value(s) == digits_value(t) * 10 + 0);
        assert(digits_value(t) == digits_value(s.take(k)) * pow10((z - 1) as nat));
        lemma_mul_is_associative(
            digits_value(s.take(k)) as int,
            pow10((z - 1) as nat) as int,
            10,
        );
        assert(pow10(z) == pow10((z - 1) as nat) * 10) by {
            assert(pow10(z) == 10 * pow10((z - 1) as nat));
        }
        assert(digits_value(s) == (digits_value(s.take(k)) * pow10((z - 1) as nat)) * 10);
        assert((digits_value(s.take(k)) * pow10((z - 1) as nat)) * 10 == digits_value(s.take(k))
            * (pow10((z - 1) as nat) * 10));
        assert(digits_value(s) == digits_value(s.take(k)) * pow10(z));
        assert(s.take(k) == s.take(s.len() - trailing_zeros(s)));
    } else {
        assert(trailing_zeros(s) == 0);
        assert(pow10(0) == 1);
        assert(s.take(s.len() - trailing_zeros(s)) =~= s);
        assert(digits_value(s) == digits_value(s.take(s.len() - trailing_zeros(s))) * pow10(
            trailing_zeros(s),
        ));
    }
}

/// The digits of `n` are decimal digits, at least one of them, and read
/// back to `n`.
pub proof fn lemma_dec_digits_value(n: nat)
    ensures
        all_digits(dec_digits(n)),
        dec_digits(n).len() >= 1,
        digits_value(dec_digits(n)) == n,
        is_digit(dec_digits(n)[0]),
    decreases n,
{
    if n < 10 {
        assert(dec_digits(n) =~= seq![(48 + n) as u8]);
        assert(digits_value(dec_digits(n)) == digits_value(
            dec_digits(n).drop_last(),
        ) * 10 + digit_val((48 + n) as u8));
        assert(dec_digits(n).drop_last() =~= Seq::<u8>::empty());
    } else {
        lemma_div_decreases(n as int, 10);
        lemma_dec_digits_value(n / 10);
        lemma_fundamental_div_mod(n as int, 10);
        lemma_digits_value_push(dec_digits(n / 10), (48 + n % 10) as u8);
        assert forall|i: int| 0 <= i < dec_digits(n).len() implies is_digit(
            #[trigger] dec_digits(n)[i],
        ) by {
            if i < dec_digits(n / 10).len() {
                assert(dec_digits(n)[i] == dec_digits(n / 10)[i]);
            }
        }
    }
}

/// The `w` padded digits of `n` are digits, `w` of them, and read back
/// to `n` modulo ten to the `w`.
pub proof fn lemma_dec_digits_padded_value(n: nat, w: nat)
    ensures
        all_digits(dec_digits_padded(n, w)),
        dec_digits_padded(n, w).len() == w,
        digits_value(dec_digits_padded(n, w)) == n % pow10(w),
    decreases w,
{
    if w == 0 {
        assert(n % 1 == 0) by (nonlinear_arith);
    } else {
        let wm = (w - 1) as nat;
        assert(0 <= n % 10 < 10) by (nonlinear_arith);
        lemma_dec_digits_padded_value(n / 10, wm);
        lemma_digits_value_push(dec_digits_padded(n / 10, wm), (48 + n % 10) as u8);
        assert(digits_value(dec_digits_padded(n, w)) == (n / 10 % pow10(wm)) * 10 + n % 10);
        assert(pow10(wm) > 0) by {
            lemma_pow10_monotone(0, wm);
        }
        vstd::arithmetic::div_mod::lemma_mod_breakdown(n as int, 10, pow10(wm) as int);
        assert forall|i: int| 0 <= i < dec_digits_padded(n, w).len() implies is_digit(
            #[trigger] dec_digits_padded(n, w)[i],
        ) by {
            if i < dec_digits_padded(n / 10, wm).len() {
                assert(dec_digits_padded(n, w)[i] == dec_digits_padded(n / 10, wm)[i]);
            }
        }
    }
}

} // verus!
