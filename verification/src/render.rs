//! The canonical decimal rendering of an amount — whole BTC digits, a
//! dot, and exactly eight fractional digits — and the proof that the
//! parser reads every rendering back to the amount it came from.

use vstd::prelude::*;

use crate::amount::Amount;
use crate::amount::ParseAmountError;
use crate::amount::MAX_BTC;
use crate::amount::MAX_SUPPLY_BASE_UNITS;
use crate::amount::SAT_PER_BTC;
use crate::digits::dec_digits;
use crate::digits::dec_digits_padded;
use crate::digits::digits_value;
use crate::digits::is_digit;
use crate::digits::lemma_dec_digits_padded_value;
use crate::digits::lemma_dec_digits_value;
use crate::digits::lemma_pow10_8;
use crate::digits::lemma_strip_trailing_zeros;
use crate::digits::lemma_trailing_zeros_le_len;
use crate::digits::pow10;
use crate::digits::trailing_zeros;
use crate::parse::dot_pos;
use crate::parse::dot_split_at;
use crate::parse::frac_run;
use crate::parse::frac_sig_len;
use crate::parse::int_run;
use crate::parse::lemma_dot_split_unique;
use crate::parse::spec_parse;
use crate::parse::wf_unsigned;
use crate::parse::DOT;
use vstd::arithmetic::div_mod::lemma_div_is_ordered;
use vstd::arithmetic::div_mod::lemma_fundamental_div_mod;
use vstd::arithmetic::div_mod::lemma_mod_bound;
use vstd::arithmetic::div_mod::lemma_small_mod;

verus! {

/// The canonical decimal rendering of a base-unit count, as bytes.
pub open spec fn spec_render(v: u64) -> Seq<u8> {
    dec_digits(v as nat / (SAT_PER_BTC as nat)) + seq![DOT] + dec_digits_padded(
        v as nat % (SAT_PER_BTC as nat),
        8,
    )
}

/// Appends the bytes of `tmp` to `out`, last first.
fn push_reversed(out: &mut Vec<u8>, tmp: &Vec<u8>)
    ensures
        final(out)@ == old(out)@ + tmp@.reverse(),
{
    let ghost base = out@;
    let mut idx: usize = tmp.len();
    while idx > 0
        invariant
            idx <= tmp@.len(),
            out@ == base + tmp@.subrange(idx as int, tmp@.len() as int).reverse(),
        decreases idx,
    {
        idx = idx - 1;
        let b = tmp[idx];
        out.push(b);
        proof {
            let l = tmp@.len() as int;
            assert(tmp@.subrange(idx as int, l).reverse() =~= tmp@.subrange(
                idx + 1,
                l,
            ).reverse().push(tmp@[idx as int]));
        }
    }
    proof {
        assert(tmp@.subrange(0, tmp@.len() as int) =~= tmp@);
    }
}

/// Appends the decimal digits of `q`, most significant first.
fn push_dec_digits(out: &mut Vec<u8>, q: u64)
    ensures
        final(out)@ == old(out)@ + dec_digits(q as nat),
{
    let mut tmp: Vec<u8> = Vec::new();
    let mut cur: u64 = q;
    loop
        invariant_except_break
            dec_digits(q as nat) == dec_digits(cur as nat) + tmp@.reverse(),
        ensures
            dec_digits(q as nat) == tmp@.reverse(),
        decreases cur,
    {
        proof {
            lemma_fundamental_div_mod(cur as int, 10);
            lemma_mod_bound(cur as int, 10);
        }
        let d = (cur % 10) as u8 + 48;
        let next = cur / 10;
        proof {
            assert(tmp@.push(d).reverse() =~= seq![d] + tmp@.reverse());
            if next == 0 {
                assert(cur < 10);
                lemma_small_mod(cur as nat, 10);
                assert(dec_digits(cur as nat) =~= seq![d]);
            } else {
                assert(cur >= 10);
                assert(dec_digits(cur as nat) == dec_digits(cur as nat / 10).push(d));
                assert(dec_digits(cur as nat / 10).push(d) + tmp@.reverse() =~= dec_digits(
                    cur as nat / 10,
                ) + (seq![d] + tmp@.reverse()));
                vstd::arithmetic::div_mod::lemma_div_decreases(cur as int, 10);
            }
        }
        tmp.push(d);
        if next == 0 {
            break;
        }
        cur = next;
    }
    push_reversed(out, &tmp);
}

/// Appends the lowest eight decimal digits of `rem`, zero padded, most
/// significant first.
fn push_padded(out: &mut Vec<u8>, rem: u64)
    ensures
        final(out)@ == old(out)@ + dec_digits_padded(rem as nat, 8),
{
    let mut tmp: Vec<u8> = Vec::new();
    let mut cur: u64 = rem;
    let mut cnt: u64 = 0;
    while cnt < 8
        invariant
            cnt <= 8,
            dec_digits_padded(rem as nat, 8) == dec_digits_padded(cur as nat, (8 - cnt) as nat)
                + tmp@.reverse(),
        decreases 8 - cnt,
    {
        proof {
            lemma_fundamental_div_mod(cur as int, 10);
            lemma_mod_bound(cur as int, 10);
        }
        let d = (cur % 10) as u8 + 48;
        proof {
            let w = (8 - cnt) as nat;
            assert(tmp@.push(d).reverse() =~= seq![d] + tmp@.reverse());
            assert(dec_digits_padded(cur as nat, w) == dec_digits_padded(
                cur as nat / 10,
                (w - 1) as nat,
            ).push(d));
            assert(dec_digits_padded(cur as nat / 10, (w - 1) as nat).push(d) + tmp@.reverse()
                =~= dec_digits_padded(cur as nat / 10, (w - 1) as nat) + (seq![d]
                + tmp@.reverse()));
        }
        tmp.push(d);
        cur = cur / 10;
        cnt = cnt + 1;
    }
    proof {
        assert(dec_digits_padded(cur as nat, 0) =~= Seq::<u8>::empty());
        assert(Seq::<u8>::empty() + tmp@.reverse() =~= tmp@.reverse());
    }
    push_reversed(out, &tmp);
}

impl Amount {
    /// Renders this amount as canonical decimal BTC text, as bytes:
    /// the whole BTC count, a dot, and exactly eight fractional digits.
    pub fn to_canonical_bytes(&self) -> (r: Vec<u8>)
        ensures
            r@ == spec_render(self@),
    {
        let v = self.into_inner();
        let q = v / SAT_PER_BTC;
        let rem = v % SAT_PER_BTC;
        let mut out: Vec<u8> = Vec::new();
        push_dec_digits(&mut out, q);
        out.push(DOT);
        let ghost mid = out@;
        push_padded(&mut out, rem);
        proof {
            assert(mid =~= Seq::<u8>::empty() + dec_digits(q as nat) + seq![DOT]);
            assert(out@ =~= dec_digits(q as nat) + seq![DOT] + dec_digits_padded(
                rem as nat,
                8,
            ));
        }
        out
    }
}

/// Parsing the canonical decimal rendering of an in-bounds base-unit
/// count gives back exactly that count: the digit-exact path loses
/// nothing on a round trip.
pub proof fn lemma_parse_render_round_trip(v: u64)
    requires
        v <= MAX_SUPPLY_BASE_UNITS,
    ensures
        spec_parse(spec_render(v)) == Ok::<u64, ParseAmountError>(v),
{
    let sat = SAT_PER_BTC as nat;
    let q = v as nat / sat;
    let rem = v as nat % sat;
    let ints = dec_digits(q);
    let frac = dec_digits_padded(rem, 8);
    let s = spec_render(v);
    lemma_dec_digits_value(q);
    lemma_dec_digits_padded_value(rem, 8);
    lemma_pow10_8();
    lemma_fundamental_div_mod(v as int, sat as int);
    lemma_mod_bound(v as int, sat as int);
    lemma_small_mod(rem, pow10(8));
    assert(digits_value(frac) == rem);
    // The rendering starts with a digit, so no sign branch is taken.
    assert(s[0] == ints[0]);
    assert(is_digit(s[0]));
    // The dot splits the rendering exactly where it was put.
    let d0 = ints.len() as int;
    assert(s[d0] == DOT);
    assert(s.take(d0) =~= ints);
    assert(s.skip(d0 + 1) =~= frac);
    assert(dot_split_at(s, d0));
    assert(wf_unsigned(s));
    lemma_dot_split_unique(s, choose|i: int| dot_split_at(s, i), d0);
    assert(dot_pos(s) == d0);
    assert(int_run(s) == ints);
    assert(frac_run(s) == frac);
    // The integral run stays at or under the whole-BTC ceiling.
    assert(q <= MAX_BTC) by {
        lemma_div_is_ordered(v as int, MAX_SUPPLY_BASE_UNITS as int, sat as int);
        assert(MAX_SUPPLY_BASE_UNITS as int / sat as int == MAX_BTC as int);
    }
    // The fractional run reads back as the remainder, whatever its
    // trailing zeros.
    let z = trailing_zeros(frac);
    lemma_trailing_zeros_le_len(frac);
    assert(frac_sig_len(s) == 8 - z);
    lemma_strip_trailing_zeros(frac);
    assert(digits_value(frac.take(8 - z)) * pow10(z) == rem);
    assert(crate::parse::unsigned_sats(s) == q * sat + rem);
    assert(q * sat + rem == v);
    assert(crate::parse::spec_parse_unsigned(s) == Ok::<u64, ParseAmountError>(v));
}

} // verus!
