//! The exact decimal parser: from a byte string matching
//! `['+'|'-'] digit+ ['.' digit+]` to a bounds-checked [`Amount`],
//! digit by digit, with no floating-point intermediate.

use vstd::prelude::*;

use crate::amount::Amount;
use crate::amount::ParseAmountError;
use crate::amount::MAX_BTC;
use crate::amount::MAX_SUPPLY_BASE_UNITS;
use crate::amount::SAT_PER_BTC;
use crate::digits::all_digits;
use crate::digits::digits_value;
use crate::digits::is_digit;
use crate::digits::lemma_digits_value_push;
use crate::digits::lemma_pow10_monotone;
use crate::digits::pow10;
use crate::digits::trailing_zeros;
use vstd::slice::slice_index_get;
use vstd::slice::slice_subrange;
use vstd::string::StringSliceAdditionalSpecFns;

verus! {

/// The byte value of ASCII `'+'`.
pub const PLUS: u8 = 43;

/// The byte value of ASCII `'-'`.
pub const MINUS: u8 = 45;

/// The byte value of ASCII `'.'`.
pub const DOT: u8 = 46;

/// How many fractional decimal digits one display unit carries.
pub const FRAC_WIDTH: u64 = 8;

/// A dot at index `i` splits `t` into a nonempty integral digit run and a
/// nonempty fractional digit run.
pub open spec fn dot_split_at(t: Seq<u8>, i: int) -> bool {
    &&& 1 <= i
    &&& i + 1 < t.len()
    &&& t[i] == DOT
    &&& all_digits(t.take(i))
    &&& all_digits(t.skip(i + 1))
}

/// `t` matches the unsigned grammar `digit+ ['.' digit+]`.
pub open spec fn wf_unsigned(t: Seq<u8>) -> bool {
    (t.len() > 0 && all_digits(t)) || (exists|i: int| dot_split_at(t, i))
}

/// The index of the dot of a well-formed `t` that has one.
pub open spec fn dot_pos(t: Seq<u8>) -> int {
    choose|i: int| dot_split_at(t, i)
}

/// The integral digit run of `t`.
pub open spec fn int_run(t: Seq<u8>) -> Seq<u8> {
    if exists|i: int| dot_split_at(t, i) {
        t.take(dot_pos(t))
    } else {
        t
    }
}

/// The fractional digit run of `t`, empty where there is none.
pub open spec fn frac_run(t: Seq<u8>) -> Seq<u8> {
    if exists|i: int| dot_split_at(t, i) {
        t.skip(dot_pos(t) + 1)
    } else {
        Seq::empty()
    }
}

/// Count of significant fractional digits: those before the trailing zeros.
pub open spec fn frac_sig_len(t: Seq<u8>) -> int {
    frac_run(t).len() - trailing_zeros(frac_run(t))
}

/// The fractional part denotes a whole count of base units: at most
/// eight significant digits.
pub open spec fn frac_representable(t: Seq<u8>) -> bool {
    frac_sig_len(t) <= FRAC_WIDTH
}

/// The base-unit count denoted by a well-formed `t`, as an unbounded
/// natural: the integral run scaled to base units, plus the significant
/// fractional digits scaled by ten for each digit they stand short of
/// eight.
pub open spec fn unsigned_sats(t: Seq<u8>) -> nat {
    digits_value(int_run(t)) * (SAT_PER_BTC as nat) + digits_value(
        frac_run(t).take(frac_sig_len(t)),
    ) * pow10((FRAC_WIDTH - frac_sig_len(t)) as nat)
}

/// What parsing the unsigned part yields, once any sign is dealt with.
pub open spec fn spec_parse_unsigned(t: Seq<u8>) -> Result<u64, ParseAmountError> {
    if !wf_unsigned(t) {
        Err(ParseAmountError::InvalidAmount)
    } else if digits_value(int_run(t)) > MAX_BTC {
        Err(ParseAmountError::TooLarge)
    } else if !frac_representable(t) {
        Err(ParseAmountError::InvalidAmount)
    } else if unsigned_sats(t) > MAX_SUPPLY_BASE_UNITS {
        Err(ParseAmountError::TooLarge)
    } else {
        Ok(unsigned_sats(t) as u64)
    }
}

/// What parsing yields for any input byte string: a leading minus is
/// rejected outright, a leading plus is consumed, and the rest follows
/// `spec_parse_unsigned`.
pub open spec fn spec_parse(s: Seq<u8>) -> Result<u64, ParseAmountError> {
    if s.len() > 0 && s[0] == MINUS {
        Err(ParseAmountError::NegativeAmount)
    } else if s.len() > 0 && s[0] == PLUS {
        spec_parse_unsigned(s.skip(1))
    } else {
        spec_parse_unsigned(s)
    }
}

/// Two dots cannot both split the same string: each lies inside the
/// other's digit run.
pub proof fn lemma_dot_split_unique(t: Seq<u8>, i: int, j: int)
    requires
        dot_split_at(t, i),
        dot_split_at(t, j),
    ensures
        i == j,
{
    if i < j {
        assert(t.take(j)[i] == t[i]);
        assert(is_digit(t.take(j)[i]));
    } else if j < i {
        assert(t.take(i)[j] == t[j]);
        assert(is_digit(t.take(i)[j]));
    }
}

/// A run whose last `z` bytes are `'0'`, and whose byte before them (if
/// any) is not, has exactly `z` trailing zeros.
proof fn lemma_trailing_zeros_from_back(s: Seq<u8>, z: nat)
    requires
        z <= s.len(),
        forall|q: int| s.len() - z <= q < s.len() ==> #[trigger] s[q] == 48,
        z == s.len() || s[s.len() - 1 - z] != 48,
    ensures
        trailing_zeros(s) == z,
    decreases z,
{
    if z == 0 {
        if s.len() > 0 {
            assert(s.last() == s[s.len() - 1 - 0]);
        }
    } else {
        assert(s.last() == s[s.len() - 1]);
        let t = s.drop_last();
        assert forall|q: int| t.len() - (z - 1) <= q < t.len() implies #[trigger] t[q] == 48 by {
            assert(t[q] == s[q]);
        }
        if z - 1 < t.len() {
            assert(t[t.len() - 1 - (z - 1)] == s[s.len() - 1 - z]);
        }
        lemma_trailing_zeros_from_back(t, (z - 1) as nat);
    }
}

/// True exactly of ASCII decimal digit bytes.
pub fn is_digit_byte(b: u8) -> (r: bool)
    ensures
        r == is_digit(b),
{
    b >= 48 && b <= 57
}

/// Ten to the `e`, executably, for exponents up to eight.
fn pow10_u64(e: u64) -> (r: u64)
    requires
        e <= 8,
    ensures
        r == pow10(e as nat),
        r <= 100_000_000,
{
    proof {
        lemma_pow10_monotone(e as nat, 8);
        crate::digits::lemma_pow10_8();
    }
    let mut r: u64 = 1;
    let mut m: u64 = 0;
    while m < e
        invariant
            m <= e <= 8,
            r == pow10(m as nat),
            pow10(e as nat) <= 100_000_000,
        decreases e - m,
    {
        proof {
            lemma_pow10_monotone((m + 1) as nat, e as nat);
        }
        r = r * 10;
        m = m + 1;
    }
    r
}

impl Amount {
    /// Parses a decimal byte string as an amount of BTC, exactly.
    ///
    /// The accepted grammar is `['+'|'-'] digit+ ['.' digit+]`. A leading
    /// minus is rejected as [`ParseAmountError::NegativeAmount`]; a
    /// malformed string, or one whose fractional part is finer than one
    /// base unit, as [`ParseAmountError::InvalidAmount`]; a value past
    /// the supply ceiling as [`ParseAmountError::TooLarge`].
    pub fn parse_bytes(s: &[u8]) -> (r: Result<Amount, ParseAmountError>)
        ensures
            r matches Ok(a) ==> spec_parse(s@) == Ok::<u64, ParseAmountError>(a@),
            r matches Err(e) ==> spec_parse(s@) == Err::<u64, ParseAmountError>(e),
            r matches Ok(a) ==> a@ <= MAX_SUPPLY_BASE_UNITS,
    {
        if s.len() > 0 && *slice_index_get(s, 0) == MINUS {
            return Err(ParseAmountError::NegativeAmount);
        }
        let off: usize = if s.len() > 0 && *slice_index_get(s, 0) == PLUS {
            1
        } else {
            0
        };
        let t = slice_subrange(s, off, s.len());
        proof {
            if off == 1 {
                assert(t@ =~= s@.skip(1));
            } else {
                assert(t@ =~= s@);
            }
        }
        parse_unsigned(t)
    }

    /// Parses a decimal string as an amount of BTC, exactly; the
    /// behaviour is [`Amount::parse_bytes`] on the string's bytes.
    pub fn parse(s: &str) -> (r: Result<Amount, ParseAmountError>)
        ensures
            r matches Ok(a) ==> spec_parse(s.spec_bytes()) == Ok::<u64, ParseAmountError>(a@),
            r matches Err(e) ==> spec_parse(s.spec_bytes()) == Err::<u64, ParseAmountError>(e),
            r matches Ok(a) ==> a@ <= MAX_SUPPLY_BASE_UNITS,
    {
        Amount::parse_bytes(s.as_bytes())
    }
}

impl core::str::FromStr for Amount {
    type Err = ParseAmountError;

    fn from_str(s: &str) -> Result<Amount, ParseAmountError> {
        Amount::parse(s)
    }
}

/// Parses the part of the input after any sign byte.
fn parse_unsigned(t: &[u8]) -> (r: Result<Amount, ParseAmountError>)
    ensures
        r matches Ok(a) ==> spec_parse_unsigned(t@) == Ok::<u64, ParseAmountError>(a@),
        r matches Err(e) ==> spec_parse_unsigned(t@) == Err::<u64, ParseAmountError>(e),
        r matches Ok(a) ==> a@ <= MAX_SUPPLY_BASE_UNITS,
{
    let n = t.len();
    let mut i: usize = 0;
    let mut acc: u64 = 0;
    let mut over: bool = false;
    while i < n && is_digit_byte(*slice_index_get(t, i))
        invariant
            i <= n == t@.len(),
            forall|m: int| 0 <= m < i ==> is_digit(#[trigger] t@[m]),
            !over ==> acc == digits_value(t@.take(i as int)) && acc <= MAX_BTC,
            over ==> digits_value(t@.take(i as int)) > MAX_BTC,
        decreases n - i,
    {
        let b = *slice_index_get(t, i);
        let d = b - 48;
        proof {
            assert(t@.take(i + 1) =~= t@.take(i as int).push(t@[i as int]));
            lemma_digits_value_push(t@.take(i as int), t@[i as int]);
        }
        if !over {
            let next = acc * 10 + (d as u64);
            if next > MAX_BTC {
                over = true;
            } else {
                acc = next;
            }
        }
        i = i + 1;
    }
    let intlen = i;
    if intlen == 0 {
        proof {
            assert(!wf_unsigned(t@)) by {
                if t@.len() > 0 && all_digits(t@) {
                    assert(is_digit(t@[0]));
                }
                if exists|k: int| dot_split_at(t@, k) {
                    let k = choose|k: int| dot_split_at(t@, k);
                    assert(t@.take(k)[0] == t@[0]);
                    assert(is_digit(t@.take(k)[0]));
                }
            }
        }
        return Err(ParseAmountError::InvalidAmount);
    }
    if i == n {
        // The whole input is one digit run.
        proof {
            assert(t@.take(n as int) =~= t@);
            assert(all_digits(t@));
            if exists|k: int| dot_split_at(t@, k) {
                let k = choose|k: int| dot_split_at(t@, k);
                assert(is_digit(t@[k]));
            }
            assert(int_run(t@) == t@);
            assert(frac_run(t@) == Seq::<u8>::empty());
            assert(frac_sig_len(t@) == 0);
            assert(frac_run(t@).take(0) =~= Seq::<u8>::empty());
        }
        if over {
            return Err(ParseAmountError::TooLarge);
        }
        let sats = acc * SAT_PER_BTC;
        proof {
            assert(unsigned_sats(t@) == acc * (SAT_PER_BTC as nat));
        }
        return Ok(Amount::from_sat(sats));
    }
    // A byte stopped the digit run before the end.
    let b = *slice_index_get(t, i);
    if b != DOT {
        proof {
            assert(!wf_unsigned(t@)) by {
                assert(!is_digit(t@[i as int]));
                if exists|k: int| dot_split_at(t@, k) {
                    let k = choose|k: int| dot_split_at(t@, k);
                    if k < i {
                        assert(is_digit(t@[k]));
                    } else if k > i {
                        assert(t@.take(k)[i as int] == t@[i as int]);
                        assert(is_digit(t@.take(k)[i as int]));
                    }
                }
            }
        }
        return Err(ParseAmountError::InvalidAmount);
    }
    // t[i] is the dot; scan the fractional run.
    let mut j: usize = i + 1;
    while j < n && is_digit_byte(*slice_index_get(t, j))
        invariant
            i + 1 <= j <= n == t@.len(),
            t@[i as int] == DOT,
            forall|m: int| i + 1 <= m < j ==> is_digit(#[trigger] t@[m]),
        decreases n - j,
    {
        j = j + 1;
    }
    if j < n || j == i + 1 {
        // Either a non-digit after the fractional run, or no fractional
        // digit at all: the grammar is not met.
        proof {
            assert(!wf_unsigned(t@)) by {
                assert(!is_digit(t@[i as int]));
                if exists|k: int| dot_split_at(t@, k) {
                    let k = choose|k: int| dot_split_at(t@, k);
                    if k < i {
                        assert(is_digit(t@[k]));
                    } else if k > i {
                        assert(t@.take(k)[i as int] == t@[i as int]);
                        assert(is_digit(t@.take(k)[i as int]));
                    }
                    assert(k == i);
                    if j < n {
                        assert(t@.skip(k + 1)[j - k - 1] == t@[j as int]);
                        assert(is_digit(t@[j as int]));
                        assert(!is_digit(t@[j as int]));
                    } else {
                        assert(i + 1 >= t@.len());
                    }
                }
            }
        }
        return Err(ParseAmountError::InvalidAmount);
    }
    // The grammar is met, with the dot at i and the fractional run to the end.
    let ghost gi = i as int;
    proof {
        assert forall|m: int| 0 <= m < gi implies is_digit(#[trigger] t@.take(gi)[m]) by {
            assert(t@.take(gi)[m] == t@[m]);
        }
        assert forall|m: int| 0 <= m < t@.skip(gi + 1).len() implies is_digit(
            #[trigger] t@.skip(gi + 1)[m],
        ) by {
            assert(t@.skip(gi + 1)[m] == t@[m + gi + 1]);
        }
        assert(dot_split_at(t@, gi));
        let k = choose|k: int| dot_split_at(t@, k);
        lemma_dot_split_unique(t@, k, gi);
        assert(dot_pos(t@) == gi);
        assert(int_run(t@) == t@.take(gi));
        assert(frac_run(t@) == t@.skip(gi + 1));
        assert(digits_value(int_run(t@)) == digits_value(t@.take(gi)));
    }
    if over {
        return Err(ParseAmountError::TooLarge);
    }
    // Count the trailing zeros of the fractional run.
    let flen = n - (i + 1);
    let ghost frac = t@.skip(gi + 1);
    let mut z: usize = 0;
    while z < flen && *slice_index_get(t, n - 1 - z) == 48
        invariant
            z <= flen,
            flen == n - (i + 1),
            i + 1 < n == t@.len(),
            frac == t@.skip(gi + 1),
            gi == i as int,
            forall|q: int| n - z <= q < n ==> #[trigger] t@[q] == 48,
        decreases flen - z,
    {
        z = z + 1;
    }
    proof {
        assert(frac.len() == flen);
        assert forall|q: int| frac.len() - z <= q < frac.len() implies #[trigger] frac[q] == 48 by {
            assert(frac[q] == t@[q + gi + 1]);
        }
        if z < flen {
            assert(frac[frac.len() - 1 - z] == t@[n - 1 - z]);
        }
        lemma_trailing_zeros_from_back(frac, z as nat);
    }
    let sig_len = flen - z;
    proof {
        assert(frac_sig_len(t@) == sig_len);
    }
    if sig_len > 8 {
        return Err(ParseAmountError::InvalidAmount);
    }
    // Accumulate the significant fractional digits.
    let mut facc: u64 = 0;
    let mut k: usize = i + 1;
    while k < i + 1 + sig_len
        invariant
            i + 1 <= k <= i + 1 + sig_len,
            sig_len <= 8,
            i + 1 + sig_len <= n == t@.len(),
            frac == t@.skip(gi + 1),
            gi == i as int,
            forall|m: int| i + 1 <= m < n ==> is_digit(#[trigger] t@[m]),
            facc == digits_value(frac.take(k - (i + 1))),
            facc < pow10((k - (i + 1)) as nat),
        decreases i + 1 + sig_len - k,
    {
        let b = *slice_index_get(t, k);
        let d = b - 48;
        proof {
            let p = (k - (i + 1)) as int;
            assert(frac.take(p + 1) =~= frac.take(p).push(frac[p]));
            assert(frac[p] == t@[k as int]);
            lemma_digits_value_push(frac.take(p), frac[p]);
            lemma_pow10_monotone((p + 1) as nat, 8);
            crate::digits::lemma_pow10_8();
        }
        facc = facc * 10 + (d as u64);
        k = k + 1;
    }
    let scale = pow10_u64(8 - sig_len as u64);
    proof {
        crate::digits::lemma_pow10_adds((sig_len as nat), (8 - sig_len) as nat);
        lemma_pow10_monotone(0, (8 - sig_len) as nat);
        vstd::arithmetic::mul::lemma_mul_strict_inequality(
            facc as int,
            pow10(sig_len as nat) as int,
            pow10((8 - sig_len) as nat) as int,
        );
        crate::digits::lemma_pow10_8();
    }
    let contribution = facc * scale;
    let sats = acc * SAT_PER_BTC + contribution;
    proof {
        assert(frac.take(sig_len as int) == frac_run(t@).take(frac_sig_len(t@)));
        assert(unsigned_sats(t@) == acc * (SAT_PER_BTC as nat) + facc * pow10(
            (8 - sig_len) as nat,
        ));
    }
    if sats > MAX_SUPPLY_BASE_UNITS {
        return Err(ParseAmountError::TooLarge);
    }
    Ok(Amount::from_sat(sats))
}

} // verus!
