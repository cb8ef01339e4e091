//! The bounds-checked amount type and its arithmetic.

use vstd::prelude::*;

verus! {

/// Number of base units ("satoshis") in one display unit ("BTC").
pub const SAT_PER_BTC: u64 = 100_000_000;

/// Number of whole display units that the supply ceiling allows.
pub const MAX_BTC: u64 = 21_000_000;

/// The supply ceiling in base units: no `Amount` ever exceeds it.
pub const MAX_SUPPLY_BASE_UNITS: u64 = 21_000_000 * 100_000_000;

/// Error from parsing a decimal string as an [`Amount`].
#[derive(Debug, Clone, Copy, PartialEq, Eq, Structural)]
pub enum ParseAmountError {
    /// The input began with a minus sign: amounts are non-negative.
    NegativeAmount,
    /// The input did not match the grammar `['+'|'-'] digit+ ['.' digit+]`,
    /// or its fractional part is finer than one base unit.
    InvalidAmount,
    /// The denoted value exceeds the supply ceiling.
    TooLarge,
}

impl ParseAmountError {
    /// A short statement of what was rejected.
    pub fn description(&self) -> (r: &'static str)
        ensures
            *self is NegativeAmount ==> r@ == "amount is negative"@,
            *self is InvalidAmount ==> r@ == "amount is not a valid decimal"@,
            *self is TooLarge ==> r@ == "amount exceeds the supply ceiling"@,
    {
        match self {
            ParseAmountError::NegativeAmount => "amount is negative",
            ParseAmountError::InvalidAmount => "amount is not a valid decimal",
            ParseAmountError::TooLarge => "amount exceeds the supply ceiling",
        }
    }
}

/// A bitcoin amount: a count of base units, bounded by the supply ceiling.
#[derive(Debug, Clone, Copy, PartialEq, Eq, PartialOrd, Ord, Structural)]
pub struct Amount {
    sat: u64,
}

impl View for Amount {
    type V = u64;

    closed spec fn view(&self) -> u64 {
        self.sat
    }
}

impl Amount {
    /// Every amount respects the zero floor (by its type) and the supply ceiling.
    #[verifier::type_invariant]
    spec fn wf(self) -> bool {
        self.sat <= MAX_SUPPLY_BASE_UNITS
    }

    /// Creates a new `Amount` from a base-unit ("satoshi") count.
    ///
    /// The bound on `sat` is a precondition, not a recoverable error:
    /// callers holding untrusted input must validate it first, for
    /// instance through [`Amount::parse`].
    pub fn from_sat(sat: u64) -> (r: Amount)
        requires
            sat <= MAX_SUPPLY_BASE_UNITS,
        ensures
            r@ == sat,
            r@ <= MAX_SUPPLY_BASE_UNITS,
    {
        Amount { sat }
    }

    /// Returns the additive identity of `Amount`.
    pub fn zero() -> (r: Amount)
        ensures
            r@ == 0,
            r@ <= MAX_SUPPLY_BASE_UNITS,
    {
        Amount { sat: 0 }
    }

    /// Returns the multiplicative identity of `Amount`.
    pub fn one() -> (r: Amount)
        ensures
            r@ == 1,
            r@ <= MAX_SUPPLY_BASE_UNITS,
    {
        Amount { sat: 1 }
    }

    /// Maximum value that can fit in an `Amount`: the supply ceiling.
    pub fn max_value() -> (r: Amount)
        ensures
            r@ == MAX_SUPPLY_BASE_UNITS,
            r@ <= MAX_SUPPLY_BASE_UNITS,
    {
        Amount { sat: MAX_SUPPLY_BASE_UNITS }
    }

    /// Minimum value that can fit in an `Amount`: zero.
    pub fn min_value() -> (r: Amount)
        ensures
            r@ == 0,
            r@ <= MAX_SUPPLY_BASE_UNITS,
    {
        Amount { sat: 0 }
    }

    /// Converts this `Amount` to its inner base-unit count.
    pub fn into_inner(self) -> (r: u64)
        ensures
            r == self@,
            r <= MAX_SUPPLY_BASE_UNITS,
    {
        proof {
            use_type_invariant(self);
        }
        self.sat
    }

    /// Adds two amounts; the sum staying under the ceiling is a precondition.
    pub fn add(self, rhs: Amount) -> (r: Amount)
        requires
            self@ + rhs@ <= MAX_SUPPLY_BASE_UNITS,
        ensures
            r@ == self@ + rhs@,
            r@ <= MAX_SUPPLY_BASE_UNITS,
    {
        Amount { sat: self.sat + rhs.sat }
    }

    /// Subtracts an amount no larger than this one.
    pub fn sub(self, rhs: Amount) -> (r: Amount)
        requires
            rhs@ <= self@,
        ensures
            r@ == self@ - rhs@,
            r@ <= MAX_SUPPLY_BASE_UNITS,
    {
        proof {
            use_type_invariant(self);
        }
        Amount { sat: self.sat - rhs.sat }
    }

    /// Multiplies two base-unit counts; the product staying under the
    /// ceiling is a precondition.
    pub fn mul(self, rhs: Amount) -> (r: Amount)
        requires
            self@ * rhs@ <= MAX_SUPPLY_BASE_UNITS,
        ensures
            r@ == self@ * rhs@,
            r@ <= MAX_SUPPLY_BASE_UNITS,
    {
        Amount { sat: self.sat * rhs.sat }
    }

    /// Divides one base-unit count by another, rounding down.
    pub fn div(self, rhs: Amount) -> (r: Amount)
        requires
            rhs@ != 0,
        ensures
            r@ == self@ / rhs@,
            r@ <= MAX_SUPPLY_BASE_UNITS,
    {
        proof {
            use_type_invariant(self);
            vstd::arithmetic::div_mod::lemma_div_is_ordered_by_denominator(
                self@ as int,
                1,
                rhs@ as int,
            );
        }
        Amount { sat: self.sat / rhs.sat }
    }

    /// Adds two amounts, rejecting a sum that would pass the supply ceiling.
    pub fn checked_add(self, rhs: Amount) -> (r: Option<Amount>)
        ensures
            r is Some <==> self@ + rhs@ <= MAX_SUPPLY_BASE_UNITS,
            r is Some <==> spec_checked_add(self@, rhs@) is Some,
            r matches Some(c) ==> spec_checked_add(self@, rhs@) == Some(c@),
            r matches Some(c) ==> c@ == self@ + rhs@ && c@ <= MAX_SUPPLY_BASE_UNITS,
    {
        proof {
            use_type_invariant(self);
            use_type_invariant(rhs);
        }
        let sum = self.sat + rhs.sat;
        if sum <= MAX_SUPPLY_BASE_UNITS {
            Some(Amount { sat: sum })
        } else {
            None
        }
    }

    /// Subtracts one amount from another, rejecting a difference that
    /// would pass the zero floor.
    pub fn checked_sub(self, rhs: Amount) -> (r: Option<Amount>)
        ensures
            r is Some <==> rhs@ <= self@,
            r matches Some(c) ==> c@ == self@ - rhs@ && c@ <= MAX_SUPPLY_BASE_UNITS,
    {
        proof {
            use_type_invariant(self);
        }
        if rhs.sat <= self.sat {
            Some(Amount { sat: self.sat - rhs.sat })
        } else {
            None
        }
    }
}

/// The sum of two base-unit counts, or nothing where it would pass the
/// supply ceiling.
pub open spec fn spec_checked_add(a: u64, b: u64) -> Option<u64> {
    if a + b <= MAX_SUPPLY_BASE_UNITS {
        Some((a + b) as u64)
    } else {
        None
    }
}

/// A sum past the supply ceiling is rejected, never wrapped: checked
/// addition yields nothing exactly where the ceiling would be passed,
/// and the exact sum otherwise.
pub proof fn lemma_checked_add_rejects_past_ceiling(a: u64, b: u64)
    ensures
        spec_checked_add(a, b) is None <==> a + b > MAX_SUPPLY_BASE_UNITS,
        spec_checked_add(a, b) matches Some(c) ==> c == a + b && c <= MAX_SUPPLY_BASE_UNITS,
{
}

/// Bounds-checked addition is commutative.
pub proof fn lemma_checked_add_commutative(a: u64, b: u64)
    ensures
        spec_checked_add(a, b) == spec_checked_add(b, a),
{
}

/// Bounds-checked addition is associative: for amounts whose total stays
/// under the supply ceiling, both groupings succeed and agree.
pub proof fn lemma_checked_add_associative(a: u64, b: u64, c: u64)
    requires
        a + b + c <= MAX_SUPPLY_BASE_UNITS,
    ensures
        spec_checked_add(a, b) matches Some(ab) && spec_checked_add(ab, c)
            == spec_checked_add(a, (b + c) as u64),
        spec_checked_add(b, c) matches Some(bc) && spec_checked_add(a, bc)
            == spec_checked_add((a + b) as u64, c),
{
}

} // verus!
