//! Conversion of decimal BTC text into amounts, behind one trait.

use vstd::prelude::*;

use crate::amount::Amount;
use crate::amount::ParseAmountError;
use crate::amount::MAX_SUPPLY_BASE_UNITS;
use crate::parse::spec_parse;
use vstd::string::StringSliceAdditionalSpecFns;

verus! {

/// Types that denote an amount of BTC and convert into an [`Amount`].
///
/// What the conversion would yield is the type's `btc_sats` spec: an
/// exact base-unit count, or the rejection the decimal parser gives it.
/// The executable conversion carries the success as a precondition, the
/// way [`Amount::from_sat`] carries its bound: callers holding untrusted
/// input go through [`Amount::parse`] instead.
pub trait IntoBtc: Sized {
    /// The base-unit count `self` denotes, or why it denotes none.
    spec fn btc_sats(self) -> Result<u64, ParseAmountError>;

    /// Performs the conversion.
    fn into_btc(self) -> (r: Amount)
        requires
            self.btc_sats() is Ok,
        ensures
            Ok::<u64, ParseAmountError>(r@) == self.btc_sats(),
            r@ <= MAX_SUPPLY_BASE_UNITS,
    ;
}

impl IntoBtc for &str {
    open spec fn btc_sats(self) -> Result<u64, ParseAmountError> {
        spec_parse(self.spec_bytes())
    }

    fn into_btc(self) -> (r: Amount) {
        match Amount::parse(self) {
            Ok(a) => a,
            Err(_) => {
                proof {
                    assert(false);
                }
                Amount::zero()
            },
        }
    }
}

impl IntoBtc for &[u8] {
    open spec fn btc_sats(self) -> Result<u64, ParseAmountError> {
        spec_parse(self@)
    }

    fn into_btc(self) -> (r: Amount) {
        match Amount::parse_bytes(self) {
            Ok(a) => a,
            Err(_) => {
                proof {
                    assert(false);
                }
                Amount::zero()
            },
        }
    }
}

impl Amount {
    /// Creates an `Amount` from the given type, read as a BTC count.
    pub fn from_btc<T: IntoBtc>(btc: T) -> (r: Amount)
        requires
            btc.btc_sats() is Ok,
        ensures
            Ok::<u64, ParseAmountError>(r@) == btc.btc_sats(),
            r@ <= MAX_SUPPLY_BASE_UNITS,
    {
        btc.into_btc()
    }
}

} // verus!
