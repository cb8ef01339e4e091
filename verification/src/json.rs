//! Amounts from JSON numbers. A JSON number is rendered to decimal text
//! and fed to [`Amount::parse`], the one exact path: the JSON layer is
//! never given a conversion of its own.

use vstd::prelude::*;

use crate::amount::Amount;
use crate::amount::ParseAmountError;
use crate::amount::MAX_SUPPLY_BASE_UNITS;
use crate::parse::spec_parse;
use vstd::string::StringSliceAdditionalSpecFns;
use vstd::utf8::encode_utf8;

verus! {

/// serde_json's number type, opaque here: only its decimal rendering is
/// ever read.
#[verifier::external_type_specification]
#[verifier::external_body]
pub struct ExNumber(serde_json::value::Number);

/// strason's stringly-typed JSON value, opaque here: only the text of a
/// number node is ever read.
#[verifier::external_type_specification]
#[verifier::external_body]
pub struct ExJson(strason::Json);

/// The decimal text that a serde_json number renders to: it depends on
/// the number alone.
pub uninterp spec fn number_text(n: serde_json::value::Number) -> Seq<char>;

/// The text of a strason value's number node, or nothing where the
/// value is no JSON number: it depends on the value alone.
pub uninterp spec fn json_num_text(j: strason::Json) -> Option<Seq<u8>>;

/// Relies on the `Display` impl of `serde_json::value::Number`, through
/// `ToString`: it renders the number as decimal text, a function of the
/// number alone.
#[verifier::external_body]
fn render_number(num: &serde_json::value::Number) -> (r: String)
    ensures
        r@ == number_text(*num),
{
    num.to_string()
}

/// Relies on `strason::Json::num`: it hands back the number node's
/// text, a function of the value alone, and nothing for any other node.
#[verifier::external_body]
fn json_num<'a>(j: &'a strason::Json) -> (r: Option<&'a str>)
    ensures
        r is Some <==> json_num_text(*j) is Some,
        r matches Some(s) ==> json_num_text(*j) == Some(s.spec_bytes()),
{
    j.num()
}

impl Amount {
    /// Creates an `Amount` from a serde_json number; the JSON number unit
    /// SHOULD be in BTC, not satoshis.
    ///
    /// The number's decimal rendering goes through [`Amount::parse`],
    /// whose rejections pass through unchanged: a rendering outside the
    /// plain decimal grammar (an exponent, a minus) is no amount.
    pub fn from_serde_json(num: &serde_json::value::Number) -> (r: Result<
        Amount,
        ParseAmountError,
    >)
        ensures
            r matches Ok(a) ==> spec_parse(encode_utf8(number_text(*num)))
                == Ok::<u64, ParseAmountError>(a@),
            r matches Err(e) ==> spec_parse(encode_utf8(number_text(*num)))
                == Err::<u64, ParseAmountError>(e),
            r matches Ok(a) ==> a@ <= MAX_SUPPLY_BASE_UNITS,
    {
        let text = render_number(num);
        Amount::parse(text.as_str())
    }

    /// Creates an `Amount` from a strason JSON value; the JSON number
    /// unit SHOULD be in BTC, not satoshis.
    ///
    /// The number's text goes through [`Amount::parse`], whose
    /// rejections pass through unchanged; a value that is no JSON number
    /// at all is rejected as [`ParseAmountError::InvalidAmount`].
    pub fn from_strason_json(j: &strason::Json) -> (r: Result<Amount, ParseAmountError>)
        ensures
            json_num_text(*j) is None ==> r == Err::<Amount, ParseAmountError>(
                ParseAmountError::InvalidAmount,
            ),
            json_num_text(*j) matches Some(t) ==> (match r {
                Ok(a) => spec_parse(t) == Ok::<u64, ParseAmountError>(a@),
                Err(e) => spec_parse(t) == Err::<u64, ParseAmountError>(e),
            }),
            r matches Ok(a) ==> a@ <= MAX_SUPPLY_BASE_UNITS,
    {
        match json_num(j) {
            Some(text) => Amount::parse(text),
            None => Err(ParseAmountError::InvalidAmount),
        }
    }
}

} // verus!
