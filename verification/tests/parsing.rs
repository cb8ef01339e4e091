//! Tests of the exact decimal parser and the canonical rendering.

use std::str::FromStr;

use bitcoin_amount::Amount;
use bitcoin_amount::ParseAmountError;
use bitcoin_amount::MAX_SUPPLY_BASE_UNITS;

#[test]
fn amount_from_str() {
    let amt = Amount::from_str("0.00253583").unwrap();
    assert_eq!(amt, Amount::from_sat(253583));
    let amt = Amount::from_str("0.10000000").unwrap();
    assert_eq!(amt, Amount::from_sat(10_000_000));
}

#[test]
fn error_descriptions_name_each_rejection() {
    assert_eq!(
        ParseAmountError::NegativeAmount.description(),
        "amount is negative"
    );
    assert_eq!(
        ParseAmountError::InvalidAmount.description(),
        "amount is not a valid decimal"
    );
    assert_eq!(
        ParseAmountError::TooLarge.description(),
        "amount exceeds the supply ceiling"
    );
}

#[test]
fn parse_rejects_negative() {
    assert_eq!(Amount::parse("-1"), Err(ParseAmountError::NegativeAmount));
    assert_eq!(Amount::parse("-0.5"), Err(ParseAmountError::NegativeAmount));
    assert_eq!(Amount::parse("-abc"), Err(ParseAmountError::NegativeAmount));
}

#[test]
fn parse_rejects_malformed() {
    assert_eq!(Amount::parse(""), Err(ParseAmountError::InvalidAmount));
    assert_eq!(Amount::parse(".5"), Err(ParseAmountError::InvalidAmount));
    assert_eq!(Amount::parse("5."), Err(ParseAmountError::InvalidAmount));
    assert_eq!(Amount::parse("5.0x"), Err(ParseAmountError::InvalidAmount));
    assert_eq!(Amount::parse("+"), Err(ParseAmountError::InvalidAmount));
    assert_eq!(Amount::parse("1.2.3"), Err(ParseAmountError::InvalidAmount));
    assert_eq!(Amount::parse("1e5"), Err(ParseAmountError::InvalidAmount));
}

#[test]
fn parse_rejects_past_ceiling() {
    assert_eq!(Amount::parse("21000001"), Err(ParseAmountError::TooLarge));
    assert_eq!(
        Amount::parse("21000000.00000001"),
        Err(ParseAmountError::TooLarge)
    );
    assert_eq!(
        Amount::parse("99999999999999999999999"),
        Err(ParseAmountError::TooLarge)
    );
}

#[test]
fn parse_accepts_the_ceiling_itself() {
    assert_eq!(
        Amount::parse("21000000").unwrap().into_inner(),
        MAX_SUPPLY_BASE_UNITS
    );
    assert_eq!(
        Amount::parse("21000000.00000000").unwrap().into_inner(),
        MAX_SUPPLY_BASE_UNITS
    );
    assert_eq!(
        Amount::parse("20999999.99999999").unwrap().into_inner(),
        MAX_SUPPLY_BASE_UNITS - 1
    );
}

#[test]
fn parse_leading_plus_is_ignored() {
    let plus = Amount::parse("+5").unwrap();
    assert_eq!(plus.into_inner(), 500_000_000);
    assert_eq!(plus, Amount::parse("5").unwrap());
}

#[test]
fn parse_fractional_precision() {
    // Nine significant fractional digits name no whole base-unit count.
    assert_eq!(
        Amount::parse("0.000000001"),
        Err(ParseAmountError::InvalidAmount)
    );
    // Trailing zeros past the eighth place are only padding.
    assert_eq!(
        Amount::parse("0.100000000").unwrap().into_inner(),
        10_000_000
    );
    assert_eq!(Amount::parse("5.0").unwrap().into_inner(), 500_000_000);
    assert_eq!(Amount::parse("0.5").unwrap().into_inner(), 50_000_000);
}

#[test]
fn parse_bytes_matches_parse() {
    assert_eq!(
        Amount::parse_bytes(b"0.00253583"),
        Amount::parse("0.00253583")
    );
    assert_eq!(Amount::parse_bytes(b""), Err(ParseAmountError::InvalidAmount));
}

#[test]
fn canonical_rendering_round_trips() {
    for v in [
        0u64,
        1,
        253583,
        10_000_000,
        500_000_000,
        MAX_SUPPLY_BASE_UNITS - 1,
        MAX_SUPPLY_BASE_UNITS,
    ] {
        let a = Amount::from_sat(v);
        let text = a.to_canonical_bytes();
        assert_eq!(Amount::parse_bytes(&text), Ok(a));
    }
}

#[test]
fn canonical_rendering_is_fixed_width_decimal() {
    assert_eq!(
        Amount::from_sat(253583).to_canonical_bytes(),
        b"0.00253583".to_vec()
    );
    assert_eq!(
        Amount::from_sat(2_100_000_000_000_000).to_canonical_bytes(),
        b"21000000.00000000".to_vec()
    );
}
