//! Tests of the JSON interop paths: every JSON number goes through the
//! same exact string parser.

use bitcoin_amount::Amount;
use bitcoin_amount::ParseAmountError;

#[test]
fn serde_json_integer_number_is_read_as_btc() {
    let num = serde_json::value::Number::from(5u64);
    assert_eq!(
        Amount::from_serde_json(&num),
        Ok(Amount::from_sat(500_000_000))
    );
}

#[test]
fn serde_json_decimal_number_is_exact() {
    let num = serde_json::value::Number::from_f64(0.00253583).unwrap();
    assert_eq!(Amount::from_serde_json(&num), Ok(Amount::from_sat(253583)));
}

#[test]
fn serde_json_negative_number_is_rejected() {
    let num = serde_json::value::Number::from(-3i64);
    assert_eq!(
        Amount::from_serde_json(&num),
        Err(ParseAmountError::NegativeAmount)
    );
}

#[test]
fn serde_json_number_past_ceiling_is_rejected() {
    let num = serde_json::value::Number::from(22_000_000u64);
    assert_eq!(Amount::from_serde_json(&num), Err(ParseAmountError::TooLarge));
}

#[test]
fn strason_number_is_read_as_btc() {
    let json = strason::Json::from_str("0.5").unwrap();
    assert_eq!(
        Amount::from_strason_json(&json),
        Ok(Amount::from_sat(50_000_000))
    );
}

#[test]
fn strason_non_number_is_rejected() {
    let json = strason::Json::from_str("\"five\"").unwrap();
    assert_eq!(
        Amount::from_strason_json(&json),
        Err(ParseAmountError::InvalidAmount)
    );
}
