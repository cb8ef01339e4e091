//! Tests of the amount type: construction, arithmetic, and bounds.

use bitcoin_amount::Amount;
use bitcoin_amount::MAX_SUPPLY_BASE_UNITS;
use bitcoin_amount::SAT_PER_BTC;

#[test]
fn amount_from_btc() {
    assert_eq!(Amount::from_btc("0.00253583").into_inner(), 253583);
}

#[test]
fn amount_from_sat() {
    assert_eq!(Amount::from_sat(253583).into_inner(), 253583);
}

#[test]
fn amount_add_div_mul_sub() {
    let res = (Amount::from_btc("0.0025").add(Amount::from_btc("0.0005"))).mul(Amount::from_btc(
        "2.0",
    )).div(Amount::from_btc("2.0"));

    assert_eq!(res, Amount::from_btc("0.003"));
}

#[test]
fn amount_constants() {
    assert_eq!(Amount::zero().into_inner(), 0);
    assert_eq!(Amount::one().into_inner(), 1);
    assert_eq!(Amount::min_value().into_inner(), 0);
    assert_eq!(Amount::max_value().into_inner(), MAX_SUPPLY_BASE_UNITS);
    assert_eq!(MAX_SUPPLY_BASE_UNITS, 21_000_000 * SAT_PER_BTC);
}

#[test]
fn amount_from_sat_round_trips_at_bounds() {
    assert_eq!(Amount::from_sat(0).into_inner(), 0);
    assert_eq!(
        Amount::from_sat(MAX_SUPPLY_BASE_UNITS).into_inner(),
        MAX_SUPPLY_BASE_UNITS
    );
}

#[test]
fn amount_checked_add_within_bounds() {
    let a = Amount::from_sat(300);
    let b = Amount::from_sat(45);
    assert_eq!(a.checked_add(b), Some(Amount::from_sat(345)));
    assert_eq!(a.checked_add(b), b.checked_add(a));
}

#[test]
fn amount_checked_add_rejects_past_ceiling() {
    let max = Amount::max_value();
    assert_eq!(max.checked_add(Amount::one()), None);
    assert_eq!(max.checked_add(Amount::zero()), Some(max));
}

#[test]
fn amount_checked_add_associates() {
    let a = Amount::from_sat(10);
    let b = Amount::from_sat(20);
    let c = Amount::from_sat(30);
    let ab_c = a.checked_add(b).unwrap().checked_add(c);
    let a_bc = a.checked_add(b.checked_add(c).unwrap());
    assert_eq!(ab_c, a_bc);
    assert_eq!(ab_c, Some(Amount::from_sat(60)));
}

#[test]
fn amount_checked_sub_rejects_past_floor() {
    let a = Amount::from_sat(5);
    let b = Amount::from_sat(7);
    assert_eq!(b.checked_sub(a), Some(Amount::from_sat(2)));
    assert_eq!(a.checked_sub(b), None);
    assert_eq!(a.sub(a), Amount::zero());
}

#[test]
fn amount_ordering_follows_base_units() {
    assert!(Amount::from_sat(2) < Amount::from_sat(3));
    assert!(Amount::zero() < Amount::max_value());
}
