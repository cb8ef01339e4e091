//! Exact, bounds-checked bitcoin amounts.
//!
//! An [`Amount`] holds a count of indivisible base units ("satoshis",
//! 100,000,000 to a BTC), kept between a zero floor and the fixed supply
//! ceiling of 21,000,000 BTC. Decimal strings are parsed digit by digit,
//! with no floating-point intermediate, so no value is ever rounded.

mod amount;
pub mod btc;
pub mod digits;
pub mod json;
pub mod parse;
pub mod render;

pub use amount::lemma_checked_add_associative;
pub use amount::lemma_checked_add_commutative;
pub use amount::lemma_checked_add_rejects_past_ceiling;
pub use amount::spec_checked_add;
pub use amount::Amount;
pub use amount::ParseAmountError;
pub use amount::MAX_BTC;
pub use amount::MAX_SUPPLY_BASE_UNITS;
pub use amount::SAT_PER_BTC;
pub use btc::IntoBtc;
pub use render::lemma_parse_render_round_trip;
