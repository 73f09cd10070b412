//! Monetary values held as exact scaled integers, with configurable
//! precision, tolerant parsing, increment rounding, locale-style formatting
//! and penny-exact distribution.

pub mod arith;
pub mod currency;
pub mod currency_opts;
pub mod decimal;
pub mod grouping;
pub mod normalize;
pub mod render;
pub mod text;

pub use currency::{Currency, CurrencyErr};
pub use currency_opts::CurrencyOpts;
pub use decimal::Decimal;
pub use grouping::{format_dollar, format_dollar_group, format_dollar_vedic};
pub use normalize::{
    allow_negative_values, convert_any_decimal_values, normalize, replace_any_non_numeric_values,
};
