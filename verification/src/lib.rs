//! Derived metrics for a finance dashboard: price movement, performance
//! ranking, wallet totals in one reporting currency, and display classifiers.
//! All quantities are exact integers in fixed-point units.

pub mod asset;
pub mod classify;
pub mod dates;
pub mod display;
pub mod fixed;
pub mod price;
pub mod ranking;
pub mod rates;
pub mod search;
pub mod text;
pub mod wallet;
