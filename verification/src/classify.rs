//! Lookup classifiers used to group assets for display.

use crate::text::{chars_equal, fold_ascii, fold_key, normalize_key, normalized};
use vstd::prelude::*;

verus! {

/// Coarse four-tier classification of a numeric risk score, from the
/// lowest risk to the highest.
#[derive(Clone, Copy, Debug, PartialEq, Eq, PartialOrd, Ord, Hash, Structural)]
pub enum RiskBand {
    Low,
    Moderate,
    Elevated,
    High,
}

/// The band of a risk score: 1 and 2 are low, 3 and 4 moderate, 5 and 6
/// elevated, and every other score, 0 included, is high.
pub open spec fn risk_band_of(score: u8) -> RiskBand {
    if score == 1 || score == 2 {
        RiskBand::Low
    } else if score == 3 || score == 4 {
        RiskBand::Moderate
    } else if score == 5 || score == 6 {
        RiskBand::Elevated
    } else {
        RiskBand::High
    }
}

/// Classifies a risk score. Total: every `u8` has a band.
pub fn risk_band(score: u8) -> (band: RiskBand)
    ensures
        band == risk_band_of(score),
{
    match score {
        1 | 2 => RiskBand::Low,
        3 | 4 => RiskBand::Moderate,
        5 | 6 => RiskBand::Elevated,
        _ => RiskBand::High,
    }
}

/// Display bucket of an asset category.
#[derive(Clone, Copy, Debug, PartialEq, Eq, Structural)]
pub enum CategoryBucket {
    Bonds,
    Commodities,
    Crypto,
    Forex,
    Indices,
    Stocks,
    Other,
}

/// The bucket of a category key. Keys are compared trimmed and without
/// regard to ASCII case. The indices bucket is reached by the singular
/// spelling `indice` as well as by `indices`; a key that names no bucket
/// falls into [`CategoryBucket::Other`].
pub open spec fn bucket_of(key: Seq<char>) -> CategoryBucket {
    let k = normalized(key);
    if k == "bonds"@ {
        CategoryBucket::Bonds
    } else if k == "commodities"@ {
        CategoryBucket::Commodities
    } else if k == "crypto"@ {
        CategoryBucket::Crypto
    } else if k == "forex"@ {
        CategoryBucket::Forex
    } else if k == "indice"@ || k == "indices"@ {
        CategoryBucket::Indices
    } else if k == "stocks"@ {
        CategoryBucket::Stocks
    } else {
        CategoryBucket::Other
    }
}

/// Classifies a category key. Total: an unrecognized key is `Other`.
pub fn category_bucket(category_key: &str) -> (bucket: CategoryBucket)
    ensures
        bucket == bucket_of(category_key@),
{
    let k = normalize_key(category_key);
    if chars_equal(&k, "bonds") {
        CategoryBucket::Bonds
    } else if chars_equal(&k, "commodities") {
        CategoryBucket::Commodities
    } else if chars_equal(&k, "crypto") {
        CategoryBucket::Crypto
    } else if chars_equal(&k, "forex") {
        CategoryBucket::Forex
    } else if chars_equal(&k, "indice") || chars_equal(&k, "indices") {
        CategoryBucket::Indices
    } else if chars_equal(&k, "stocks") {
        CategoryBucket::Stocks
    } else {
        CategoryBucket::Other
    }
}

/// State of a trade, for display.
#[derive(Clone, Copy, Debug, PartialEq, Eq, Structural)]
pub enum TradeStatus {
    Open,
    Closed,
    Pending,
    Other,
}

/// The state that a status text names. The text is compared without regard
/// to ASCII case and is not trimmed; a text that names no state is
/// [`TradeStatus::Other`].
pub open spec fn trade_status_of(status: Seq<char>) -> TradeStatus {
    let k = fold_ascii(status);
    if k == "open"@ {
        TradeStatus::Open
    } else if k == "closed"@ {
        TradeStatus::Closed
    } else if k == "pending"@ {
        TradeStatus::Pending
    } else {
        TradeStatus::Other
    }
}

/// Classifies a status text. Total: an unrecognized text is `Other`.
pub fn trade_status(status: &str) -> (state: TradeStatus)
    ensures
        state == trade_status_of(status@),
{
    let k = fold_key(status);
    if chars_equal(&k, "open") {
        TradeStatus::Open
    } else if chars_equal(&k, "closed") {
        TradeStatus::Closed
    } else if chars_equal(&k, "pending") {
        TradeStatus::Pending
    } else {
        TradeStatus::Other
    }
}

} // verus!
