//! Last price and percent change of an asset, derived from its most recent
//! price points.
//!
//! Prices are integers in hundredths of the quoted unit, so `4250` stands
//! for 42.50. A percent change is an integer count of hundredths of a
//! percent, so `1111` stands for +11.11 %; it does not depend on the unit
//! of the prices.

use crate::fixed::{div_round, lemma_div_round_nearest, magnitude, rounded_quotient};
use vstd::prelude::*;

verus! {

/// Hundredths of a percent in a ratio of one: a change from `p` to `2 * p`
/// is `PERCENT_SCALE` hundredths of a percent.
pub const PERCENT_SCALE: i128 = 10_000;

/// One price snapshot of an asset.
#[derive(Clone, Copy, Debug, PartialEq, Eq, Structural)]
pub struct PricePoint {
    /// Seconds since the Unix epoch at which the price was recorded.
    pub timestamp: i64,
    /// The price, in hundredths.
    pub price: i64,
}

/// What the recent prices of an asset say about it. Either value is absent
/// where the history is too short to give it.
#[derive(Clone, Copy, Debug, PartialEq, Eq, Structural)]
pub struct PriceMetrics {
    /// The most recent price.
    pub last_price: Option<i64>,
    /// The movement from the preceding price to the most recent one, in
    /// hundredths of a percent.
    pub change_pct: Option<i128>,
}

/// Direction of a percent change, for display.
#[derive(Clone, Copy, Debug, PartialEq, Eq, Structural)]
pub enum Trend {
    Rising,
    Falling,
    Flat,
}

/// The change from `previous` to `latest` in hundredths of a percent:
/// `(latest - previous) / previous * 100`, rounded to two decimals.
pub open spec fn percent_change(latest: int, previous: int) -> int
    recommends
        previous != 0,
{
    div_round((latest - previous) * 10_000, previous)
}

/// The most recent price of a history that lists its points newest first.
pub open spec fn last_price_of(prices: Seq<PricePoint>) -> Option<i64> {
    if prices.len() == 0 {
        None
    } else {
        Some(prices[0].price)
    }
}

/// The percent change of a history that lists its points newest first. It
/// compares the first two points and is absent where there is no second
/// point or the second point's price is zero.
pub open spec fn change_of(prices: Seq<PricePoint>) -> Option<int> {
    if prices.len() >= 2 && prices[1].price != 0 {
        Some(percent_change(prices[0].price as int, prices[1].price as int))
    } else {
        None
    }
}

/// The metrics of a history that lists its points newest first.
pub open spec fn metrics_of(prices: Seq<PricePoint>) -> PriceMetrics {
    PriceMetrics {
        last_price: last_price_of(prices),
        change_pct: match change_of(prices) {
            Some(c) => Some(c as i128),
            None => None,
        },
    }
}

/// The direction of a percent change; an absent change is flat.
pub open spec fn trend_of(change: Option<i128>) -> Trend {
    match change {
        Some(c) => if c > 0 {
            Trend::Rising
        } else if c < 0 {
            Trend::Falling
        } else {
            Trend::Flat
        },
        None => Trend::Flat,
    }
}

/// The percent change is the exact change rounded to the nearest hundredth
/// of a percent: for a preceding price other than zero, it differs from
/// `(latest - previous) / previous * 100` by at most half a hundredth.
/// Multiplied out: twice the distance between `change * previous` and
/// `(latest - previous) * 10_000` is at most the magnitude of `previous`.
pub proof fn lemma_percent_change_nearest(latest: i64, previous: i64)
    requires
        previous != 0,
    ensures
        2 * magnitude(
            percent_change(latest as int, previous as int) * previous - (latest - previous)
                * 10_000,
        ) <= magnitude(previous as int),
{
    lemma_div_round_nearest((latest - previous) * 10_000, previous as int);
}

/// The percent change of any two prices fits the `i128` that carries it.
pub proof fn lemma_percent_change_fits(latest: i64, previous: i64)
    requires
        previous != 0,
    ensures
        i128::MIN <= percent_change(latest as int, previous as int) <= i128::MAX,
{
    lemma_div_round_nearest((latest - previous) * 10_000, previous as int);
}

/// The change in the metrics of a history is the percent change of its
/// first two prices, exactly, and is there whenever that change is
/// defined.
pub proof fn lemma_metrics_change_exact(prices: Seq<PricePoint>)
    ensures
        metrics_of(prices).change_pct is Some <==> change_of(prices) is Some,
        change_of(prices) matches Some(c) ==> metrics_of(prices).change_pct == Some(c as i128)
            && metrics_of(prices).change_pct->0 == c,
{
    if prices.len() >= 2 && prices[1].price != 0 {
        lemma_percent_change_fits(prices[0].price, prices[1].price);
    }
}

/// A preceding price of zero gives no percent change, whatever the latest
/// price is.
pub proof fn lemma_zero_previous_gives_no_change(prices: Seq<PricePoint>)
    requires
        prices.len() >= 2,
        prices[1].price == 0,
    ensures
        change_of(prices) is None,
        metrics_of(prices).change_pct is None,
        metrics_of(prices).last_price == Some(prices[0].price),
{
}

/// An empty history gives neither value; a history of one point gives that
/// point's price as the last price, and no change.
pub proof fn lemma_short_history(prices: Seq<PricePoint>)
    requires
        prices.len() <= 1,
    ensures
        metrics_of(prices).change_pct is None,
        prices.len() == 0 ==> metrics_of(prices).last_price is None,
        prices.len() == 1 ==> metrics_of(prices).last_price == Some(prices[0].price),
{
}

/// Only the first two points of a history are consulted: the metrics of a
/// longer history are those of its first two points.
pub proof fn lemma_only_first_two_points_count(prices: Seq<PricePoint>)
    requires
        prices.len() >= 2,
    ensures
        metrics_of(prices) == metrics_of(prices.take(2)),
{
}

/// The change from `previous` to `latest` in hundredths of a percent, or
/// `None` where `previous` is zero and the change is undefined.
pub fn percent_change_between(latest: i64, previous: i64) -> (change: Option<i128>)
    ensures
        change is Some <==> previous != 0,
        previous != 0 ==> change == Some(percent_change(latest as int, previous as int) as i128),
        previous != 0 ==> change->0 == percent_change(latest as int, previous as int),
{
    if previous == 0 {
        None
    } else {
        let diff: i128 = latest as i128 - previous as i128;
        let scaled: i128 = diff * PERCENT_SCALE;
        Some(rounded_quotient(scaled, previous as i128))
    }
}

/// Derives the metrics of an asset from its recent prices, newest first.
/// Only the first two points are consulted. An empty history gives neither
/// value; a single point gives the last price alone; a preceding price of
/// zero gives no change.
pub fn resolve(recent_prices: &Vec<PricePoint>) -> (metrics: PriceMetrics)
    ensures
        metrics == metrics_of(recent_prices@),
{
    let last_price = if recent_prices.len() > 0 {
        Some(recent_prices[0].price)
    } else {
        None
    };
    let change_pct = if recent_prices.len() >= 2 {
        percent_change_between(recent_prices[0].price, recent_prices[1].price)
    } else {
        None
    };
    PriceMetrics { last_price, change_pct }
}

/// The direction of a percent change.
pub fn trend(change: Option<i128>) -> (t: Trend)
    ensures
        t == trend_of(change),
{
    match change {
        Some(c) => {
            if c > 0 {
                Trend::Rising
            } else if c < 0 {
                Trend::Falling
            } else {
                Trend::Flat
            }
        },
        None => Trend::Flat,
    }
}

} // verus!
