//! Asset records and their derived metrics.

use crate::price::{metrics_of, resolve, PricePoint};
use vstd::prelude::*;

verus! {

/// An asset with its recent prices, newest first, and the metrics derived
/// from them. The derived fields are never taken on trust: every operation
/// of this library that reads them computes them anew from the prices.
#[derive(Clone, Debug, PartialEq, Eq)]
pub struct AssetMetrics {
    pub symbol: String,
    pub category_key: String,
    pub risk_score: u8,
    pub recent_prices: Vec<PricePoint>,
    pub last_price: Option<i64>,
    pub change_pct: Option<i128>,
}

/// The mathematical content of an [`AssetMetrics`].
pub struct AssetMetricsView {
    pub symbol: Seq<char>,
    pub category_key: Seq<char>,
    pub risk_score: u8,
    pub recent_prices: Seq<PricePoint>,
    pub last_price: Option<i64>,
    pub change_pct: Option<i128>,
}

impl View for AssetMetrics {
    type V = AssetMetricsView;

    open spec fn view(&self) -> AssetMetricsView {
        AssetMetricsView {
            symbol: self.symbol@,
            category_key: self.category_key@,
            risk_score: self.risk_score,
            recent_prices: self.recent_prices@,
            last_price: self.last_price,
            change_pct: self.change_pct,
        }
    }
}

/// `asset` with its derived fields computed from its recent prices.
pub open spec fn resolved(asset: AssetMetricsView) -> AssetMetricsView {
    AssetMetricsView {
        last_price: metrics_of(asset.recent_prices).last_price,
        change_pct: metrics_of(asset.recent_prices).change_pct,
        ..asset
    }
}

/// Whether the derived fields of `asset` agree with its recent prices.
pub open spec fn is_resolved(asset: AssetMetricsView) -> bool {
    asset == resolved(asset)
}

/// A copy of a price history.
pub fn copy_prices(prices: &Vec<PricePoint>) -> (out: Vec<PricePoint>)
    ensures
        out@ == prices@,
{
    let mut out: Vec<PricePoint> = Vec::new();
    let mut i: usize = 0;
    while i < prices.len()
        invariant
            i <= prices.len(),
            out@ == prices@.take(i as int),
        decreases prices.len() - i,
    {
        out.push(prices[i]);
        i += 1;
    }
    out
}

impl AssetMetrics {
    /// An asset with the given record fields and the metrics that its recent
    /// prices give.
    pub fn new(
        symbol: String,
        category_key: String,
        risk_score: u8,
        recent_prices: Vec<PricePoint>,
    ) -> (asset: AssetMetrics)
        ensures
            asset@.symbol == symbol@,
            asset@.category_key == category_key@,
            asset@.risk_score == risk_score,
            asset@.recent_prices == recent_prices@,
            is_resolved(asset@),
    {
        let metrics = resolve(&recent_prices);
        AssetMetrics {
            symbol,
            category_key,
            risk_score,
            recent_prices,
            last_price: metrics.last_price,
            change_pct: metrics.change_pct,
        }
    }

    /// Recomputes the derived fields from the recent prices, whatever they
    /// held before.
    pub fn refresh(&mut self)
        ensures
            final(self)@ == resolved(old(self)@),
    {
        let metrics = resolve(&self.recent_prices);
        self.last_price = metrics.last_price;
        self.change_pct = metrics.change_pct;
    }

    /// A copy of this asset with its derived fields computed anew.
    pub fn to_resolved(&self) -> (copy: AssetMetrics)
        ensures
            copy@ == resolved(self@),
    {
        let metrics = resolve(&self.recent_prices);
        AssetMetrics {
            symbol: self.symbol.clone(),
            category_key: self.category_key.clone(),
            risk_score: self.risk_score,
            recent_prices: copy_prices(&self.recent_prices),
            last_price: metrics.last_price,
            change_pct: metrics.change_pct,
        }
    }
}

/// Recomputes the derived fields of every asset from its recent prices.
pub fn resolve_all(assets: &mut Vec<AssetMetrics>)
    ensures
        final(assets).len() == old(assets).len(),
        forall|i: int| 0 <= i < old(assets).len() ==> (#[trigger] final(assets)[i])@ == resolved(old(assets)[i]@),
{
    let n: usize = assets.len();
    let mut i: usize = 0;
    while i < n
        invariant
            i <= n,
            n == assets.len(),
            n == old(assets).len(),
            forall|j: int| 0 <= j < i ==> (#[trigger] assets[j])@ == resolved(old(assets)[j]@),
            forall|j: int| i <= j < n ==> (#[trigger] assets[j]) == old(assets)[j],
        decreases n - i,
    {
        assets[i].refresh();
        i += 1;
    }
}

} // verus!
