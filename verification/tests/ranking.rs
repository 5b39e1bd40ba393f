use finance_metrics::asset::{resolve_all, AssetMetrics};
use finance_metrics::classify::{CategoryBucket, RiskBand};
use finance_metrics::price::{PricePoint, Trend};
use finance_metrics::ranking::{key_is_above, rank, rank_positions};

fn asset_with(symbol: &str, category: &str, risk: u8, prices: &[i64]) -> AssetMetrics {
    let recent_prices = prices
        .iter()
        .enumerate()
        .map(|(age, &price)| PricePoint { timestamp: 1_000 - age as i64, price })
        .collect();
    AssetMetrics::new(symbol.to_string(), category.to_string(), risk, recent_prices)
}

/// An asset whose change is `change` hundredths of a percent, or none.
fn asset_changing(symbol: &str, change: Option<i64>) -> AssetMetrics {
    match change {
        Some(c) => asset_with(symbol, "stocks", 3, &[10_000 + c, 10_000]),
        None => asset_with(symbol, "stocks", 3, &[10_000]),
    }
}

fn symbols(ranked: &[finance_metrics::ranking::RankedAsset]) -> Vec<String> {
    ranked.iter().map(|r| r.asset.symbol.clone()).collect()
}

#[test]
fn rank_of_nothing_is_empty() {
    assert!(rank(&Vec::new(), 6).is_empty());
    assert!(rank_positions(&Vec::new(), 6).is_empty());
}

#[test]
fn rank_with_cut_off_zero_is_empty() {
    let assets = vec![asset_changing("A", Some(5)), asset_changing("B", Some(7))];
    assert!(rank(&assets, 0).is_empty());
}

#[test]
fn rank_keeps_the_six_best_of_ten() {
    let changes = [300, -50, 900, 120, 0, 450, -700, 800, 10, 650];
    let assets: Vec<AssetMetrics> = changes
        .iter()
        .enumerate()
        .map(|(i, &c)| asset_changing(&format!("S{}", i), Some(c)))
        .collect();
    let ranked = rank(&assets, 6);
    assert_eq!(ranked.len(), 6);
    assert_eq!(symbols(&ranked), vec!["S2", "S7", "S9", "S5", "S0", "S3"]);
    let got: Vec<Option<i128>> = ranked.iter().map(|r| r.asset.change_pct).collect();
    assert_eq!(got, vec![Some(900), Some(800), Some(650), Some(450), Some(300), Some(120)]);
    for (place, entry) in ranked.iter().enumerate() {
        assert_eq!(entry.rank, place);
        assert_eq!(assets[entry.position].symbol, entry.asset.symbol);
    }
}

#[test]
fn rank_returns_all_when_fewer_than_the_cut_off() {
    let assets = vec![
        asset_changing("A", Some(-5)),
        asset_changing("B", Some(7)),
        asset_changing("C", None),
    ];
    let ranked = rank(&assets, 6);
    assert_eq!(symbols(&ranked), vec!["B", "A", "C"]);
    assert_eq!(ranked.iter().map(|r| r.position).collect::<Vec<_>>(), vec![1, 0, 2]);
}

#[test]
fn rank_is_stable_for_equal_changes() {
    let assets = vec![
        asset_changing("first", Some(250)),
        asset_changing("top", Some(900)),
        asset_changing("second", Some(250)),
        asset_changing("third", Some(250)),
        asset_changing("low", Some(-1)),
    ];
    let ranked = rank(&assets, 5);
    assert_eq!(symbols(&ranked), vec!["top", "first", "second", "third", "low"]);
    // The cut-off falls inside the tie: the earlier ones stay.
    let ranked = rank(&assets, 3);
    assert_eq!(symbols(&ranked), vec!["top", "first", "second"]);
}

#[test]
fn rank_is_stable_for_absent_changes() {
    let assets = vec![
        asset_changing("n1", None),
        asset_changing("n2", None),
        asset_changing("x", Some(1)),
        asset_changing("n3", None),
    ];
    let ranked = rank(&assets, 4);
    assert_eq!(symbols(&ranked), vec!["x", "n1", "n2", "n3"]);
}

#[test]
fn absent_change_never_outranks_a_present_one() {
    let assets = vec![
        asset_changing("none", None),
        asset_changing("halved", Some(-5_000)),
        asset_with("zero-previous", "forex", 9, &[500, 0]),
        asset_with("worthless", "crypto", 9, &[0, 500]),
    ];
    let ranked = rank(&assets, 4);
    assert_eq!(symbols(&ranked), vec!["halved", "worthless", "none", "zero-previous"]);
    assert_eq!(ranked[1].asset.change_pct, Some(-10_000));
    assert_eq!(ranked[2].asset.change_pct, None);
    let ranked = rank(&assets, 2);
    assert_eq!(symbols(&ranked), vec!["halved", "worthless"]);
}

#[test]
fn rank_does_not_trust_supplied_metrics() {
    let mut liar = asset_changing("liar", Some(-900));
    liar.change_pct = Some(1_000_000);
    liar.last_price = Some(1);
    let mut modest = asset_changing("modest", Some(100));
    modest.change_pct = None;
    modest.last_price = None;
    let assets = vec![liar, modest];
    let ranked = rank(&assets, 6);
    assert_eq!(symbols(&ranked), vec!["modest", "liar"]);
    assert_eq!(ranked[0].asset.change_pct, Some(100));
    assert_eq!(ranked[0].asset.last_price, Some(10_100));
    assert_eq!(ranked[1].asset.change_pct, Some(-900));
    assert_eq!(ranked[1].asset.last_price, Some(9_100));
}

#[test]
fn rank_annotates_each_entry_for_display() {
    let assets = vec![
        asset_with("BTC", " Crypto ", 8, &[110, 100]),
        asset_with("BUND", "bonds", 1, &[99, 100]),
        asset_with("GOLD", "COMMODITIES", 4, &[100, 100]),
        asset_with("NEW", "warrants", 5, &[100]),
    ];
    let ranked = rank(&assets, 10);
    assert_eq!(symbols(&ranked), vec!["BTC", "GOLD", "BUND", "NEW"]);
    assert_eq!(ranked[0].category, CategoryBucket::Crypto);
    assert_eq!(ranked[0].risk_band, RiskBand::High);
    assert_eq!(ranked[0].trend, Trend::Rising);
    assert_eq!(ranked[0].asset.category_key, " Crypto ");
    assert_eq!(ranked[1].category, CategoryBucket::Commodities);
    assert_eq!(ranked[1].risk_band, RiskBand::Moderate);
    assert_eq!(ranked[1].trend, Trend::Flat);
    assert_eq!(ranked[2].category, CategoryBucket::Bonds);
    assert_eq!(ranked[2].risk_band, RiskBand::Low);
    assert_eq!(ranked[2].trend, Trend::Falling);
    assert_eq!(ranked[3].category, CategoryBucket::Other);
    assert_eq!(ranked[3].risk_band, RiskBand::Elevated);
    assert_eq!(ranked[3].trend, Trend::Flat);
    assert_eq!(ranked[3].asset.recent_prices, assets[3].recent_prices);
    assert_eq!(ranked[0].last_price_text, "1.10");
    assert_eq!(ranked[0].change_text, "+10.00%");
    assert_eq!(ranked[1].change_text, "+0.00%");
    assert_eq!(ranked[2].last_price_text, "0.99");
    assert_eq!(ranked[2].change_text, "-1.00%");
    assert_eq!(ranked[3].last_price_text, "1.00");
    assert_eq!(ranked[3].change_text, "-");
    assert_eq!(ranked[3].asset.risk_score, 5);
}

#[test]
fn rank_is_the_same_for_the_same_input() {
    let assets: Vec<AssetMetrics> = [3, 3, -1, 8, 8, 0]
        .iter()
        .enumerate()
        .map(|(i, &c)| asset_changing(&format!("S{}", i), Some(c)))
        .collect();
    let a: Vec<usize> = rank(&assets, 4).iter().map(|r| r.position).collect();
    let b: Vec<usize> = rank(&assets, 4).iter().map(|r| r.position).collect();
    assert_eq!(a, b);
    assert_eq!(a, vec![3, 4, 0, 1]);
}

#[test]
fn shorter_ranking_is_the_start_of_a_longer_one() {
    let keys = vec![Some(4), None, Some(9), Some(4), None, Some(-2), Some(9), Some(0)];
    let full = rank_positions(&keys, keys.len());
    assert_eq!(full, vec![2, 6, 0, 3, 7, 5, 1, 4]);
    for k in 0..=keys.len() + 2 {
        let cut = rank_positions(&keys, k);
        assert_eq!(cut, full[..k.min(keys.len())].to_vec());
    }
    assert_eq!(rank_positions(&keys, usize::MAX), full);
}

#[test]
fn rank_positions_orders_extreme_keys() {
    let keys = vec![Some(i128::MIN), None, Some(i128::MAX), Some(0), None, Some(i128::MIN)];
    assert_eq!(rank_positions(&keys, 6), vec![2, 3, 0, 5, 1, 4]);
}

#[test]
fn key_comparison_puts_absent_below_everything() {
    assert!(key_is_above(Some(1), Some(0)));
    assert!(!key_is_above(Some(0), Some(0)));
    assert!(!key_is_above(Some(0), Some(1)));
    assert!(key_is_above(Some(i128::MIN), None));
    assert!(!key_is_above(None, Some(i128::MIN)));
    assert!(!key_is_above(None, None));
}

#[test]
fn resolve_all_recomputes_every_asset() {
    let mut assets = vec![
        asset_with("A", "stocks", 2, &[100, 90]),
        asset_with("B", "stocks", 2, &[]),
        asset_with("C", "stocks", 2, &[5, 0]),
    ];
    assets[0].change_pct = None;
    assets[1].last_price = Some(3);
    assets[1].change_pct = Some(3);
    assets[2].last_price = None;
    resolve_all(&mut assets);
    assert_eq!((assets[0].last_price, assets[0].change_pct), (Some(100), Some(1_111)));
    assert_eq!((assets[1].last_price, assets[1].change_pct), (None, None));
    assert_eq!((assets[2].last_price, assets[2].change_pct), (Some(5), None));
    assert_eq!(assets[0].symbol, "A");
    assert_eq!(assets[2].recent_prices.len(), 2);
}

#[test]
fn new_asset_has_its_metrics_resolved() {
    let asset = asset_with("ETH", "crypto", 7, &[150, 100, 1]);
    assert_eq!(asset.last_price, Some(150));
    assert_eq!(asset.change_pct, Some(5_000));
    let mut stale = asset_with("ETH", "crypto", 7, &[150, 100, 1]);
    stale.change_pct = Some(0);
    stale.refresh();
    assert_eq!(stale.change_pct, Some(5_000));
    let copy = stale.to_resolved();
    assert_eq!(copy.symbol, "ETH");
    assert_eq!(copy.category_key, "crypto");
    assert_eq!(copy.risk_score, 7);
    assert_eq!(copy.recent_prices, stale.recent_prices);
    assert_eq!(copy.change_pct, Some(5_000));
}

#[test]
fn an_asset_without_prices_is_shown_with_dashes() {
    let assets = vec![asset_with("NEW", "stocks", 1, &[])];
    let ranked = rank(&assets, 6);
    assert_eq!(ranked.len(), 1);
    assert_eq!(ranked[0].asset.last_price, None);
    assert_eq!(ranked[0].last_price_text, "-");
    assert_eq!(ranked[0].change_text, "-");
}
