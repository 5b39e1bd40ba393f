//! Ranking by percent change: best performers first, ties in input order,
//! cut off after the first `top_k`.
//!
//! The ranking is stated over the sort keys alone. A key is the percent
//! change of an asset; an asset without one has the key `None`, which ranks
//! below every present change.

use crate::asset::{resolved, AssetMetrics};
use crate::classify::{bucket_of, category_bucket, risk_band, risk_band_of, CategoryBucket, RiskBand};
use crate::display::{change_text, format_change, format_price, price_text};
use crate::price::{metrics_of, resolve, trend, trend_of, Trend};
use vstd::prelude::*;

verus! {

/// One entry of a ranking: an asset with its place and what a display needs
/// to group it.
#[derive(Clone, Debug, PartialEq, Eq)]
pub struct RankedAsset {
    /// The asset, its derived fields computed from its recent prices.
    pub asset: AssetMetrics,
    /// The place in the ranking, from 0 for the best performer.
    pub rank: usize,
    /// The position of the asset in the sequence that was ranked.
    pub position: usize,
    /// The band of the asset's risk score.
    pub risk_band: RiskBand,
    /// The display bucket of the asset's category.
    pub category: CategoryBucket,
    /// The direction of the asset's percent change.
    pub trend: Trend,
    /// The last price with two decimals, or a dash.
    pub last_price_text: String,
    /// The percent change, signed and with two decimals, or a dash.
    pub change_text: String,
}

/// The sort keys of `assets`: for each its percent change, computed from its
/// recent prices.
pub open spec fn sort_keys(assets: Seq<AssetMetrics>) -> Seq<Option<i128>> {
    Seq::new(assets.len(), |i: int| metrics_of(assets[i].recent_prices@).change_pct)
}

/// The input positions of the entries of a ranking, in ranking order.
pub open spec fn positions(ranked: Seq<RankedAsset>) -> Seq<usize> {
    Seq::new(ranked.len(), |t: int| ranked[t].position)
}

/// Whether `entry` is the entry at place `t` of a ranking of `assets`: it
/// holds the asset at its position, resolved, and that asset's risk band,
/// category bucket and trend, and its last price and change as text.
pub open spec fn is_entry_of(entry: RankedAsset, assets: Seq<AssetMetrics>, t: int) -> bool {
    &&& entry.rank == t
    &&& entry.position < assets.len()
    &&& entry.asset@ == resolved(assets[entry.position as int]@)
    &&& entry.risk_band == risk_band_of(entry.asset.risk_score)
    &&& entry.category == bucket_of(entry.asset.category_key@)
    &&& entry.trend == trend_of(entry.asset.change_pct)
    &&& entry.last_price_text@ == price_text(entry.asset.last_price)
    &&& entry.change_text@ == change_text(entry.asset.change_pct)
}

/// Whether key `a` is strictly better than key `b`: a greater change is
/// better, and any change is better than none.
pub open spec fn key_above(a: Option<i128>, b: Option<i128>) -> bool {
    match (a, b) {
        (Some(x), Some(y)) => x > y,
        (Some(_), None) => true,
        (None, _) => false,
    }
}

/// Whether the asset at input position `i` is ranked ahead of the one at
/// `j`: it has the better key, or the same key and the earlier position.
pub open spec fn placed_before(keys: Seq<Option<i128>>, i: int, j: int) -> bool {
    key_above(keys[i], keys[j]) || (keys[i] == keys[j] && i < j)
}

/// Whether input position `j` occurs in `order`.
pub open spec fn listed(order: Seq<usize>, j: int) -> bool {
    exists|t: int| 0 <= t < order.len() && order[t] == j
}

/// Whether `order` ranks the first `n` keys and keeps the best `top_k`: it
/// lists `min(top_k, n)` input positions, each ranked ahead of all that
/// follow it and of every position that it leaves out.
pub open spec fn ranks_first(
    keys: Seq<Option<i128>>,
    n: int,
    top_k: int,
    order: Seq<usize>,
) -> bool {
    &&& order.len() == if top_k < n {
        top_k
    } else {
        n
    }
    &&& forall|t: int| 0 <= t < order.len() ==> (#[trigger] order[t]) < n
    &&& forall|s: int, t: int|
        0 <= s < t < order.len() ==> placed_before(
            keys,
            #[trigger] order[s] as int,
            #[trigger] order[t] as int,
        )
    &&& forall|j: int, t: int|
        #![trigger order[t], listed(order, j)]
        0 <= j < n && 0 <= t < order.len() && !listed(order, j) ==> placed_before(
            keys,
            order[t] as int,
            j,
        )
}

/// Whether `order` is the ranking of `keys` cut off after `top_k` entries.
pub open spec fn is_ranking(keys: Seq<Option<i128>>, top_k: int, order: Seq<usize>) -> bool {
    ranks_first(keys, keys.len() as int, top_k, order)
}

/// Whatever is ranked ahead of a listed position is listed too, and
/// earlier: if the asset at `i` is placed before the one that the ranking
/// has at place `t`, then the ranking has `i` at a place before `t`.
pub proof fn lemma_ranking_respects_order(
    keys: Seq<Option<i128>>,
    top_k: int,
    order: Seq<usize>,
    i: int,
    t: int,
)
    requires
        is_ranking(keys, top_k, order),
        0 <= i < keys.len(),
        0 <= t < order.len(),
        placed_before(keys, i, order[t] as int),
    ensures
        exists|s: int| 0 <= s < t && order[s] == i,
{
    if listed(order, i) {
        let s = choose|s: int| 0 <= s < order.len() && order[s] == i;
        if t < s {
            assert(placed_before(keys, order[t] as int, order[s] as int));
        }
        assert(s < t);
    } else {
        assert(placed_before(keys, order[t] as int, i));
    }
}

/// The ranking is stable: of two listed assets with the same key, the one
/// that came first in the input comes first in the ranking.
pub proof fn lemma_ranking_stable(
    keys: Seq<Option<i128>>,
    top_k: int,
    order: Seq<usize>,
    s: int,
    t: int,
)
    requires
        is_ranking(keys, top_k, order),
        0 <= s < order.len(),
        0 <= t < order.len(),
        keys[order[s] as int] == keys[order[t] as int],
        order[s] < order[t],
    ensures
        s < t,
{
    if t < s {
        assert(placed_before(keys, order[t] as int, order[s] as int));
    }
}

/// An asset without a percent change never outranks one that has a change:
/// where the ranking lists an asset without a key at place `t`, it lists
/// every asset that has a key at an earlier place.
pub proof fn lemma_absent_ranks_last(
    keys: Seq<Option<i128>>,
    top_k: int,
    order: Seq<usize>,
    i: int,
    t: int,
)
    requires
        is_ranking(keys, top_k, order),
        0 <= i < keys.len(),
        0 <= t < order.len(),
        keys[i] is Some,
        keys[order[t] as int] is None,
    ensures
        exists|s: int| 0 <= s < t && order[s] == i,
{
    lemma_ranking_respects_order(keys, top_k, order, i, t);
}

/// No asset that the ranking leaves out has a better key than one that it
/// lists.
pub proof fn lemma_ranking_keeps_the_best(
    keys: Seq<Option<i128>>,
    top_k: int,
    order: Seq<usize>,
    j: int,
    t: int,
)
    requires
        is_ranking(keys, top_k, order),
        0 <= j < keys.len(),
        0 <= t < order.len(),
        !listed(order, j),
    ensures
        !key_above(keys[j], keys[order[t] as int]),
{
    assert(placed_before(keys, order[t] as int, j));
}

/// The input positions of the assets that are placed before the one at
/// `i`.
pub open spec fn ahead_of(keys: Seq<Option<i128>>, i: int) -> Set<int> {
    Set::new(|j: int| 0 <= j < keys.len() && placed_before(keys, j, i))
}

/// The input positions that `order` lists at its first `t` places.
spec fn listed_until(order: Seq<usize>, t: int) -> Set<int> {
    Set::new(|j: int| exists|s: int| 0 <= s < t && s < order.len() && order[s] == j)
}

proof fn lemma_listed_until_counts(keys: Seq<Option<i128>>, top_k: int, order: Seq<usize>, t: int)
    requires
        is_ranking(keys, top_k, order),
        0 <= t <= order.len(),
    ensures
        listed_until(order, t).finite(),
        listed_until(order, t).len() == t,
    decreases t,
{
    if t == 0 {
        assert(listed_until(order, 0) =~= Set::<int>::empty());
    } else {
        lemma_listed_until_counts(keys, top_k, order, t - 1);
        let before = listed_until(order, t - 1);
        let last = order[t - 1] as int;
        assert(!before.contains(last)) by {
            if before.contains(last) {
                let s = choose|s: int| 0 <= s < t - 1 && s < order.len() && order[s] == last;
                assert(placed_before(keys, order[s] as int, order[t - 1] as int));
            }
        }
        assert(listed_until(order, t) =~= before.insert(last)) by {
            assert forall|j: int| before.insert(last).contains(j) implies listed_until(
                order,
                t,
            ).contains(j) by {
                if j == last {
                    assert(order[t - 1] == j);
                } else {
                    let s = choose|s: int| 0 <= s < t - 1 && s < order.len() && order[s] == j;
                    assert(0 <= s < t && order[s] == j);
                }
            }
        }
    }
}

/// The place of an asset in the ranking is the number of assets that are
/// placed before it: where the ranking has the asset at `i` at place `t`,
/// exactly `t` assets have a better key, or the same key and an earlier
/// position.
pub proof fn lemma_place_counts_those_ahead(
    keys: Seq<Option<i128>>,
    top_k: int,
    order: Seq<usize>,
    t: int,
)
    requires
        is_ranking(keys, top_k, order),
        0 <= t < order.len(),
    ensures
        ahead_of(keys, order[t] as int).finite(),
        ahead_of(keys, order[t] as int).len() == t,
{
    lemma_listed_until_counts(keys, top_k, order, t);
    let i = order[t] as int;
    assert(ahead_of(keys, i) =~= listed_until(order, t)) by {
        assert forall|j: int| ahead_of(keys, i).contains(j) implies listed_until(order, t).contains(
            j,
        ) by {
            lemma_ranking_respects_order(keys, top_k, order, j, t);
            let s = choose|s: int| 0 <= s < t && order[s] == j;
            assert(0 <= s < t && s < order.len() && order[s] == j);
        }
        assert forall|j: int| listed_until(order, t).contains(j) implies ahead_of(keys, i).contains(
            j,
        ) by {
            let s = choose|s: int| 0 <= s < t && s < order.len() && order[s] == j;
            assert(placed_before(keys, order[s] as int, order[t] as int));
        }
    }
}

/// A shorter ranking is the beginning of a longer one: with cut-offs
/// `shorter <= longer`, the ranking cut off after `shorter` entries agrees
/// place by place with the one cut off after `longer`.
pub proof fn lemma_ranking_is_prefix(
    keys: Seq<Option<i128>>,
    shorter: int,
    longer: int,
    a: Seq<usize>,
    b: Seq<usize>,
)
    requires
        shorter <= longer,
        is_ranking(keys, shorter, a),
        is_ranking(keys, longer, b),
    ensures
        a.len() <= b.len(),
        a == b.take(a.len() as int),
{
    lemma_rankings_agree(keys, shorter, longer, a, b, a.len() as int);
    assert(a =~= b.take(a.len() as int));
}

/// The ranking is determined by the keys and the cut-off.
pub proof fn lemma_ranking_unique(
    keys: Seq<Option<i128>>,
    top_k: int,
    a: Seq<usize>,
    b: Seq<usize>,
)
    requires
        is_ranking(keys, top_k, a),
        is_ranking(keys, top_k, b),
    ensures
        a == b,
{
    lemma_ranking_is_prefix(keys, top_k, top_k, a, b);
    assert(b.take(b.len() as int) =~= b);
}

proof fn lemma_rankings_agree(
    keys: Seq<Option<i128>>,
    shorter: int,
    longer: int,
    a: Seq<usize>,
    b: Seq<usize>,
    upto: int,
)
    requires
        shorter <= longer,
        is_ranking(keys, shorter, a),
        is_ranking(keys, longer, b),
        0 <= upto <= a.len(),
    ensures
        a.len() <= b.len(),
        forall|u: int| 0 <= u < upto ==> a[u] == b[u],
    decreases upto,
{
    if upto > 0 {
        lemma_rankings_agree(keys, shorter, longer, a, b, upto - 1);
        let u = upto - 1;
        if a[u] != b[u] {
            // Each of the two is placed before the other.
            assert(placed_before(keys, a[u] as int, b[u] as int)) by {
                if listed(a, b[u] as int) {
                    let s = choose|s: int| 0 <= s < a.len() && a[s] == b[u];
                    if s < u {
                        assert(a[s] == b[s]);
                        assert(placed_before(keys, b[s] as int, b[u] as int));
                    } else {
                        assert(placed_before(keys, a[u] as int, a[s] as int));
                    }
                }
            }
            assert(placed_before(keys, b[u] as int, a[u] as int)) by {
                if listed(b, a[u] as int) {
                    let s = choose|s: int| 0 <= s < b.len() && b[s] == a[u];
                    if s < u {
                        assert(a[s] == b[s]);
                        assert(placed_before(keys, a[s] as int, a[u] as int));
                    } else {
                        assert(placed_before(keys, b[u] as int, b[s] as int));
                    }
                }
            }
        }
    }
}

/// The number of top performers that a dashboard shows where nothing else
/// is asked for.
pub const TOP_PERFORMERS: usize = 6;

/// Compares two sort keys.
pub fn key_is_above(a: Option<i128>, b: Option<i128>) -> (above: bool)
    ensures
        above == key_above(a, b),
{
    match a {
        Some(x) => match b {
            Some(y) => x > y,
            None => true,
        },
        None => false,
    }
}

/// Ranks the input positions `0..keys.len()` by key, best first, equal keys
/// in input order, and returns the first `top_k` of them.
pub fn rank_positions(keys: &Vec<Option<i128>>, top_k: usize) -> (order: Vec<usize>)
    ensures
        is_ranking(keys@, top_k as int, order@),
{
    let n: usize = keys.len();
    let mut order: Vec<usize> = Vec::new();
    if top_k == 0 {
        return order;
    }
    let mut i: usize = 0;
    while i < n
        invariant
            i <= n,
            n == keys.len(),
            top_k > 0,
            ranks_first(keys@, i as int, top_k as int, order@),
            i <= top_k ==> forall|j: int| 0 <= j < i ==> listed(order@, j),
        decreases n - i,
    {
        let ghost before = order@;
        let m: usize = order.len();
        let key = keys[i];
        let mut p: usize = m;
        while p > 0 && key_is_above(key, keys[order[p - 1]])
            invariant
                p <= m,
                m == order.len(),
                order@ == before,
                i < n,
                n == keys.len(),
                key == keys[i as int],
                forall|t: int| 0 <= t < m ==> (#[trigger] order[t]) < i,
                forall|t: int| p <= t < m ==> key_above(key, keys[(#[trigger] order[t]) as int]),
            decreases p,
        {
            p -= 1;
        }
        assert(forall|t: int| 0 <= t < p ==> !key_above(key, keys[(#[trigger] before[t]) as int]))
            by {
            if p > 0 {
                assert forall|t: int| 0 <= t < p implies !key_above(
                    key,
                    keys[(#[trigger] before[t]) as int],
                ) by {
                    if t < p - 1 {
                        assert(placed_before(keys@, before[t] as int, before[p - 1] as int));
                    }
                }
            }
        }
        if p < top_k {
            order.insert(p, i);
            assert(order@ == before.insert(p as int, i));
            if order.len() > top_k {
                order.pop();
            }
            proof {
                let after = order@;
                assert forall|t: int| 0 <= t < after.len() implies (#[trigger] after[t]) < i + 1 by {
                    if t < p {
                        assert(after[t] == before[t]);
                    } else if t > p {
                        assert(after[t] == before[t - 1]);
                    }
                }
                assert forall|s: int, t: int| 0 <= s < t < after.len() implies placed_before(
                    keys@,
                    #[trigger] after[s] as int,
                    #[trigger] after[t] as int,
                ) by {
                    if t < p {
                        assert(after[s] == before[s] && after[t] == before[t]);
                    } else if t == p {
                        assert(after[s] == before[s]);
                        assert(before[s] < i);
                    } else if s < p {
                        assert(after[s] == before[s] && after[t] == before[t - 1]);
                    } else if s == p {
                        assert(after[t] == before[t - 1]);
                    } else {
                        assert(after[s] == before[s - 1] && after[t] == before[t - 1]);
                    }
                }
                assert forall|j: int, t: int|
                    #![trigger after[t], listed(after, j)]
                    0 <= j < i + 1 && 0 <= t < after.len() && !listed(after, j) implies placed_before(
                    keys@,
                    after[t] as int,
                    j,
                ) by {
                    assert(after[p as int] == i);
                    assert(j != i);
                    if listed(before, j) {
                        // `j` was dropped from the end to make room.
                        let u = choose|u: int| 0 <= u < before.len() && before[u] == j;
                        if u < p {
                            assert(after[u] == before[u]);
                            assert(false);
                        } else if u + 1 < after.len() {
                            assert(after[u + 1] == before[u]);
                            assert(false);
                        }
                        assert(u == m - 1 && m == top_k);
                        if t < p {
                            assert(after[t] == before[t]);
                            assert(placed_before(keys@, before[t] as int, before[u] as int));
                        } else if t > p {
                            assert(after[t] == before[t - 1]);
                            assert(placed_before(keys@, before[t - 1] as int, before[u] as int));
                        } else {
                            assert(key_above(key, keys[before[u] as int]));
                        }
                    } else {
                        assert(i > top_k);
                        assert(m == top_k);
                        if t < p {
                            assert(after[t] == before[t]);
                        } else if t > p {
                            assert(after[t] == before[t - 1]);
                        } else {
                            assert(key_above(key, keys[before[p as int] as int]));
                            assert(placed_before(keys@, before[p as int] as int, j));
                        }
                    }
                }
                if i + 1 <= top_k {
                    assert forall|j: int| 0 <= j < i + 1 implies listed(after, j) by {
                        if j == i {
                            assert(after[p as int] == j);
                        } else {
                            assert(listed(before, j));
                            let u = choose|u: int| 0 <= u < before.len() && before[u] == j;
                            if u < p {
                                assert(after[u] == before[u]);
                            } else {
                                assert(after[u + 1] == before[u]);
                            }
                        }
                    }
                }
            }
        } else {
            proof {
                assert(p == m && m == top_k);
                assert(!listed(before, i as int));
                assert forall|j: int, t: int|
                    #![trigger before[t], listed(before, j)]
                    0 <= j < i + 1 && 0 <= t < before.len() && !listed(before, j) implies placed_before(
                    keys@,
                    before[t] as int,
                    j,
                ) by {
                    if j == i {
                        assert(!key_above(key, keys[before[t] as int]));
                        assert(before[t] < i);
                    }
                }
            }
        }
        i += 1;
    }
    order
}

/// Ranks `assets` by percent change, best first, and returns the first
/// `top_k` of them. The percent change of each asset is computed from its
/// recent prices; an asset without one ranks below every asset that has
/// one. Assets with the same change keep the order in which they were
/// given. An empty input gives an empty ranking.
pub fn rank(assets: &Vec<AssetMetrics>, top_k: usize) -> (ranked: Vec<RankedAsset>)
    ensures
        ranked.len() == if top_k < assets.len() {
            top_k
        } else {
            assets.len()
        },
        is_ranking(sort_keys(assets@), top_k as int, positions(ranked@)),
        forall|t: int| 0 <= t < ranked.len() ==> is_entry_of(#[trigger] ranked[t], assets@, t),
{
    let n: usize = assets.len();
    let mut keys: Vec<Option<i128>> = Vec::new();
    let mut i: usize = 0;
    while i < n
        invariant
            i <= n,
            n == assets.len(),
            keys.len() == i,
            forall|j: int| 0 <= j < i ==> (#[trigger] keys[j]) == sort_keys(assets@)[j],
        decreases n - i,
    {
        keys.push(resolve(&assets[i].recent_prices).change_pct);
        i += 1;
    }
    assert(keys@ =~= sort_keys(assets@));
    let order = rank_positions(&keys, top_k);
    let mut ranked: Vec<RankedAsset> = Vec::new();
    let mut t: usize = 0;
    while t < order.len()
        invariant
            t <= order.len(),
            ranked.len() == t,
            is_ranking(sort_keys(assets@), top_k as int, order@),
            forall|u: int| 0 <= u < t ==> (#[trigger] ranked[u]).position == order[u],
            forall|u: int| 0 <= u < t ==> is_entry_of(#[trigger] ranked[u], assets@, u),
        decreases order.len() - t,
    {
        let position: usize = order[t];
        let asset = assets[position].to_resolved();
        let band = risk_band(asset.risk_score);
        let category = category_bucket(asset.category_key.as_str());
        let direction = trend(asset.change_pct);
        let last_price_text = format_price(asset.last_price);
        let change_text = format_change(asset.change_pct);
        ranked.push(
            RankedAsset {
                asset,
                rank: t,
                position,
                risk_band: band,
                category,
                trend: direction,
                last_price_text,
                change_text,
            },
        );
        t += 1;
    }
    assert(positions(ranked@) =~= order@);
    ranked
}

} // verus!
