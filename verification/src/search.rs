//! Search over assets by symbol or category.

use crate::asset::{AssetMetrics, AssetMetricsView};
use crate::text::{fold_ascii, fold_key, normalize_key, normalized};
use vstd::prelude::*;

verus! {

/// Whether `needle` stands in `hay` from position `i` on.
pub open spec fn occurs_at(hay: Seq<char>, needle: Seq<char>, i: int) -> bool {
    0 <= i && i + needle.len() <= hay.len() && hay.subrange(i, i + needle.len()) == needle
}

/// Whether `needle` stands somewhere in `hay`.
pub open spec fn contains_text(hay: Seq<char>, needle: Seq<char>) -> bool {
    exists|i: int| occurs_at(hay, needle, i)
}

/// Whether `asset` answers the query: the query, trimmed and folded to
/// ASCII lower case, is empty or stands in the folded symbol or the folded
/// category key.
pub open spec fn matches_query(asset: AssetMetricsView, query: Seq<char>) -> bool {
    let q = normalized(query);
    q.len() == 0 || contains_text(fold_ascii(asset.symbol), q) || contains_text(
        fold_ascii(asset.category_key),
        q,
    )
}

/// Whether `found` lists, in increasing order, exactly the positions of the
/// assets that answer the query.
pub open spec fn is_search_result(assets: Seq<AssetMetrics>, query: Seq<char>, found: Seq<usize>) -> bool {
    &&& forall|t: int| 0 <= t < found.len() ==> (#[trigger] found[t]) < assets.len()
    &&& forall|s: int, t: int| 0 <= s < t < found.len() ==> found[s] < found[t]
    &&& forall|i: int|
        0 <= i < assets.len() ==> (matches_query(#[trigger] assets[i]@, query) <==> exists|t: int|
            0 <= t < found.len() && found[t] == i)
}

/// Tests whether `needle` stands in `hay` from position `i` on.
fn occurs_here(hay: &Vec<char>, needle: &Vec<char>, i: usize) -> (b: bool)
    requires
        i + needle.len() <= hay.len(),
    ensures
        b == occurs_at(hay@, needle@, i as int),
{
    let mut j: usize = 0;
    while j < needle.len()
        invariant
            j <= needle.len(),
            i + needle.len() <= hay.len(),
            forall|k: int| 0 <= k < j ==> hay[i + k] == needle[k],
        decreases needle.len() - j,
    {
        if hay[i + j] != needle[j] {
            assert(hay@.subrange(i as int, i + needle.len())[j as int] != needle[j as int]);
            return false;
        }
        j += 1;
    }
    assert(hay@.subrange(i as int, i + needle.len()) =~= needle@);
    true
}

/// Tests whether `needle` stands somewhere in `hay`.
pub fn contains_chars(hay: &Vec<char>, needle: &Vec<char>) -> (b: bool)
    ensures
        b == contains_text(hay@, needle@),
{
    if needle.len() == 0 {
        assert(hay@.subrange(0, 0) =~= needle@);
        assert(occurs_at(hay@, needle@, 0));
        return true;
    }
    if needle.len() > hay.len() {
        return false;
    }
    let last: usize = hay.len() - needle.len();
    let mut i: usize = 0;
    while i <= last
        invariant
            i <= last + 1,
            last == hay.len() - needle.len(),
            last < hay.len(),
            forall|k: int| 0 <= k < i ==> !occurs_at(hay@, needle@, k),
        decreases last + 1 - i,
    {
        if occurs_here(hay, needle, i) {
            return true;
        }
        i += 1;
    }
    false
}

/// Tests an asset against a query that is already trimmed and folded.
fn answers(asset: &AssetMetrics, folded_query: &Vec<char>) -> (b: bool)
    ensures
        b == (folded_query@.len() == 0 || contains_text(fold_ascii(asset@.symbol), folded_query@)
            || contains_text(fold_ascii(asset@.category_key), folded_query@)),
{
    if folded_query.len() == 0 {
        return true;
    }
    let symbol = fold_key(asset.symbol.as_str());
    if contains_chars(&symbol, folded_query) {
        return true;
    }
    let category = fold_key(asset.category_key.as_str());
    contains_chars(&category, folded_query)
}

/// Finds the assets that answer `query`: those whose symbol or category key
/// holds the query, white space around the query and the case of ASCII
/// letters aside. An empty query finds every asset. The result lists the
/// positions of the assets found, in the order of the input.
pub fn search(assets: &Vec<AssetMetrics>, query: &str) -> (found: Vec<usize>)
    ensures
        is_search_result(assets@, query@, found@),
{
    let q = normalize_key(query);
    let mut found: Vec<usize> = Vec::new();
    let mut i: usize = 0;
    while i < assets.len()
        invariant
            i <= assets.len(),
            q@ == normalized(query@),
            forall|t: int| 0 <= t < found.len() ==> (#[trigger] found[t]) < i,
            forall|s: int, t: int| 0 <= s < t < found.len() ==> found[s] < found[t],
            forall|k: int|
                0 <= k < i ==> (matches_query(#[trigger] assets[k]@, query@) <==> exists|t: int|
                    0 <= t < found.len() && found[t] == k),
        decreases assets.len() - i,
    {
        let ghost before = found@;
        if answers(&assets[i], &q) {
            found.push(i);
            assert(found[before.len() as int] == i);
        }
        proof {
            assert forall|k: int| 0 <= k < i + 1 implies (matches_query(
                #[trigger] assets[k]@,
                query@,
            ) <==> exists|t: int| 0 <= t < found.len() && found[t] == k) by {
                if k < i {
                    if matches_query(assets[k]@, query@) {
                        let t = choose|t: int| 0 <= t < before.len() && before[t] == k;
                        assert(found[t] == k);
                    }
                    if exists|t: int| 0 <= t < found.len() && found[t] == k {
                        let t = choose|t: int| 0 <= t < found.len() && found[t] == k;
                        assert(t < before.len());
                        assert(before[t] == k);
                    }
                }
            }
        }
        i += 1;
    }
    found
}

} // verus!
