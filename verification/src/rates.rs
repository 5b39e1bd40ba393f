//! The table of exchange rates against the reporting currency.
//!
//! A rate is an integer count of millionths: `1_090_000` says that one unit
//! of the reporting currency buys 1.09 units of the quoted currency.
//! Currency codes are told apart without regard to ASCII case.

use crate::text::{fold_ascii, fold_key};
use vstd::prelude::*;

verus! {

/// Millionths in a rate of one.
pub const RATE_SCALE: u64 = 1_000_000;

/// One quoted currency with its rate. The code is held folded to ASCII
/// lower case.
#[derive(Clone, Debug)]
struct Quote {
    code: Vec<char>,
    rate_micros: u64,
}

/// Exchange rates by currency code. Every rate in the table is positive.
#[derive(Clone, Debug)]
pub struct RateTable {
    quotes: Vec<Quote>,
}

/// Whether two character vectors hold the same text.
fn same_text(a: &Vec<char>, b: &Vec<char>) -> (same: bool)
    ensures
        same == (a@ == b@),
{
    if a.len() != b.len() {
        return false;
    }
    let mut i: usize = 0;
    while i < a.len()
        invariant
            i <= a.len(),
            a.len() == b.len(),
            forall|j: int| 0 <= j < i ==> a[j] == b[j],
        decreases a.len() - i,
    {
        if a[i] != b[i] {
            return false;
        }
        i += 1;
    }
    assert(a@ =~= b@);
    true
}

impl RateTable {
    /// Whether the quote at `i` is a positive rate for the currency with the
    /// folded code `key`.
    spec fn quoted_at(&self, key: Seq<char>, i: int) -> bool {
        0 <= i < self.quotes.len() && self.quotes[i].code@ == key && self.quotes[i].rate_micros > 0
    }

    /// Whether the quote at `i` is the first one for `key`.
    spec fn first_quoted_at(&self, key: Seq<char>, i: int) -> bool {
        self.quoted_at(key, i) && forall|j: int| 0 <= j < i ==> !self.quoted_at(key, j)
    }

    /// The table as a map from currency codes, folded to ASCII lower case,
    /// to rates in millionths.
    pub closed spec fn view(&self) -> Map<Seq<char>, u64> {
        Map::new(
            |key: Seq<char>| exists|i: int| self.quoted_at(key, i),
            |key: Seq<char>| self.quotes[choose|i: int| self.first_quoted_at(key, i)].rate_micros,
        )
    }

    /// The rate that the table holds for `code`, if it quotes that currency.
    pub open spec fn rate_for(&self, code: Seq<char>) -> Option<u64> {
        if self@.contains_key(fold_ascii(code)) {
            Some(self@[fold_ascii(code)])
        } else {
            None
        }
    }

    proof fn lemma_first_quote_exists(&self, key: Seq<char>, i: int)
        requires
            self.quoted_at(key, i),
        ensures
            exists|f: int| self.first_quoted_at(key, f),
        decreases i,
    {
        if exists|j: int| 0 <= j < i && self.quoted_at(key, j) {
            let j = choose|j: int| 0 <= j < i && self.quoted_at(key, j);
            self.lemma_first_quote_exists(key, j);
        } else {
            assert(self.first_quoted_at(key, i));
        }
    }

    /// The rate under `key` is that of the first quote for `key`.
    proof fn lemma_view_at(&self, key: Seq<char>, i: int)
        requires
            self.first_quoted_at(key, i),
        ensures
            self@.contains_key(key),
            self@[key] == self.quotes[i].rate_micros,
    {
        assert(self.quoted_at(key, i));
        let c = choose|c: int| self.first_quoted_at(key, c);
        assert(c == i) by {
            if c < i {
                assert(!self.quoted_at(key, c));
            } else if i < c {
                assert(!self.quoted_at(key, i));
            }
        }
    }

    /// Every rate in the table is positive.
    pub proof fn lemma_rates_positive(&self)
        ensures
            forall|key: Seq<char>| self@.contains_key(key) ==> #[trigger] self@[key] > 0,
    {
        assert forall|key: Seq<char>| self@.contains_key(key) implies #[trigger] self@[key] > 0 by {
            let i = choose|i: int| self.quoted_at(key, i);
            self.lemma_first_quote_exists(key, i);
            let f = choose|f: int| self.first_quoted_at(key, f);
            self.lemma_view_at(key, f);
        }
    }

    /// A table that quotes no currency.
    pub fn new() -> (table: RateTable)
        ensures
            table@ == Map::<Seq<char>, u64>::empty(),
    {
        let table = RateTable { quotes: Vec::new() };
        assert(table@ =~= Map::<Seq<char>, u64>::empty());
        table
    }

    /// The place of the first quote for the folded code `key`, if there is
    /// one.
    fn find(&self, key: &Vec<char>) -> (place: Option<usize>)
        ensures
            match place {
                Some(i) => self.first_quoted_at(key@, i as int),
                None => forall|i: int| !self.quoted_at(key@, i),
            },
    {
        let mut i: usize = 0;
        while i < self.quotes.len()
            invariant
                i <= self.quotes.len(),
                forall|j: int| 0 <= j < i ==> !self.quoted_at(key@, j),
            decreases self.quotes.len() - i,
        {
            if self.quotes[i].rate_micros > 0 && same_text(&self.quotes[i].code, key) {
                return Some(i);
            }
            i += 1;
        }
        None
    }

    /// Looks up the rate of a currency, its code compared without regard to
    /// ASCII case.
    pub fn rate_of(&self, code: &str) -> (rate: Option<u64>)
        ensures
            rate == self.rate_for(code@),
            rate matches Some(r) ==> r > 0,
    {
        let key = fold_key(code);
        match self.find(&key) {
            Some(i) => {
                proof {
                    self.lemma_view_at(key@, i as int);
                }
                Some(self.quotes[i].rate_micros)
            },
            None => None,
        }
    }

    /// Sets the rate of a currency, replacing the rate that the table held
    /// for it. A rate of zero converts nothing: it is refused, the table
    /// stays as it is, and the result is `false`.
    pub fn set_rate(&mut self, code: &str, rate_micros: u64) -> (accepted: bool)
        ensures
            accepted == (rate_micros > 0),
            accepted ==> final(self)@ == old(self)@.insert(fold_ascii(code@), rate_micros),
            !accepted ==> final(self)@ == old(self)@,
    {
        if rate_micros == 0 {
            return false;
        }
        let key = fold_key(code);
        let ghost before = *self;
        let ghost goal = before@.insert(key@, rate_micros);
        match self.find(&key) {
            Some(i) => {
                self.quotes[i].rate_micros = rate_micros;
                proof {
                    assert forall|k: Seq<char>, j: int| self.quoted_at(k, j) == before.quoted_at(k, j) by {}
                    assert(self.first_quoted_at(key@, i as int)) by {
                        assert forall|j: int| 0 <= j < i implies !self.quoted_at(key@, j) by {
                            assert(!before.quoted_at(key@, j));
                        }
                    }
                    self.lemma_view_at(key@, i as int);
                    assert forall|k: Seq<char>| #[trigger] self@.contains_key(k) implies goal.contains_key(k)
                        && self@[k] == goal[k] by {
                        if k != key@ {
                            let c = choose|c: int| self.quoted_at(k, c);
                            self.lemma_first_quote_exists(k, c);
                            let f = choose|f: int| self.first_quoted_at(k, f);
                            self.lemma_view_at(k, f);
                            assert(before.first_quoted_at(k, f)) by {
                                assert(before.quoted_at(k, f));
                                assert forall|j: int| 0 <= j < f implies !before.quoted_at(k, j) by {
                                    assert(!self.quoted_at(k, j));
                                }
                            }
                            before.lemma_view_at(k, f);
                            assert(f != i);
                        }
                    }
                    assert forall|k: Seq<char>| goal.contains_key(k) implies #[trigger] self@.contains_key(k) by {
                        if k != key@ {
                            let d = choose|d: int| before.quoted_at(k, d);
                            assert(self.quoted_at(k, d));
                        }
                    }
                    assert(self@ =~= goal);
                }
            },
            None => {
                self.quotes.push(Quote { code: key, rate_micros });
                proof {
                    let n = before.quotes.len() as int;
                    assert(self.first_quoted_at(key@, n)) by {
                        assert forall|j: int| 0 <= j < n implies !self.quoted_at(key@, j) by {
                            assert(!before.quoted_at(key@, j));
                        }
                    }
                    self.lemma_view_at(key@, n);
                    assert forall|k: Seq<char>, j: int| before.quoted_at(k, j) implies self.quoted_at(k, j) by {}
                    assert forall|k: Seq<char>| #[trigger] self@.contains_key(k) implies goal.contains_key(k)
                        && self@[k] == goal[k] by {
                        if k != key@ {
                            let c = choose|c: int| self.quoted_at(k, c);
                            self.lemma_first_quote_exists(k, c);
                            let f = choose|f: int| self.first_quoted_at(k, f);
                            self.lemma_view_at(k, f);
                            assert(f != n);
                            assert(before.quoted_at(k, f));
                            assert(before.first_quoted_at(k, f)) by {
                                assert forall|j: int| 0 <= j < f implies !before.quoted_at(k, j) by {
                                    assert(!self.quoted_at(k, j));
                                }
                            }
                            before.lemma_view_at(k, f);
                        }
                    }
                    assert forall|k: Seq<char>| goal.contains_key(k) implies #[trigger] self@.contains_key(k) by {
                        if k != key@ {
                            let d = choose|d: int| before.quoted_at(k, d);
                            assert(self.quoted_at(k, d));
                        }
                    }
                    assert(self@ =~= goal);
                }
            },
        }
        true
    }
}

} // verus!
