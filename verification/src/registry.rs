//! The provider registry: merges the catalogs of all configured providers
//! into one published fund list and one ticker-to-provider mapping, and
//! routes per-ticker requests to the owning provider.
//!
//! Providers are identified by their index in the catalog list handed to
//! [`ETFHoldings::new`]; a provider whose catalog fetch failed is passed as
//! `None` and simply skipped, partial availability being preferred over
//! total failure. On a ticker collision across providers the
//! last-registered provider wins — a policy choice, not an accident.

use vstd::prelude::*;

use crate::text::str_eq;
use crate::types::ETFListItem;
use crate::types::Error;

verus! {

/// Whether a catalog lists a ticker.
pub open spec fn contains_ticker(items: Seq<ETFListItem>, t: Seq<char>) -> bool {
    exists|i: int| 0 <= i < items.len() && (#[trigger] items[i]).ticker@ == t
}

/// The item views of a list of optional catalogs.
pub open spec fn cv(catalogs: Seq<Option<Vec<ETFListItem>>>) -> Seq<Option<Seq<ETFListItem>>> {
    catalogs.map_values(
        |c: Option<Vec<ETFListItem>>|
            match c {
                Some(v) => Some(v@),
                None => None,
            },
    )
}

/// Every item of every successful catalog, in registration order.
pub open spec fn all_items(catalogs: Seq<Option<Seq<ETFListItem>>>) -> Seq<ETFListItem>
    decreases catalogs.len(),
{
    if catalogs.len() == 0 {
        Seq::empty()
    } else {
        all_items(catalogs.drop_last()) + (match catalogs.last() {
            Some(items) => items,
            None => Seq::empty(),
        })
    }
}

/// The provider owning a ticker: the last one whose catalog lists it.
pub open spec fn catalog_owner(catalogs: Seq<Option<Seq<ETFListItem>>>, t: Seq<char>) -> Option<
    int,
>
    decreases catalogs.len(),
{
    if catalogs.len() == 0 {
        None
    } else {
        match catalogs.last() {
            Some(items) => if contains_ticker(items, t) {
                Some(catalogs.len() - 1)
            } else {
                catalog_owner(catalogs.drop_last(), t)
            },
            None => catalog_owner(catalogs.drop_last(), t),
        }
    }
}

/// The owner recorded by an ordered list of (ticker, provider) pairs: the
/// last pair with the ticker.
pub open spec fn owners_owner(pairs: Seq<(String, usize)>, t: Seq<char>) -> Option<int>
    decreases pairs.len(),
{
    if pairs.len() == 0 {
        None
    } else if pairs.last().0@ == t {
        Some(pairs.last().1 as int)
    } else {
        owners_owner(pairs.drop_last(), t)
    }
}

/// A ticker has an owner exactly when some successful catalog lists it,
/// and the owner is a provider whose catalog does.
pub proof fn lemma_owner_iff_listed(catalogs: Seq<Option<Seq<ETFListItem>>>, t: Seq<char>)
    ensures
        catalog_owner(catalogs, t) is Some <==> contains_ticker(all_items(catalogs), t),
        catalog_owner(catalogs, t) matches Some(p) ==> 0 <= p < catalogs.len() && (catalogs[p]
            matches Some(items) && contains_ticker(items, t)),
    decreases catalogs.len(),
{
    if catalogs.len() > 0 {
        lemma_owner_iff_listed(catalogs.drop_last(), t);
        let prev = all_items(catalogs.drop_last());
        let tail: Seq<ETFListItem> = match catalogs.last() {
            Some(items) => items,
            None => Seq::empty(),
        };
        assert(all_items(catalogs) == prev + tail);
        assert(contains_ticker(prev + tail, t) <==> (contains_ticker(prev, t) || contains_ticker(
            tail,
            t,
        ))) by {
            if contains_ticker(prev, t) {
                let i = choose|i: int| 0 <= i < prev.len() && prev[i].ticker@ == t;
                assert((prev + tail)[i].ticker@ == t);
            }
            if contains_ticker(tail, t) {
                let i = choose|i: int| 0 <= i < tail.len() && tail[i].ticker@ == t;
                assert((prev + tail)[prev.len() + i].ticker@ == t);
            }
            if contains_ticker(prev + tail, t) {
                let i = choose|i: int|
                    0 <= i < (prev + tail).len() && (prev + tail)[i].ticker@ == t;
                if i < prev.len() {
                    assert(prev[i].ticker@ == t);
                } else {
                    assert(tail[i - prev.len()].ticker@ == t);
                }
            }
        }
        assert forall|p: int|
            0 <= p < catalogs.drop_last().len() implies catalogs.drop_last()[p] == catalogs[p] by {}
    }
}

/// The registry: the published fund list and the ticker-to-provider pairs
/// in registration order.
pub struct ETFHoldings {
    etf_list: Vec<ETFListItem>,
    owners: Vec<(String, usize)>,
}

impl ETFHoldings {
    /// The published fund list.
    pub closed spec fn list(self) -> Seq<ETFListItem> {
        self.etf_list@
    }

    /// The provider owning a ticker, if any.
    pub closed spec fn spec_owner(self, t: Seq<char>) -> Option<int> {
        owners_owner(self.owners@, t)
    }

    /// Builds the registry from each provider's catalog, `None` standing
    /// for a provider whose catalog fetch failed (it is skipped). The
    /// published list concatenates every successful catalog in order; on a
    /// ticker collision the last-registered provider wins.
    #[verifier::loop_isolation(false)]
    pub fn new(catalogs: &Vec<Option<Vec<ETFListItem>>>) -> (r: Self)
        ensures
            r.list() == all_items(cv(catalogs@)),
            forall|t: Seq<char>| #[trigger] r.spec_owner(t) == catalog_owner(cv(catalogs@), t),
    {
        let ghost cs = cv(catalogs@);
        let mut etf_list: Vec<ETFListItem> = Vec::new();
        let mut owners: Vec<(String, usize)> = Vec::new();
        let mut p: usize = 0;
        while p < catalogs.len()
            invariant
                0 <= p <= catalogs@.len(),
                etf_list@ == all_items(cv(catalogs@.take(p as int))),
                forall|t: Seq<char>| #[trigger] owners_owner(owners@, t) == catalog_owner(
                    cv(catalogs@.take(p as int)),
                    t,
                ),
            decreases catalogs@.len() - p,
        {
            proof {
                assert(cv(catalogs@.take(p + 1)) =~= cv(catalogs@.take(p as int)).push(
                    cv(catalogs@)[p as int],
                ));
                assert(cv(catalogs@.take(p + 1)).drop_last() =~= cv(catalogs@.take(p as int)));
            }
            match &catalogs[p] {
                Some(items) => {
                    let ghost iv = items@;
                    let mut j: usize = 0;
                    while j < items.len()
                        invariant
                            0 <= j <= iv.len(),
                            etf_list@ == all_items(cv(catalogs@.take(p as int))) + iv.take(
                                j as int,
                            ),
                            forall|t: Seq<char>| #[trigger] owners_owner(owners@, t) == (
                            if contains_ticker(iv.take(j as int), t) {
                                Some(p as int)
                            } else {
                                catalog_owner(cv(catalogs@.take(p as int)), t)
                            }),
                        decreases iv.len() - j,
                    {
                        proof {
                            assert(iv.take(j + 1) =~= iv.take(j as int).push(iv[j as int]));
                        }
                        let it = &items[j];
                        let ghost old_owners = owners@;
                        let ghost old_list = etf_list@;
                        etf_list.push(ETFListItem { ticker: it.ticker.clone(), name: it.name.clone() });
                        owners.push((it.ticker.clone(), p));
                        proof {
                            assert(etf_list@[old_list.len() as int] == iv[j as int]);
                            assert(etf_list@ =~= all_items(cv(catalogs@.take(p as int))) + iv.take(
                                j + 1,
                            ));
                            assert(owners@.drop_last() =~= old_owners);
                            assert(owners@.last().0@ == iv[j as int].ticker@);
                            assert(owners@.last().1 == p);
                            assert forall|t: Seq<char>| #[trigger] owners_owner(owners@, t) == (
                            if contains_ticker(iv.take(j + 1), t) {
                                Some(p as int)
                            } else {
                                catalog_owner(cv(catalogs@.take(p as int)), t)
                            }) by {
                                if iv[j as int].ticker@ == t {
                                    assert(contains_ticker(iv.take(j + 1), t)) by {
                                        assert(iv.take(j + 1)[j as int].ticker@ == t);
                                    }
                                } else {
                                    assert(owners_owner(owners@, t) == owners_owner(
                                        old_owners,
                                        t,
                                    ));
                                    assert(contains_ticker(iv.take(j + 1), t)
                                        == contains_ticker(iv.take(j as int), t)) by {
                                        let s1 = iv.take(j + 1);
                                        let s0 = iv.take(j as int);
                                        if contains_ticker(s1, t) {
                                            let q = choose|q: int|
                                                0 <= q < s1.len() && (#[trigger] s1[q]).ticker@
                                                    == t;
                                            assert(q != j);
                                            assert(s0[q].ticker@ == t);
                                        }
                                        if contains_ticker(s0, t) {
                                            let q = choose|q: int|
                                                0 <= q < s0.len() && (#[trigger] s0[q]).ticker@
                                                    == t;
                                            assert(s1[q].ticker@ == t);
                                        }
                                    }
                                }
                            }
                        }
                        j += 1;
                    }
                    proof {
                        assert(iv.take(iv.len() as int) =~= iv);
                        assert(cv(catalogs@.take(p + 1)).last() == Some(iv));
                        assert forall|t: Seq<char>| #[trigger] owners_owner(owners@, t)
                            == catalog_owner(cv(catalogs@.take(p + 1)), t) by {}
                        assert(etf_list@ =~= all_items(cv(catalogs@.take(p + 1))));
                    }
                },
                None => {
                    proof {
                        assert(cv(catalogs@.take(p + 1)).last() is None);
                        assert(etf_list@ =~= all_items(cv(catalogs@.take(p + 1))));
                    }
                },
            }
            p += 1;
        }
        proof {
            assert(catalogs@.take(catalogs@.len() as int) =~= catalogs@);
            assert(cv(catalogs@.take(catalogs@.len() as int)) =~= cv(catalogs@));
        }
        ETFHoldings { etf_list, owners }
    }

    /// Returns the published fund list.
    pub fn etf_list(&self) -> (r: Vec<ETFListItem>)
        ensures
            r@ == self.list(),
    {
        let mut r: Vec<ETFListItem> = Vec::new();
        let mut i: usize = 0;
        while i < self.etf_list.len()
            invariant
                0 <= i <= self.etf_list@.len(),
                r@.len() == i,
                forall|q: int| 0 <= q < i ==> r@[q] == self.etf_list@[q],
            decreases self.etf_list@.len() - i,
        {
            let it = &self.etf_list[i];
            r.push(ETFListItem { ticker: it.ticker.clone(), name: it.name.clone() });
            i += 1;
        }
        proof {
            assert(r@ =~= self.etf_list@);
        }
        r
    }

    /// Routes a ticker to its owning provider, the last-registered one
    /// that listed it; a ticker no provider claims is `NotFound` — never a
    /// generic failure.
    #[verifier::loop_isolation(false)]
    pub fn lookup_manager(&self, ticker: &str) -> (r: Result<usize, Error>)
        ensures
            match r {
                Ok(p) => self.spec_owner(ticker@) == Some(p as int),
                Err(e) => e is NotFound && self.spec_owner(ticker@) is None,
            },
    {
        let ghost pairs = self.owners@;
        let mut j: usize = self.owners.len();
        proof {
            assert(pairs.take(pairs.len() as int) =~= pairs);
        }
        while j > 0
            invariant
                0 <= j <= pairs.len(),
                owners_owner(pairs, ticker@) == owners_owner(pairs.take(j as int), ticker@),
            decreases j,
        {
            proof {
                assert(pairs.take(j as int).drop_last() =~= pairs.take(j - 1));
                assert(pairs.take(j as int).last() == pairs[j - 1]);
            }
            let pair = &self.owners[j - 1];
            if str_eq(pair.0.as_str(), ticker) {
                return Ok(pair.1);
            }
            j -= 1;
        }
        proof {
            assert(pairs.take(0) =~= Seq::<(String, usize)>::empty());
        }
        Err(Error::NotFound)
    }
}

} // verus!
