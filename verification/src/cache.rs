//! The aggregation cache: two independent ticker-keyed maps, one for
//! details aggregates and one for raw price series.
//!
//! The cache-aside protocol is: look the ticker up; on a miss, fetch and
//! assemble outside the cache, then insert. The contracts here give the
//! protocol its guarantee — once a ticker is present it is served verbatim
//! on every later lookup, so a second request for the same ticker does no
//! further fetching — while the surrounding runtime decides locking and
//! concurrency. Entries are only ever added or replaced, never removed.

use vstd::prelude::*;

use crate::table::TickerTable;
use crate::types::DetailsResponse;
use crate::types::HistoricalPrices;

verus! {

/// The two caches: per-ticker details aggregates and per-ticker raw price
/// series.
pub struct Cache {
    etfs_cache: TickerTable<DetailsResponse>,
    prices_cache: TickerTable<Vec<HistoricalPrices>>,
}

impl Cache {
    pub closed spec fn wf(self) -> bool {
        &&& self.etfs_cache.wf()
        &&& self.prices_cache.wf()
    }

    /// The details aggregate cached for a ticker, if any.
    pub closed spec fn spec_details(self, t: Seq<char>) -> Option<DetailsResponse> {
        self.etfs_cache.spec_get(t)
    }

    /// The price series cached for a ticker, if any.
    pub closed spec fn spec_prices(self, t: Seq<char>) -> Option<Vec<HistoricalPrices>> {
        self.prices_cache.spec_get(t)
    }

    /// An empty cache.
    pub fn new() -> (r: Self)
        ensures
            r.wf(),
            forall|t: Seq<char>| #[trigger] r.spec_details(t) is None,
            forall|t: Seq<char>| #[trigger] r.spec_prices(t) is None,
    {
        Cache { etfs_cache: TickerTable::new(), prices_cache: TickerTable::new() }
    }

    /// Returns the cached details aggregate for a ticker, verbatim.
    pub fn get_details(&self, ticker: &str) -> (r: Option<&DetailsResponse>)
        requires
            self.wf(),
        ensures
            match r {
                Some(d) => self.spec_details(ticker@) == Some(*d),
                None => self.spec_details(ticker@) is None,
            },
    {
        self.etfs_cache.get(ticker)
    }

    /// Caches the details aggregate for a ticker; other tickers keep their
    /// entries.
    pub fn insert_details(&mut self, ticker: String, d: DetailsResponse)
        requires
            old(self).wf(),
        ensures
            final(self).wf(),
            final(self).spec_details(ticker@) == Some(d),
            forall|t: Seq<char>|
                t != ticker@ ==> #[trigger] final(self).spec_details(t) == old(self).spec_details(
                    t,
                ),
            forall|t: Seq<char>| #[trigger] final(self).spec_prices(t) == old(self).spec_prices(t),
    {
        self.etfs_cache.insert(ticker, d)
    }

    /// Returns the cached price series for a ticker, verbatim.
    pub fn get_prices(&self, ticker: &str) -> (r: Option<&Vec<HistoricalPrices>>)
        requires
            self.wf(),
        ensures
            match r {
                Some(p) => self.spec_prices(ticker@) == Some(*p),
                None => self.spec_prices(ticker@) is None,
            },
    {
        self.prices_cache.get(ticker)
    }

    /// Caches the price series for a ticker; other tickers keep their
    /// entries. A failed price fetch is never cached, so later calls retry.
    pub fn insert_prices(&mut self, ticker: String, prices: Vec<HistoricalPrices>)
        requires
            old(self).wf(),
        ensures
            final(self).wf(),
            final(self).spec_prices(ticker@) == Some(prices),
            forall|t: Seq<char>|
                t != ticker@ ==> #[trigger] final(self).spec_prices(t) == old(self).spec_prices(t),
            forall|t: Seq<char>| #[trigger] final(self).spec_details(t) == old(self).spec_details(
                t,
            ),
    {
        self.prices_cache.insert(ticker, prices)
    }
}

} // verus!
