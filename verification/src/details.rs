//! Assembly of the per-ticker details aggregate: partition a fund's
//! holdings into equities and the rest, sum non-equity weights by asset
//! class, and attach the fetched price series.
//!
//! The assembly is total: a missing series for one holding never fails the
//! whole aggregate — that holding simply carries no series, and every other
//! holding keeps exactly the series fetched for it.

use vstd::prelude::*;

use crate::chart::details_wf;
use crate::series::wf_series;
use crate::text::str_eq;
use crate::types::DetailsEquityHolding;
use crate::types::DetailsResponse;
use crate::types::ETF;
use crate::types::HistoricalPrices;
use crate::types::Holding;

verus! {

/// The only asset class with price enrichment.
pub open spec fn is_equity(h: Holding) -> bool {
    h.asset_class@ == "Equity"@
}

/// The fund's equity holdings, in provider order.
pub open spec fn equities(hs: Seq<Holding>) -> Seq<Holding>
    decreases hs.len(),
{
    if hs.len() == 0 {
        Seq::empty()
    } else {
        let rest = equities(hs.drop_last());
        if is_equity(hs.last()) {
            rest.push(hs.last())
        } else {
            rest
        }
    }
}

/// The non-equity asset classes, in first-occurrence order.
pub open spec fn other_classes(hs: Seq<Holding>) -> Seq<Seq<char>>
    decreases hs.len(),
{
    if hs.len() == 0 {
        Seq::empty()
    } else {
        let prev = other_classes(hs.drop_last());
        if !is_equity(hs.last()) && !prev.contains(hs.last().asset_class@) {
            prev.push(hs.last().asset_class@)
        } else {
            prev
        }
    }
}

/// The summed weight of the non-equity holdings of one asset class.
pub open spec fn class_weight(hs: Seq<Holding>, c: Seq<char>) -> int
    decreases hs.len(),
{
    if hs.len() == 0 {
        0
    } else {
        class_weight(hs.drop_last(), c) + (if !is_equity(hs.last()) && hs.last().asset_class@
            == c {
            hs.last().weight as int
        } else {
            0
        })
    }
}

/// A class absent from the listed classes has weight zero.
proof fn lemma_class_weight_unlisted(pre: Seq<Holding>, c: Seq<char>)
    requires
        !other_classes(pre).contains(c),
    ensures
        class_weight(pre, c) == 0,
    decreases pre.len(),
{
    if pre.len() > 0 {
        let prev = other_classes(pre.drop_last());
        assert(!prev.contains(c)) by {
            if prev.contains(c) {
                let q = choose|q: int| 0 <= q < prev.len() && prev[q] == c;
                if !is_equity(pre.last()) && !prev.contains(pre.last().asset_class@) {
                    assert(other_classes(pre)[q] == c);
                } else {
                    assert(other_classes(pre)[q] == c);
                }
                assert(other_classes(pre).contains(c));
            }
        }
        assert(!(!is_equity(pre.last()) && pre.last().asset_class@ == c)) by {
            if !is_equity(pre.last()) && pre.last().asset_class@ == c {
                if prev.contains(pre.last().asset_class@) {
                    assert(prev.contains(c));
                } else {
                    assert(other_classes(pre).last() == c);
                    assert(other_classes(pre).contains(c)) by {
                        assert(other_classes(pre)[other_classes(pre).len() - 1] == c);
                    }
                }
            }
        }
        lemma_class_weight_unlisted(pre.drop_last(), c);
    }
}

proof fn lemma_equities_take_le(hs: Seq<Holding>, i: int)
    requires
        0 <= i <= hs.len(),
    ensures
        equities(hs.take(i)).len() <= equities(hs).len(),
    decreases hs.len() - i,
{
    if i == hs.len() {
        assert(hs.take(i) =~= hs);
    } else {
        assert(hs.take(i + 1) =~= hs.take(i).push(hs[i]));
        assert(hs.take(i + 1).drop_last() =~= hs.take(i));
        lemma_equities_take_le(hs, i + 1);
    }
}

/// The tickers whose price series the details aggregate wants: one per
/// equity holding, in provider order.
#[verifier::loop_isolation(false)]
pub fn equity_tickers(etf: &ETF) -> (r: Vec<String>)
    ensures
        r@.len() == equities(etf.holdings@).len(),
        forall|i: int|
            0 <= i < r@.len() ==> (#[trigger] r@[i])@ == equities(etf.holdings@)[i].ticker@,
{
    let ghost hs = etf.holdings@;
    let mut r: Vec<String> = Vec::new();
    let mut i: usize = 0;
    while i < etf.holdings.len()
        invariant
            0 <= i <= hs.len(),
            r@.len() == equities(hs.take(i as int)).len(),
            forall|q: int|
                0 <= q < r@.len() ==> (#[trigger] r@[q])@ == equities(hs.take(i as int))[q].ticker@,
        decreases hs.len() - i,
    {
        proof {
            assert(hs.take(i + 1) =~= hs.take(i as int).push(hs[i as int]));
            assert(hs.take(i + 1).drop_last() =~= hs.take(i as int));
        }
        let h = &etf.holdings[i];
        if str_eq(h.asset_class.as_str(), "Equity") {
            r.push(h.ticker.clone());
        }
        i += 1;
    }
    proof {
        assert(hs.take(hs.len() as int) =~= hs);
    }
    r
}

/// Assembles the details aggregate from the fund record and the fetched
/// price series: `equity_prices[q]` is the (possibly failed, hence absent)
/// series fetched for the `q`-th equity holding, `etf_prices` the fund's
/// own. Total — a missing series never fails the aggregate, and each
/// holding keeps exactly its own series.
#[verifier::loop_isolation(false)]
pub fn details_response(
    etf: &ETF,
    equity_prices: Vec<Option<Vec<HistoricalPrices>>>,
    etf_prices: Option<Vec<HistoricalPrices>>,
) -> (d: DetailsResponse)
    requires
        equity_prices@.len() == equities(etf.holdings@).len(),
        etf.holdings@.len() <= 0x8000_0000,
        forall|q: int|
            0 <= q < equity_prices@.len() ==> ((#[trigger] equity_prices@[q]) matches Some(p)
                ==> wf_series(p@)),
        etf_prices matches Some(p) ==> wf_series(p@),
    ensures
        d.ticker == etf.ticker,
        d.name == etf.name,
        d.prices == etf_prices,
        d.equity_holdings@.len() == equities(etf.holdings@).len(),
        forall|q: int|
            0 <= q < d.equity_holdings@.len() ==> {
                let h = equities(etf.holdings@)[q];
                &&& (#[trigger] d.equity_holdings@[q]).ticker == h.ticker
                &&& d.equity_holdings@[q].name == h.name
                &&& d.equity_holdings@[q].weight == h.weight
                &&& d.equity_holdings@[q].location == h.location
                &&& d.equity_holdings@[q].exchange == h.exchange
                &&& d.equity_holdings@[q].prices == equity_prices@[q]
            },
        crate::chart::tickers_view(
            d.other_holdings@.map_values(|p: (String, u64)| p.0),
        ) == other_classes(etf.holdings@),
        forall|q: int|
            0 <= q < d.other_holdings@.len() ==> (#[trigger] d.other_holdings@[q]).1
                == class_weight(etf.holdings@, d.other_holdings@[q].0@),
        details_wf(d),
{
    let ghost hs = etf.holdings@;
    let ghost eq_prices = equity_prices@;
    let mut rest = equity_prices;
    let mut equity_holdings: Vec<DetailsEquityHolding> = Vec::new();
    let mut other: Vec<(String, u64)> = Vec::new();
    let mut i: usize = 0;
    while i < etf.holdings.len()
        invariant
            0 <= i <= hs.len(),
            equity_holdings@.len() == equities(hs.take(i as int)).len(),
            equity_holdings@.len() + rest@.len() == eq_prices.len(),
            rest@ == eq_prices.subrange(equity_holdings@.len() as int, eq_prices.len() as int),
            forall|q: int|
                0 <= q < equity_holdings@.len() ==> {
                    let h = equities(hs.take(i as int))[q];
                    &&& (#[trigger] equity_holdings@[q]).ticker == h.ticker
                    &&& equity_holdings@[q].name == h.name
                    &&& equity_holdings@[q].weight == h.weight
                    &&& equity_holdings@[q].location == h.location
                    &&& equity_holdings@[q].exchange == h.exchange
                    &&& equity_holdings@[q].prices == eq_prices[q]
                },
            crate::chart::tickers_view(
                other@.map_values(|p: (String, u64)| p.0),
            ) == other_classes(hs.take(i as int)),
            forall|q: int|
                0 <= q < other@.len() ==> (#[trigger] other@[q]).1 == class_weight(
                    hs.take(i as int),
                    other@[q].0@,
                ),
            forall|q1: int, q2: int|
                0 <= q1 < q2 < other@.len() ==> other@[q1].0@ != other@[q2].0@,
            forall|q: int|
                0 <= q < other@.len() ==> (#[trigger] other@[q]).1 <= i * 0xFFFF_FFFFu64,
        decreases hs.len() - i,
    {
        proof {
            assert(hs.take(i + 1) =~= hs.take(i as int).push(hs[i as int]));
            assert(hs.take(i + 1).drop_last() =~= hs.take(i as int));
        }
        let h = &etf.holdings[i];
        if str_eq(h.asset_class.as_str(), "Equity") {
            let ghost ec = equity_holdings@.len() as int;
            proof {
                lemma_equities_take_le(hs, i + 1);
                assert(equities(hs.take(i + 1)) == equities(hs.take(i as int)).push(hs[i as int]));
                assert(ec + 1 <= eq_prices.len());
            }
            let p = rest.remove(0);
            proof {
                assert(eq_prices.subrange(ec, eq_prices.len() as int)[0] == eq_prices[ec]);
            }
            equity_holdings.push(
                DetailsEquityHolding {
                    ticker: h.ticker.clone(),
                    name: h.name.clone(),
                    weight: h.weight,
                    location: h.location.clone(),
                    exchange: h.exchange.clone(),
                    prices: p,
                },
            );
            proof {
                assert(rest@ =~= eq_prices.subrange(
                    equity_holdings@.len() as int,
                    eq_prices.len() as int,
                ));
                assert(equities(hs.take(i + 1)) == equities(hs.take(i as int)).push(
                    hs[i as int],
                ));
            }
        } else {
            // accumulate this class's weight
            let mut idx: usize = 0;
            let mut found = false;
            while idx < other.len() && !found
                invariant
                    0 <= idx <= other@.len(),
                    !found ==> forall|q: int| 0 <= q < idx ==> (#[trigger] other@[q]).0@
                        != h.asset_class@,
                    found ==> idx < other@.len() && other@[idx as int].0@ == h.asset_class@,
                decreases other@.len() - idx + (if found {
                    0int
                } else {
                    1int
                }),
            {
                if str_eq(other[idx].0.as_str(), h.asset_class.as_str()) {
                    found = true;
                } else {
                    idx += 1;
                }
            }
            let ghost ov = other@;
            let ghost old_keys = crate::chart::tickers_view(ov.map_values(|p: (String, u64)| p.0));
            proof {
                assert forall|q: int| 0 <= q < ov.len() implies old_keys[q] == (
                #[trigger] ov[q]).0@ by {
                    assert(ov.map_values(|p: (String, u64)| p.0)[q] == ov[q].0);
                }
                if found {
                    assert(old_keys.contains(h.asset_class@)) by {
                        assert(old_keys[idx as int] == h.asset_class@);
                    }
                } else {
                    if old_keys.contains(h.asset_class@) {
                        let q = choose|q: int|
                            0 <= q < old_keys.len() && old_keys[q] == h.asset_class@;
                        assert(ov[q].0@ == h.asset_class@);
                        assert(false);
                    }
                }
            }
            if found {
                let cur: u64 = other[idx].1;
                other.set(idx, (h.asset_class.clone(), cur + h.weight as u64));
            } else {
                other.push((h.asset_class.clone(), h.weight as u64));
            }
            proof {
                let new_keys = crate::chart::tickers_view(
                    other@.map_values(|p: (String, u64)| p.0),
                );
                assert forall|q: int| 0 <= q < other@.len() implies new_keys[q] == (
                #[trigger] other@[q]).0@ by {
                    assert(other@.map_values(|p: (String, u64)| p.0)[q] == other@[q].0);
                }
                if found {
                    assert(other_classes(hs.take(i + 1)) == old_keys);
                    assert(new_keys =~= old_keys);
                } else {
                    assert(other_classes(hs.take(i + 1)) == old_keys.push(h.asset_class@));
                    assert(new_keys =~= old_keys.push(h.asset_class@));
                }
                assert(crate::chart::tickers_view(
                    other@.map_values(|p: (String, u64)| p.0),
                ) == other_classes(hs.take(i + 1)));
                assert forall|q: int| 0 <= q < other@.len() implies (#[trigger] other@[q]).1
                    == class_weight(hs.take(i + 1), other@[q].0@) && other@[q].1 <= (i + 1)
                    * 0xFFFF_FFFFu64 by {
                    let c = other@[q].0@;
                    if (found && q == idx) || (!found && q == ov.len()) {
                        assert(c == h.asset_class@);
                        assert(class_weight(hs.take(i + 1), c) == class_weight(
                            hs.take(i as int),
                            c,
                        ) + hs[i as int].weight);
                        if found {
                            assert(ov[q].1 == class_weight(hs.take(i as int), c));
                        } else {
                            assert(class_weight(hs.take(i as int), c) == 0) by {
                                lemma_class_weight_unlisted(hs.take(i as int), c);
                            }
                        }
                    } else {
                        assert(other@[q] == ov[q]);
                        assert(c != h.asset_class@) by {
                            if found {
                                assert(ov[idx as int].0@ == h.asset_class@);
                            }
                        }
                        assert(class_weight(hs.take(i + 1), c) == class_weight(
                            hs.take(i as int),
                            c,
                        ));
                    }
                }
            }
        }
        i += 1;
    }
    proof {
        assert(hs.take(hs.len() as int) =~= hs);
        assert(rest@.len() == 0);
    }
    DetailsResponse {
        ticker: etf.ticker.clone(),
        name: etf.name.clone(),
        equity_holdings,
        other_holdings: other,
        prices: etf_prices,
    }
}

} // verus!
