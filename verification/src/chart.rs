//! Chart construction: merging a details aggregate's price series onto a
//! common timestamp axis, and normalizing the merged rows onto a shared
//! percentage scale.
//!
//! The merged chart keys one series per charted ticker, mapping-style: the
//! fund's own ticker always denotes the fund's series, and when several
//! equity holdings share a ticker the last one's series and weight win,
//! while the key keeps its first position.

use vstd::prelude::*;

use crate::align::align_closes;
use crate::align::all_wf;
use crate::align::common_ts;
use crate::align::is_aligned;
use crate::align::sv;
use crate::fixed::CLOSE_MAX;
use crate::fixed::PCT_BASE;
use crate::series::close_at;
use crate::series::copy_series;
use crate::series::ts_in;
use crate::series::wf_series;
use crate::text::str_eq;
use crate::types::ChartPrice;
use crate::types::DetailsEquityHolding;
use crate::types::DetailsResponse;
use crate::types::GoodError;
use crate::types::HistoricalPrices;

verus! {

/// A merged (and, after normalization, rescaled) chart: rows whose
/// `holding_prices` are parallel to `tickers`.
#[derive(Debug, Clone, PartialEq)]
pub struct MergedPrices {
    pub tickers: Vec<String>,
    pub rows: Vec<ChartPrice>,
}

/// The character sequences of a list of strings.
pub open spec fn tickers_view(ts: Seq<String>) -> Seq<Seq<char>> {
    ts.map_values(|s: String| s@)
}

/// Every series a details aggregate carries is well-formed.
pub open spec fn details_wf(d: DetailsResponse) -> bool {
    &&& (d.prices matches Some(p) ==> wf_series(p@))
    &&& forall|i: int|
        0 <= i < d.equity_holdings@.len() ==> ((#[trigger] d.equity_holdings@[i]).prices matches
        Some(p) ==> wf_series(p@))
}

/// The charted tickers: first-occurrence order over the equity holdings
/// that carry a series, the fund's own ticker excluded (it keys the fund's
/// series).
pub open spec fn chart_keys(hs: Seq<DetailsEquityHolding>, etf: Seq<char>) -> Seq<Seq<char>>
    decreases hs.len(),
{
    if hs.len() == 0 {
        Seq::empty()
    } else {
        let prev = chart_keys(hs.drop_last(), etf);
        let h = hs.last();
        if h.prices is Some && h.ticker@ != etf && !prev.contains(h.ticker@) {
            prev.push(h.ticker@)
        } else {
            prev
        }
    }
}

/// The series charted for a ticker: the last holding with that ticker that
/// carries one.
pub open spec fn last_series_for(hs: Seq<DetailsEquityHolding>, t: Seq<char>) -> Seq<
    HistoricalPrices,
>
    decreases hs.len(),
{
    if hs.len() == 0 {
        Seq::empty()
    } else if hs.last().ticker@ == t && hs.last().prices is Some {
        hs.last().prices->Some_0@
    } else {
        last_series_for(hs.drop_last(), t)
    }
}

/// The weight used for a charted ticker: the last equity holding with that
/// ticker.
pub open spec fn last_weight_for(hs: Seq<DetailsEquityHolding>, t: Seq<char>) -> u32
    decreases hs.len(),
{
    if hs.len() == 0 {
        0
    } else if hs.last().ticker@ == t {
        hs.last().weight
    } else {
        last_weight_for(hs.drop_last(), t)
    }
}

/// The aligner's input for a details aggregate: the fund's series first,
/// then each charted ticker's series.
pub open spec fn chart_series(d: DetailsResponse) -> Seq<Seq<HistoricalPrices>> {
    Seq::new(
        1 + chart_keys(d.equity_holdings@, d.ticker@).len(),
        |k: int|
            if k == 0 {
                d.prices->Some_0@
            } else {
                last_series_for(d.equity_holdings@, chart_keys(d.equity_holdings@, d.ticker@)[k - 1])
            },
    )
}

/// The inner-join relation between chart rows and their input series
/// (`gs[0]` is the fund's series, `gs[k + 1]` the `k`-th holding's).
pub open spec fn is_chart_aligned(gs: Seq<Seq<HistoricalPrices>>, rows: Seq<ChartPrice>) -> bool {
    &&& forall|i: int|
        0 <= i < rows.len() ==> (#[trigger] rows[i]).holding_prices@.len() + 1 == gs.len()
    &&& forall|i: int, j: int|
        0 <= i < j < rows.len() ==> rows[i].timestamp < rows[j].timestamp
    &&& forall|i: int|
        0 <= i < rows.len() ==> common_ts(gs, (#[trigger] rows[i]).timestamp as int)
    &&& forall|i: int|
        0 <= i < rows.len() ==> (#[trigger] rows[i]).etf_price == close_at(
            gs[0],
            rows[i].timestamp as int,
        )
    &&& forall|i: int, k: int|
        0 <= i < rows.len() && 0 <= k < gs.len() - 1 ==> (#[trigger] rows[i].holding_prices@[k])
            == close_at(gs[k + 1], rows[i].timestamp as int)
    &&& forall|t: int|
        #[trigger] common_ts(gs, t) ==> exists|i: int|
            0 <= i < rows.len() && (#[trigger] rows[i]).timestamp == t
}

/// Every series reachable through `last_series_for` is well-formed.
proof fn lemma_last_series_wf(hs: Seq<DetailsEquityHolding>, t: Seq<char>)
    requires
        forall|i: int|
            0 <= i < hs.len() ==> ((#[trigger] hs[i]).prices matches Some(p) ==> wf_series(p@)),
    ensures
        wf_series(last_series_for(hs, t)),
    decreases hs.len(),
{
    if hs.len() == 0 {
        assert(wf_series(Seq::<HistoricalPrices>::empty()));
    } else if hs.last().ticker@ == t && hs.last().prices is Some {
        assert(hs[hs.len() - 1].prices matches Some(p) ==> wf_series(p@));
    } else {
        assert(forall|i: int|
            0 <= i < hs.drop_last().len() ==> #[trigger] hs.drop_last()[i] == hs[i]);
        lemma_last_series_wf(hs.drop_last(), t);
    }
}

/// Merges the aggregate's price series onto their common timestamps.
/// Fails exactly when the fund's own series is absent; otherwise the rows
/// satisfy the inner-join relation against [`chart_series`], with raw
/// (unnormalized) close values.
#[verifier::loop_isolation(false)]
pub fn merge_chart_prices(details: &DetailsResponse) -> (r: Result<MergedPrices, GoodError>)
    requires
        details_wf(*details),
    ensures
        match r {
            Ok(m) => {
                &&& details.prices is Some
                &&& tickers_view(m.tickers@) == chart_keys(
                    details.equity_holdings@,
                    details.ticker@,
                )
                &&& is_chart_aligned(chart_series(*details), m.rows@)
            },
            Err(e) => {
                &&& e is Generic
                &&& details.prices is None
            },
        },
{
    let etf_prices = match &details.prices {
        Some(p) => p,
        None => {
            return Err(GoodError::Generic(String::from_str("ETF Price not available!")));
        },
    };
    let ghost hs = details.equity_holdings@;
    let ghost etf = details.ticker@;

    // collect one series per charted ticker; on a repeated ticker the later
    // series replaces the earlier one, mapping-style
    let mut keys: Vec<String> = Vec::new();
    let mut all_series: Vec<Vec<HistoricalPrices>> = Vec::new();
    all_series.push(copy_series(etf_prices));
    let mut i: usize = 0;
    while i < details.equity_holdings.len()
        invariant
            0 <= i <= hs.len(),
            all_series@.len() == keys@.len() + 1,
            all_series@[0]@ == details.prices->Some_0@,
            tickers_view(keys@) == chart_keys(hs.take(i as int), etf),
            forall|idx: int|
                0 <= idx < keys@.len() ==> (#[trigger] all_series@[idx + 1])@ == last_series_for(
                    hs.take(i as int),
                    keys@[idx]@,
                ),
            forall|idx: int| 0 <= idx < keys@.len() ==> (#[trigger] keys@[idx])@ != etf,
            forall|idx1: int, idx2: int|
                0 <= idx1 < idx2 < keys@.len() ==> keys@[idx1]@ != keys@[idx2]@,
        decreases hs.len() - i,
    {
        proof {
            assert(hs.take(i + 1) =~= hs.take(i as int).push(hs[i as int]));
            assert(hs.take(i + 1).drop_last() =~= hs.take(i as int));
            assert(hs.take(i + 1).last() == hs[i as int]);
        }
        let h = &details.equity_holdings[i];
        match &h.prices {
            Some(p) => {
                if !str_eq(h.ticker.as_str(), details.ticker.as_str()) {
                    // look up an existing key for this ticker
                    let mut idx: usize = 0;
                    let mut found = false;
                    while idx < keys.len()
                        invariant
                            0 <= idx <= keys@.len(),
                            !found ==> forall|q: int| 0 <= q < idx ==> (#[trigger] keys@[q])@
                                != h.ticker@,
                            found ==> idx < keys@.len() && keys@[idx as int]@ == h.ticker@,
                        decreases keys@.len() - idx + (if found {
                            0int
                        } else {
                            1int
                        }),
                    {
                        if str_eq(keys[idx].as_str(), h.ticker.as_str()) {
                            found = true;
                            break ;
                        }
                        idx += 1;
                    }
                    proof {
                        if !found {
                            assert(!tickers_view(keys@).contains(h.ticker@)) by {
                                if tickers_view(keys@).contains(h.ticker@) {
                                    let q = choose|q: int|
                                        0 <= q < tickers_view(keys@).len() && tickers_view(keys@)[q]
                                            == h.ticker@;
                                    assert(keys@[q]@ == h.ticker@);
                                }
                            }
                        } else {
                            assert(tickers_view(keys@).contains(h.ticker@)) by {
                                assert(tickers_view(keys@)[idx as int] == h.ticker@);
                            }
                        }
                    }
                    if found {
                        all_series.set(idx + 1, copy_series(p));
                    } else {
                        keys.push(h.ticker.clone());
                        all_series.push(copy_series(p));
                    }
                    proof {
                        assert(tickers_view(keys@) =~= chart_keys(hs.take(i + 1), etf));
                    }
                }
            },
            None => {},
        }
        proof {
            assert forall|idx: int| 0 <= idx < keys@.len() implies (#[trigger] all_series@[idx
                + 1])@ == last_series_for(hs.take(i + 1), keys@[idx]@) by {
                let t = keys@[idx]@;
                if hs[i as int].ticker@ == t && hs[i as int].prices is Some {
                    assert(last_series_for(hs.take(i + 1), t) == hs[i as int].prices->Some_0@);
                } else {
                    assert(last_series_for(hs.take(i + 1), t) == last_series_for(
                        hs.take(i as int),
                        t,
                    ));
                }
            }
        }
        i += 1;
    }
    proof {
        assert(hs.take(hs.len() as int) =~= hs);
    }

    // align on the common timestamps
    proof {
        assert(sv(all_series@) =~= chart_series(*details)) by {
            assert forall|k: int| 0 <= k < all_series@.len() implies sv(all_series@)[k]
                == chart_series(*details)[k] by {
                if k == 0 {
                } else {
                    assert(all_series@[(k - 1) + 1]@ == last_series_for(hs, keys@[k - 1]@));
                    assert(tickers_view(keys@)[k - 1] == keys@[k - 1]@);
                }
            }
        }
        assert(all_wf(sv(all_series@))) by {
            assert forall|k: int| 0 <= k < sv(all_series@).len() implies wf_series(
                #[trigger] sv(all_series@)[k],
            ) by {
                if k == 0 {
                } else {
                    lemma_last_series_wf(hs, chart_keys(hs, etf)[k - 1]);
                }
            }
        }
    }
    let aligned = align_closes(&all_series);
    let ghost gs = sv(all_series@);

    // repack each aligned row as a chart row: the fund's value first
    let mut rows: Vec<ChartPrice> = Vec::new();
    let mut i: usize = 0;
    while i < aligned.len()
        invariant
            0 <= i <= aligned@.len(),
            rows@.len() == i,
            forall|q: int|
                0 <= q < i ==> {
                    &&& (#[trigger] rows@[q]).timestamp == aligned@[q].timestamp
                    &&& rows@[q].etf_price == aligned@[q].values@[0]
                    &&& rows@[q].holding_prices@.len() + 1 == aligned@[q].values@.len()
                    &&& forall|k: int|
                        0 <= k < rows@[q].holding_prices@.len() ==> (
                        #[trigger] rows@[q].holding_prices@[k]) == aligned@[q].values@[k + 1]
                },
        decreases aligned@.len() - i,
    {
        let row = &aligned[i];
        let mut hp: Vec<u64> = Vec::new();
        let mut k: usize = 1;
        while k < row.values.len()
            invariant
                1 <= k <= row.values@.len(),
                hp@.len() == k - 1,
                forall|q: int| 0 <= q < k - 1 ==> #[trigger] hp@[q] == row.values@[q + 1],
            decreases row.values@.len() - k,
        {
            hp.push(row.values[k]);
            k += 1;
        }
        rows.push(ChartPrice { timestamp: row.timestamp, etf_price: row.values[0], holding_prices: hp });
        i += 1;
    }

    proof {
        assert(is_chart_aligned(chart_series(*details), rows@)) by {
            assert(is_aligned(gs, aligned@));
            assert(gs.len() >= 1);
            assert forall|q: int| 0 <= q < rows@.len() implies common_ts(
                gs,
                (#[trigger] rows@[q]).timestamp as int,
            ) by {
                assert(common_ts(gs, aligned@[q].timestamp as int));
            }
            assert forall|q: int| 0 <= q < rows@.len() implies (#[trigger] rows@[q]).etf_price
                == close_at(gs[0], rows@[q].timestamp as int) by {
                assert(aligned@[q].values@[0] == close_at(gs[0], aligned@[q].timestamp as int));
            }
            assert forall|q: int, k: int|
                0 <= q < rows@.len() && 0 <= k < gs.len() - 1 implies (#[trigger] rows@[q].holding_prices@[k])
                == close_at(gs[k + 1], rows@[q].timestamp as int) by {
                assert(aligned@[q].values@[k + 1] == close_at(gs[k + 1], aligned@[q].timestamp as int));
            }
            assert forall|t: int| #[trigger] common_ts(gs, t) implies exists|q: int|
                0 <= q < rows@.len() && (#[trigger] rows@[q]).timestamp == t by {
                let q = choose|q: int| 0 <= q < aligned@.len() && aligned@[q].timestamp == t;
                assert(rows@[q].timestamp == t);
            }
        }
    }
    Ok(MergedPrices { tickers: keys, rows })
}

/// The fund's value on the percentage axis: `v / first`, scaled so that the
/// first row lands exactly on `PCT_BASE` (the value `100.0`).
pub open spec fn norm_etf_value(v: int, first: int) -> int {
    (v * PCT_BASE) / first
}

/// A holding's value on the percentage axis. The multiplier anchors the
/// holding at the final timestamp to its reported weight times the fund's
/// overall move (`last_etf / first_etf`); the products are taken before the
/// single division, so no precision is lost to an intermediate quotient.
pub open spec fn norm_holding_value(
    v: int,
    w: int,
    last_etf: int,
    first_etf: int,
    last_h: int,
) -> int {
    (v * w * last_etf) / (first_etf * last_h)
}

/// Every value of every row is a positive in-range close.
pub open spec fn rows_in_range(rows: Seq<ChartPrice>) -> bool {
    &&& forall|i: int| 0 <= i < rows.len() ==> 1 <= (#[trigger] rows[i]).etf_price <= CLOSE_MAX
    &&& forall|i: int, k: int|
        0 <= i < rows.len() && 0 <= k < rows[i].holding_prices@.len() ==> 1 <= (
        #[trigger] rows[i].holding_prices@[k]) <= CLOSE_MAX
}

/// Whether every normalized holding value fits the fixed-point range.
pub open spec fn norm_fits(rows: Seq<ChartPrice>, weights: Seq<u32>) -> bool {
    forall|i: int, k: int|
        0 <= i < rows.len() && 0 <= k < weights.len() ==> norm_holding_value(
            (#[trigger] rows[i].holding_prices@[k]) as int,
            weights[k] as int,
            rows[rows.len() - 1].etf_price as int,
            rows[0].etf_price as int,
            rows[rows.len() - 1].holding_prices@[k] as int,
        ) <= u64::MAX
}

/// Rescales merged rows onto the shared percentage axis: the fund's line
/// starts at exactly `PCT_BASE`, and each holding's line is anchored so
/// that at the final timestamp it equals its weight times the fund's
/// overall move. Fails exactly when there are no rows, or when a
/// normalized value exceeds the fixed-point range.
#[verifier::loop_isolation(false)]
pub fn normalize_chart(rows: &Vec<ChartPrice>, weights: &Vec<u32>) -> (r: Result<
    Vec<ChartPrice>,
    GoodError,
>)
    requires
        forall|i: int|
            0 <= i < rows@.len() ==> (#[trigger] rows@[i]).holding_prices@.len() == weights@.len(),
        rows_in_range(rows@),
    ensures
        match r {
            Ok(out) => {
                &&& rows@.len() > 0
                &&& norm_fits(rows@, weights@)
                &&& out@.len() == rows@.len()
                &&& forall|i: int|
                    0 <= i < out@.len() ==> (#[trigger] out@[i]).timestamp == rows@[i].timestamp
                &&& forall|i: int|
                    0 <= i < out@.len() ==> (#[trigger] out@[i]).etf_price == norm_etf_value(
                        rows@[i].etf_price as int,
                        rows@[0].etf_price as int,
                    )
                &&& forall|i: int|
                    0 <= i < out@.len() ==> (#[trigger] out@[i]).holding_prices@.len()
                        == weights@.len()
                &&& forall|i: int, k: int|
                    0 <= i < out@.len() && 0 <= k < weights@.len() ==> (
                    #[trigger] out@[i].holding_prices@[k]) == norm_holding_value(
                        rows@[i].holding_prices@[k] as int,
                        weights@[k] as int,
                        rows@[rows@.len() - 1].etf_price as int,
                        rows@[0].etf_price as int,
                        rows@[rows@.len() - 1].holding_prices@[k] as int,
                    )
                &&& out@[0].etf_price == PCT_BASE
            },
            Err(e) => {
                &&& e is Generic
                &&& (rows@.len() == 0 || !norm_fits(rows@, weights@))
            },
        },
{
    if rows.len() == 0 {
        return Err(GoodError::Generic(String::from_str("no aligned prices to chart")));
    }
    let last: usize = rows.len() - 1;
    let fe: u64 = rows[0].etf_price;
    let le: u64 = rows[last].etf_price;

    let mut out: Vec<ChartPrice> = Vec::new();
    let mut i: usize = 0;
    while i < rows.len()
        invariant
            0 <= i <= rows@.len(),
            out@.len() == i,
            forall|q: int|
                0 <= q < i ==> (#[trigger] out@[q]).timestamp == rows@[q].timestamp,
            forall|q: int|
                0 <= q < i ==> (#[trigger] out@[q]).etf_price == norm_etf_value(
                    rows@[q].etf_price as int,
                    fe as int,
                ),
            forall|q: int|
                0 <= q < i ==> (#[trigger] out@[q]).holding_prices@.len() == weights@.len(),
            forall|q: int, k: int|
                0 <= q < i && 0 <= k < weights@.len() ==> (#[trigger] out@[q].holding_prices@[k])
                    == norm_holding_value(
                    rows@[q].holding_prices@[k] as int,
                    weights@[k] as int,
                    le as int,
                    fe as int,
                    rows@[last as int].holding_prices@[k] as int,
                ),
        decreases rows@.len() - i,
    {
        let row = &rows[i];
        let ve: u64 = row.etf_price;
        let num_e: u128 = (ve as u128) * (PCT_BASE as u128);
        proof {
            assert((ve as int) * (PCT_BASE as int) <= (CLOSE_MAX as int) * (PCT_BASE as int))
                by (nonlinear_arith)
                requires
                    1 <= ve <= CLOSE_MAX,
            ;
            vstd::arithmetic::div_mod::lemma_div_nonincreasing(num_e as int, fe as int);
        }
        let qe: u128 = num_e / (fe as u128);
        let mut hp: Vec<u64> = Vec::new();
        let mut k: usize = 0;
        while k < weights.len()
            invariant
                0 <= k <= weights@.len(),
                hp@.len() == k,
                forall|q: int|
                    0 <= q < k ==> (#[trigger] hp@[q]) == norm_holding_value(
                        rows@[i as int].holding_prices@[q] as int,
                        weights@[q] as int,
                        le as int,
                        fe as int,
                        rows@[last as int].holding_prices@[q] as int,
                    ),
            decreases weights@.len() - k,
        {
            let v: u64 = row.holding_prices[k];
            let w: u32 = weights[k];
            let lh: u64 = rows[last].holding_prices[k];
            proof {
                assert((v as int) * (w as int) * (le as int) < 0x1_0000_0000_0000_0000_0000_0000_0000_0000int
                    && (v as int) * (w as int) >= 0 && (v as int) * (w as int)
                    < 0x1_0000_0000_0000_0000_0000_0000_0000_0000int && (v as int) * (w as int) * (
                    le as int) >= 0 && (fe as int) * (lh as int) >= 1 && (fe as int) * (lh as int)
                    < 0x1_0000_0000_0000_0000_0000_0000_0000_0000int) by (nonlinear_arith)
                    requires
                        1 <= v <= CLOSE_MAX,
                        0 <= w < 0x1_0000_0000,
                        1 <= le <= CLOSE_MAX,
                        1 <= fe <= CLOSE_MAX,
                        1 <= lh <= CLOSE_MAX,
                        CLOSE_MAX == 10_000_000_000_000,
                ;
            }
            let num_h: u128 = (v as u128) * (w as u128) * (le as u128);
            let den_h: u128 = (fe as u128) * (lh as u128);
            let qh: u128 = num_h / den_h;
            if qh > u64::MAX as u128 {
                proof {
                    assert(!norm_fits(rows@, weights@)) by {
                        assert(norm_holding_value(
                            rows@[i as int].holding_prices@[k as int] as int,
                            weights@[k as int] as int,
                            rows@[rows@.len() - 1].etf_price as int,
                            rows@[0].etf_price as int,
                            rows@[rows@.len() - 1].holding_prices@[k as int] as int,
                        ) > u64::MAX);
                    }
                }
                return Err(GoodError::Generic(String::from_str("normalized price out of range")));
            }
            hp.push(qh as u64);
            k += 1;
        }
        out.push(ChartPrice { timestamp: row.timestamp, etf_price: qe as u64, holding_prices: hp });
        i += 1;
    }
    proof {
        assert forall|q: int, k: int|
            0 <= q < rows@.len() && 0 <= k < weights@.len() implies norm_holding_value(
            (#[trigger] rows@[q].holding_prices@[k]) as int,
            weights@[k] as int,
            rows@[rows@.len() - 1].etf_price as int,
            rows@[0].etf_price as int,
            rows@[rows@.len() - 1].holding_prices@[k] as int,
        ) <= u64::MAX by {
            assert(out@[q].holding_prices@[k] == norm_holding_value(
                rows@[q].holding_prices@[k] as int,
                weights@[k] as int,
                le as int,
                fe as int,
                rows@[last as int].holding_prices@[k] as int,
            ));
        }
        assert(out@[0].etf_price == PCT_BASE) by {
            assert(out@[0].etf_price == ((fe as int) * (PCT_BASE as int)) / (fe as int));
            assert((fe as int) * (PCT_BASE as int) == (PCT_BASE as int) * (fe as int))
                by (nonlinear_arith);
            vstd::arithmetic::div_mod::lemma_div_by_multiple(PCT_BASE as int, fe as int);
        }
    }
    Ok(out)
}

/// The display-metadata keys: first occurrence of every equity holding's
/// ticker, in order.
pub open spec fn detail_keys(hs: Seq<DetailsEquityHolding>) -> Seq<Seq<char>>
    decreases hs.len(),
{
    if hs.len() == 0 {
        Seq::empty()
    } else {
        let prev = detail_keys(hs.drop_last());
        if !prev.contains(hs.last().ticker@) {
            prev.push(hs.last().ticker@)
        } else {
            prev
        }
    }
}

/// The display name recorded for a ticker: the last equity holding with
/// that ticker.
pub open spec fn last_name_for(hs: Seq<DetailsEquityHolding>, t: Seq<char>) -> Seq<char>
    decreases hs.len(),
{
    if hs.len() == 0 {
        Seq::empty()
    } else if hs.last().ticker@ == t {
        hs.last().name@
    } else {
        last_name_for(hs.drop_last(), t)
    }
}

/// What a finished price chart is for a details aggregate: the charted
/// tickers, and rows that enumerate exactly the common timestamps in
/// ascending order, carrying the normalized values of [`norm_etf_value`]
/// and [`norm_holding_value`] anchored at the first and last rows.
pub open spec fn is_price_chart(d: DetailsResponse, m: MergedPrices) -> bool {
    let gs = chart_series(d);
    let hs = d.equity_holdings@;
    let rows = m.rows@;
    &&& d.prices is Some
    &&& tickers_view(m.tickers@) == chart_keys(hs, d.ticker@)
    &&& rows.len() > 0
    &&& forall|i: int|
        0 <= i < rows.len() ==> (#[trigger] rows[i]).holding_prices@.len() + 1 == gs.len()
    &&& forall|i: int, j: int|
        0 <= i < j < rows.len() ==> rows[i].timestamp < rows[j].timestamp
    &&& forall|i: int|
        0 <= i < rows.len() ==> common_ts(gs, (#[trigger] rows[i]).timestamp as int)
    &&& forall|t: int|
        #[trigger] common_ts(gs, t) ==> exists|i: int|
            0 <= i < rows.len() && (#[trigger] rows[i]).timestamp == t
    &&& forall|i: int|
        0 <= i < rows.len() ==> (#[trigger] rows[i]).etf_price == norm_etf_value(
            close_at(gs[0], rows[i].timestamp as int),
            close_at(gs[0], rows[0].timestamp as int),
        )
    &&& forall|i: int, k: int|
        0 <= i < rows.len() && 0 <= k < gs.len() - 1 ==> (#[trigger] rows[i].holding_prices@[k])
            == norm_holding_value(
            close_at(gs[k + 1], rows[i].timestamp as int),
            last_weight_for(hs, chart_keys(hs, d.ticker@)[k]) as int,
            close_at(gs[0], rows[rows.len() - 1].timestamp as int),
            close_at(gs[0], rows[0].timestamp as int),
            close_at(gs[k + 1], rows[rows.len() - 1].timestamp as int),
        )
    &&& rows[0].etf_price == PCT_BASE
}

/// Some normalized holding value of the aggregate's chart exceeds the
/// fixed-point range; `tf` and `tl` are the first and last common
/// timestamps, `t` the offending row's timestamp and `k` the holding.
pub open spec fn norm_overflow(d: DetailsResponse) -> bool {
    let gs = chart_series(d);
    let hs = d.equity_holdings@;
    let keys = chart_keys(hs, d.ticker@);
    exists|t: int, tf: int, tl: int, k: int|
        #![trigger norm_holding_value(close_at(gs[k + 1], t), last_weight_for(hs, keys[k]) as int, close_at(gs[0], tl), close_at(gs[0], tf), close_at(gs[k + 1], tl))]
        {
            &&& common_ts(gs, t)
            &&& common_ts(gs, tf)
            &&& common_ts(gs, tl)
            &&& forall|t2: int| #[trigger] common_ts(gs, t2) ==> tf <= t2 <= tl
            &&& 0 <= k < keys.len()
            &&& norm_holding_value(
                close_at(gs[k + 1], t),
                last_weight_for(hs, keys[k]) as int,
                close_at(gs[0], tl),
                close_at(gs[0], tf),
                close_at(gs[k + 1], tl),
            ) > u64::MAX
        }
}

/// Builds the normalized price chart for a details aggregate: merge onto
/// the common timestamps, look up each charted ticker's weight, normalize.
/// Fails exactly when the fund's series is absent, no timestamp is common
/// to all charted series, or a normalized value leaves the fixed-point
/// range.
#[verifier::loop_isolation(false)]
pub fn create_price_chart(details: &DetailsResponse) -> (r: Result<MergedPrices, GoodError>)
    requires
        details_wf(*details),
    ensures
        match r {
            Ok(m) => is_price_chart(*details, m),
            Err(e) => {
                &&& e is Generic
                &&& (details.prices is None || !(exists|t: int|
                    common_ts(chart_series(*details), t)) || norm_overflow(*details))
            },
        },
{
    let m = match merge_chart_prices(details) {
        Ok(m) => m,
        Err(e) => {
            return Err(e);
        },
    };
    let ghost hs = details.equity_holdings@;
    let ghost gs = chart_series(*details);
    let ghost keys = chart_keys(hs, details.ticker@);

    // the weight charted for a ticker is the last equity holding's
    let mut weights: Vec<u32> = Vec::new();
    let mut k: usize = 0;
    while k < m.tickers.len()
        invariant
            0 <= k <= m.tickers@.len(),
            weights@.len() == k,
            forall|q: int|
                0 <= q < k ==> (#[trigger] weights@[q]) == last_weight_for(hs, m.tickers@[q]@),
        decreases m.tickers@.len() - k,
    {
        let t = &m.tickers[k];
        proof {
            assert(hs.take(hs.len() as int) =~= hs);
        }
        let mut j: usize = details.equity_holdings.len();
        let mut w: u32 = 0;
        let mut found = false;
        while j > 0 && !found
            invariant
                0 <= j <= hs.len(),
                !found ==> last_weight_for(hs, t@) == last_weight_for(hs.take(j as int), t@),
                !found ==> w == 0,
                found ==> w == last_weight_for(hs, t@),
            decreases j,
        {
            proof {
                assert(hs.take(j as int).drop_last() =~= hs.take(j - 1));
                assert(hs.take(j as int).last() == hs[j - 1]);
            }
            let h = &details.equity_holdings[j - 1];
            if str_eq(h.ticker.as_str(), t.as_str()) {
                w = h.weight;
                found = true;
            }
            j -= 1;
        }
        proof {
            if !found {
                assert(j == 0);
                assert(hs.take(0) =~= Seq::<DetailsEquityHolding>::empty());
                assert(last_weight_for(hs.take(0), t@) == 0);
                assert(last_weight_for(hs, t@) == 0);
            }
            assert(w == last_weight_for(hs, t@));
            assert(t@ == m.tickers@[k as int]@);
        }
        weights.push(w);
        k += 1;
    }

    // normalize onto the percentage axis
    proof {
        assert(gs.len() == 1 + keys.len());
        assert(m.rows@.len() > 0 ==> m.rows@[0].holding_prices@.len() == keys.len());
        assert forall|i: int| 0 <= i < m.rows@.len() implies (
        #[trigger] m.rows@[i]).holding_prices@.len() == weights@.len() by {
            assert(m.rows@[i].holding_prices@.len() + 1 == gs.len());
            assert(tickers_view(m.tickers@).len() == keys.len());
        }
        assert(all_wf(gs)) by {
            assert forall|q: int| 0 <= q < gs.len() implies wf_series(#[trigger] gs[q]) by {
                if q > 0 {
                    lemma_last_series_wf(hs, keys[q - 1]);
                }
            }
        }
        assert(rows_in_range(m.rows@)) by {
            assert forall|i: int| 0 <= i < m.rows@.len() implies 1 <= (
            #[trigger] m.rows@[i]).etf_price <= CLOSE_MAX by {
                assert(common_ts(gs, m.rows@[i].timestamp as int));
                assert(ts_in(gs[0], m.rows@[i].timestamp as int));
                crate::series::lemma_close_at_range(gs[0], m.rows@[i].timestamp as int);
            }
            assert forall|i: int, q: int|
                0 <= i < m.rows@.len() && 0 <= q < m.rows@[i].holding_prices@.len() implies 1 <= (
            #[trigger] m.rows@[i].holding_prices@[q]) <= CLOSE_MAX by {
                assert(common_ts(gs, m.rows@[i].timestamp as int));
                assert(ts_in(gs[q + 1], m.rows@[i].timestamp as int));
                crate::series::lemma_close_at_range(gs[q + 1], m.rows@[i].timestamp as int);
                assert(m.rows@[i].holding_prices@[q] == close_at(
                    gs[q + 1],
                    m.rows@[i].timestamp as int,
                ));
            }
        }
    }
    let normalized = match normalize_chart(&m.rows, &weights) {
        Ok(n) => n,
        Err(e) => {
            proof {
                if m.rows@.len() == 0 {
                    assert(!(exists|t: int| common_ts(gs, t))) by {
                        if exists|t: int| common_ts(gs, t) {
                            let t = choose|t: int| common_ts(gs, t);
                            let i = choose|i: int|
                                0 <= i < m.rows@.len() && m.rows@[i].timestamp == t;
                            assert(false);
                        }
                    }
                } else {
                    assert(norm_overflow(*details)) by {
                        let (bi, bk): (int, int) = choose|bi: int, bk: int|
                            0 <= bi < m.rows@.len() && 0 <= bk < weights@.len()
                                && norm_holding_value(
                                (#[trigger] m.rows@[bi].holding_prices@[bk]) as int,
                                weights@[bk] as int,
                                m.rows@[m.rows@.len() - 1].etf_price as int,
                                m.rows@[0].etf_price as int,
                                m.rows@[m.rows@.len() - 1].holding_prices@[bk] as int,
                            ) > u64::MAX;
                        let t = m.rows@[bi].timestamp as int;
                        let tf = m.rows@[0].timestamp as int;
                        let tl = m.rows@[m.rows@.len() - 1].timestamp as int;
                        assert forall|t2: int| #[trigger] common_ts(gs, t2) implies tf <= t2
                            <= tl by {
                            let i2 = choose|i2: int|
                                0 <= i2 < m.rows@.len() && m.rows@[i2].timestamp == t2;
                            if i2 > 0 {
                                assert(m.rows@[0].timestamp < m.rows@[i2].timestamp);
                            }
                            if i2 < m.rows@.len() - 1 {
                                assert(m.rows@[i2].timestamp < m.rows@[m.rows@.len()
                                    - 1].timestamp);
                            }
                        }
                        assert(m.rows@[bi].holding_prices@[bk] == close_at(gs[bk + 1], t));
                        assert(m.rows@[0].etf_price == close_at(gs[0], tf));
                        assert(m.rows@[m.rows@.len() - 1].etf_price == close_at(gs[0], tl));
                        assert(m.rows@[m.rows@.len() - 1].holding_prices@[bk] == close_at(
                            gs[bk + 1],
                            tl,
                        ));
                        assert(weights@[bk] == last_weight_for(hs, m.tickers@[bk]@));
                        assert(m.tickers@[bk]@ == tickers_view(m.tickers@)[bk]);
                        assert(norm_holding_value(
                            close_at(gs[bk + 1], t),
                            last_weight_for(hs, keys[bk]) as int,
                            close_at(gs[0], tl),
                            close_at(gs[0], tf),
                            close_at(gs[bk + 1], tl),
                        ) > u64::MAX);
                    }
                }
            }
            return Err(e);
        },
    };
    proof {
        assert(is_price_chart(
            *details,
            (MergedPrices { tickers: m.tickers, rows: normalized }),
        )) by {
            let rows = normalized@;
            let raw = m.rows@;
            assert forall|i: int| 0 <= i < rows.len() implies common_ts(
                gs,
                (#[trigger] rows[i]).timestamp as int,
            ) && rows[i].holding_prices@.len() + 1 == gs.len() by {
                assert(rows[i].timestamp == raw[i].timestamp);
                assert(common_ts(gs, raw[i].timestamp as int));
            }
            assert forall|t2: int| #[trigger] common_ts(gs, t2) implies exists|i: int|
                0 <= i < rows.len() && (#[trigger] rows[i]).timestamp == t2 by {
                let i = choose|i: int| 0 <= i < raw.len() && raw[i].timestamp == t2;
                assert(rows[i].timestamp == t2);
            }
            assert forall|i: int| 0 <= i < rows.len() implies (#[trigger] rows[i]).etf_price
                == norm_etf_value(
                close_at(gs[0], rows[i].timestamp as int),
                close_at(gs[0], rows[0].timestamp as int),
            ) by {
                assert(raw[i].etf_price == close_at(gs[0], raw[i].timestamp as int));
                assert(raw[0].etf_price == close_at(gs[0], raw[0].timestamp as int));
            }
            assert forall|i: int, q: int|
                0 <= i < rows.len() && 0 <= q < gs.len() - 1 implies (
            #[trigger] rows[i].holding_prices@[q]) == norm_holding_value(
                close_at(gs[q + 1], rows[i].timestamp as int),
                last_weight_for(hs, keys[q]) as int,
                close_at(gs[0], rows[rows.len() - 1].timestamp as int),
                close_at(gs[0], rows[0].timestamp as int),
                close_at(gs[q + 1], rows[rows.len() - 1].timestamp as int),
            ) by {
                assert(raw[i].holding_prices@[q] == close_at(gs[q + 1], raw[i].timestamp as int));
                assert(raw[raw.len() - 1].holding_prices@[q] == close_at(
                    gs[q + 1],
                    raw[raw.len() - 1].timestamp as int,
                ));
                assert(raw[raw.len() - 1].etf_price == close_at(
                    gs[0],
                    raw[raw.len() - 1].timestamp as int,
                ));
                assert(raw[0].etf_price == close_at(gs[0], raw[0].timestamp as int));
                assert(weights@[q] == last_weight_for(hs, m.tickers@[q]@));
                assert(m.tickers@[q]@ == tickers_view(m.tickers@)[q]);
                assert(rows[rows.len() - 1].timestamp == raw[raw.len() - 1].timestamp);
                assert(rows[0].timestamp == raw[0].timestamp);
            }
        }
    }
    Ok(MergedPrices { tickers: m.tickers, rows: normalized })
}

/// The tickers of a display-metadata list.
pub open spec fn hd_tickers(v: Seq<crate::types::ChartHoldingDetails>) -> Seq<Seq<char>> {
    v.map_values(|h: crate::types::ChartHoldingDetails| h.ticker@)
}

/// Builds the chart response for a details aggregate: display metadata for
/// every equity holding (keyed by ticker, the last holding's name winning),
/// and the normalized chart of [`create_price_chart`], which also decides
/// success.
#[verifier::loop_isolation(false)]
pub fn chart_response(details: &DetailsResponse) -> (r: Result<crate::types::ChartResponse, GoodError>)
    requires
        details_wf(*details),
    ensures
        match r {
            Ok(c) => {
                &&& c.etf_ticker == details.ticker
                &&& c.etf_name == details.name
                &&& hd_tickers(c.holding_details@) == detail_keys(details.equity_holdings@)
                &&& forall|idx: int|
                    0 <= idx < c.holding_details@.len() ==> (
                    #[trigger] c.holding_details@[idx]).name@ == last_name_for(
                        details.equity_holdings@,
                        c.holding_details@[idx].ticker@,
                    )
                &&& is_price_chart(
                    *details,
                    (MergedPrices { tickers: c.chart_tickers, rows: c.chart }),
                )
            },
            Err(e) => {
                &&& e is Generic
                &&& (details.prices is None || !(exists|t: int|
                    common_ts(chart_series(*details), t)) || norm_overflow(*details))
            },
        },
{
    let m = match create_price_chart(details) {
        Ok(m) => m,
        Err(e) => {
            return Err(e);
        },
    };
    let ghost hs = details.equity_holdings@;

    let mut hd: Vec<crate::types::ChartHoldingDetails> = Vec::new();
    let mut i: usize = 0;
    while i < details.equity_holdings.len()
        invariant
            0 <= i <= hs.len(),
            hd_tickers(hd@) == detail_keys(hs.take(i as int)),
            forall|idx: int|
                0 <= idx < hd@.len() ==> (#[trigger] hd@[idx]).name@ == last_name_for(
                    hs.take(i as int),
                    hd@[idx].ticker@,
                ),
            forall|idx1: int, idx2: int|
                0 <= idx1 < idx2 < hd@.len() ==> hd@[idx1].ticker@ != hd@[idx2].ticker@,
        decreases hs.len() - i,
    {
        proof {
            assert(hs.take(i + 1) =~= hs.take(i as int).push(hs[i as int]));
            assert(hs.take(i + 1).drop_last() =~= hs.take(i as int));
            assert(hs.take(i + 1).last() == hs[i as int]);
        }
        let h = &details.equity_holdings[i];
        let mut idx: usize = 0;
        let mut found = false;
        while idx < hd.len() && !found
            invariant
                0 <= idx <= hd@.len(),
                !found ==> forall|q: int| 0 <= q < idx ==> (#[trigger] hd@[q]).ticker@
                    != h.ticker@,
                found ==> idx < hd@.len() && hd@[idx as int].ticker@ == h.ticker@,
            decreases hd@.len() - idx + (if found {
                0int
            } else {
                1int
            }),
        {
            if str_eq(hd[idx].ticker.as_str(), h.ticker.as_str()) {
                found = true;
            } else {
                idx += 1;
            }
        }
        proof {
            if !found {
                assert(!hd_tickers(hd@).contains(h.ticker@)) by {
                    if hd_tickers(hd@).contains(h.ticker@) {
                        let q = choose|q: int|
                            0 <= q < hd_tickers(hd@).len() && hd_tickers(hd@)[q] == h.ticker@;
                        assert(hd@[q].ticker@ == h.ticker@);
                    }
                }
            } else {
                assert(hd_tickers(hd@).contains(h.ticker@)) by {
                    assert(hd_tickers(hd@)[idx as int] == h.ticker@);
                }
            }
        }
        if found {
            hd.set(
                idx,
                crate::types::ChartHoldingDetails {
                    ticker: h.ticker.clone(),
                    name: h.name.clone(),
                },
            );
        } else {
            hd.push(
                crate::types::ChartHoldingDetails {
                    ticker: h.ticker.clone(),
                    name: h.name.clone(),
                },
            );
        }
        proof {
            assert(hd_tickers(hd@) =~= detail_keys(hs.take(i + 1)));
            assert forall|q: int| 0 <= q < hd@.len() implies (#[trigger] hd@[q]).name@
                == last_name_for(hs.take(i + 1), hd@[q].ticker@) by {
                let t2 = hd@[q].ticker@;
                if t2 == hs[i as int].ticker@ {
                    assert(last_name_for(hs.take(i + 1), t2) == hs[i as int].name@);
                } else {
                    assert(last_name_for(hs.take(i + 1), t2) == last_name_for(
                        hs.take(i as int),
                        t2,
                    ));
                }
            }
        }
        i += 1;
    }
    proof {
        assert(hs.take(hs.len() as int) =~= hs);
    }
    Ok(
        crate::types::ChartResponse {
            etf_ticker: details.ticker.clone(),
            etf_name: details.name.clone(),
            holding_details: hd,
            chart_tickers: m.tickers,
            chart: m.rows,
        },
    )
}

} // verus!
