//! Global properties of the aligner, proved from its contract alone.
//!
//! [`crate::align::is_aligned`] is a relation; the lemmas here show that it
//! behaves as a function — any two outputs for the same input agree — and
//! pin its value on two notable families of inputs: series with no shared
//! timestamp, and identical series.

use vstd::prelude::*;

use crate::align::AlignedRow;
use crate::chart::chart_series;
use crate::chart::is_price_chart;
use crate::chart::tickers_view;
use crate::chart::MergedPrices;
use crate::types::ChartPrice;
use crate::types::DetailsResponse;
use crate::align::common_ts;
use crate::align::is_aligned;
use crate::series::close_at;
use crate::series::lemma_close_at;
use crate::series::ts_in;
use crate::series::wf_series;
use crate::types::HistoricalPrices;

verus! {

pub open spec fn strictly_increasing(a: Seq<int>) -> bool {
    forall|i: int, j: int| 0 <= i < j < a.len() ==> a[i] < a[j]
}

/// The timestamps of a row sequence, as integers.
pub open spec fn row_ts(rows: Seq<AlignedRow>) -> Seq<int> {
    rows.map_values(|r: AlignedRow| r.timestamp as int)
}

proof fn lemma_incr_prefix_equal(a: Seq<int>, b: Seq<int>, i: int)
    requires
        strictly_increasing(a),
        strictly_increasing(b),
        forall|t: int| a.contains(t) <==> b.contains(t),
        0 <= i <= a.len(),
        i <= b.len(),
    ensures
        forall|j: int| 0 <= j < i ==> a[j] == b[j],
    decreases i,
{
    if i > 0 {
        lemma_incr_prefix_equal(a, b, i - 1);
        let x = a[i - 1];
        assert(a.contains(x)) by {
            assert(a[i - 1] == x);
        }
        assert(b.contains(x));
        let j = choose|j: int| 0 <= j < b.len() && b[j] == x;
        if j < i - 1 {
            assert(a[j] == b[j]);
            assert(a[j] < a[i - 1]);
            assert(false);
        }
        assert(b[i - 1] <= x);
        let y = b[i - 1];
        assert(b.contains(y)) by {
            assert(b[i - 1] == y);
        }
        assert(a.contains(y));
        let j2 = choose|j2: int| 0 <= j2 < a.len() && a[j2] == y;
        if j2 < i - 1 {
            assert(b[j2] == a[j2]);
            assert(b[j2] < b[i - 1]);
            assert(false);
        }
        assert(a[i - 1] <= y);
    }
}

/// Two strictly increasing integer sequences with the same members are
/// equal.
pub proof fn lemma_incr_same_elems_equal(a: Seq<int>, b: Seq<int>)
    requires
        strictly_increasing(a),
        strictly_increasing(b),
        forall|t: int| a.contains(t) <==> b.contains(t),
    ensures
        a == b,
{
    if a.len() < b.len() {
        lemma_incr_prefix_equal(a, b, a.len() as int);
        let x = b[a.len() as int];
        assert(b.contains(x)) by {
            assert(b[a.len() as int] == x);
        }
        assert(a.contains(x));
        let j = choose|j: int| 0 <= j < a.len() && a[j] == x;
        assert(a[j] == b[j]);
        assert(b[j] < b[a.len() as int]);
        assert(false);
    } else if b.len() < a.len() {
        lemma_incr_prefix_equal(a, b, b.len() as int);
        let x = a[b.len() as int];
        assert(a.contains(x)) by {
            assert(a[b.len() as int] == x);
        }
        assert(b.contains(x));
        let j = choose|j: int| 0 <= j < b.len() && b[j] == x;
        assert(b[j] == a[j]);
        assert(a[j] < a[b.len() as int]);
        assert(false);
    }
    lemma_incr_prefix_equal(a, b, a.len() as int);
    assert(a =~= b);
}

/// Alignment is a function of its input: any two row sequences aligned to
/// the same series have the same timestamps and the same values — so
/// aligning the same immutable input twice yields identical output.
pub proof fn lemma_aligned_unique(
    series: Seq<Seq<HistoricalPrices>>,
    r1: Seq<AlignedRow>,
    r2: Seq<AlignedRow>,
)
    requires
        is_aligned(series, r1),
        is_aligned(series, r2),
    ensures
        r1.len() == r2.len(),
        forall|i: int|
            0 <= i < r1.len() ==> (#[trigger] r1[i]).timestamp == r2[i].timestamp
                && r1[i].values@ == r2[i].values@,
{
    if series.len() == 0 {
        assert(r1.len() == 0 && r2.len() == 0);
    } else {
        let a = row_ts(r1);
        let b = row_ts(r2);
        assert forall|t: int| a.contains(t) implies b.contains(t) by {
            let i = choose|i: int| 0 <= i < a.len() && a[i] == t;
            assert(r1[i].timestamp == t);
            assert(common_ts(series, t));
            let i2 = choose|i2: int| 0 <= i2 < r2.len() && r2[i2].timestamp == t;
            assert(b[i2] == t);
        }
        assert forall|t: int| b.contains(t) implies a.contains(t) by {
            let i = choose|i: int| 0 <= i < b.len() && b[i] == t;
            assert(r2[i].timestamp == t);
            assert(common_ts(series, t));
            let i2 = choose|i2: int| 0 <= i2 < r1.len() && r1[i2].timestamp == t;
            assert(a[i2] == t);
        }
        assert(strictly_increasing(a)) by {
            assert forall|i: int, j: int| 0 <= i < j < a.len() implies a[i] < a[j] by {
                assert(r1[i].timestamp < r1[j].timestamp);
            }
        }
        assert(strictly_increasing(b)) by {
            assert forall|i: int, j: int| 0 <= i < j < b.len() implies b[i] < b[j] by {
                assert(r2[i].timestamp < r2[j].timestamp);
            }
        }
        lemma_incr_same_elems_equal(a, b);
        assert(a.len() == r1.len());
        assert(b.len() == r2.len());
        assert(r1.len() == r2.len());
        assert forall|i: int| 0 <= i < r1.len() implies (#[trigger] r1[i]).timestamp
            == r2[i].timestamp && r1[i].values@ == r2[i].values@ by {
            assert(a[i] == b[i]);
            assert forall|k: int| 0 <= k < r1[i].values@.len() implies r1[i].values@[k] == r2[
            i].values@[k] by {
                assert(r1[i].values@[k] == close_at(series[k], r1[i].timestamp as int));
                assert(r2[i].values@[k] == close_at(series[k], r2[i].timestamp as int));
            }
            assert(r1[i].values@ =~= r2[i].values@);
        }
    }
}

/// Series with pairwise disjoint timestamp sets (two or more of them) share
/// no timestamp, so their alignment has no rows.
pub proof fn lemma_disjoint_series_align_empty(
    series: Seq<Seq<HistoricalPrices>>,
    rows: Seq<AlignedRow>,
)
    requires
        series.len() >= 2,
        forall|k1: int, k2: int, t: int|
            0 <= k1 < series.len() && 0 <= k2 < series.len() && k1 != k2 ==> !(#[trigger] ts_in(
                series[k1],
                t,
            ) && #[trigger] ts_in(series[k2], t)),
        is_aligned(series, rows),
    ensures
        rows.len() == 0,
{
    if rows.len() > 0 {
        let t = rows[0].timestamp as int;
        assert(common_ts(series, t));
        assert(ts_in(series[0], t));
        assert(ts_in(series[1], t));
        assert(false);
    }
}

/// Aligning any number of copies of one series reproduces that series:
/// row for row the same timestamps, and every value is that row's close.
pub proof fn lemma_identical_series_align(
    series: Seq<Seq<HistoricalPrices>>,
    s: Seq<HistoricalPrices>,
    rows: Seq<AlignedRow>,
)
    requires
        series.len() >= 1,
        wf_series(s),
        forall|k: int| 0 <= k < series.len() ==> #[trigger] series[k] == s,
        is_aligned(series, rows),
    ensures
        rows.len() == s.len(),
        forall|i: int|
            0 <= i < rows.len() ==> (#[trigger] rows[i]).timestamp == s[i].timestamp,
        forall|i: int, k: int|
            0 <= i < rows.len() && 0 <= k < series.len() ==> (#[trigger] rows[i].values@[k])
                == s[i].close,
{
    let a = row_ts(rows);
    let b = s.map_values(|p: HistoricalPrices| p.timestamp as int);
    assert forall|t: int| a.contains(t) implies b.contains(t) by {
        let i = choose|i: int| 0 <= i < a.len() && a[i] == t;
        assert(rows[i].timestamp == t);
        assert(common_ts(series, t));
        assert(ts_in(series[0], t));
        assert(ts_in(s, t));
        let j = choose|j: int| 0 <= j < s.len() && s[j].timestamp == t;
        assert(b[j] == t);
    }
    assert forall|t: int| b.contains(t) implies a.contains(t) by {
        let j = choose|j: int| 0 <= j < b.len() && b[j] == t;
        assert(s[j].timestamp == t);
        assert(ts_in(s, t)) by {
            assert(0 <= j < s.len() && s[j].timestamp == t);
        }
        assert(common_ts(series, t)) by {
            assert forall|k: int| 0 <= k < series.len() implies ts_in(#[trigger] series[k], t) by {
                assert(series[k] == s);
            }
        }
        let i = choose|i: int| 0 <= i < rows.len() && rows[i].timestamp == t;
        assert(a[i] == t);
    }
    assert(strictly_increasing(a)) by {
        assert forall|i: int, j: int| 0 <= i < j < a.len() implies a[i] < a[j] by {
            assert(rows[i].timestamp < rows[j].timestamp);
        }
    }
    assert(strictly_increasing(b)) by {
        assert forall|i: int, j: int| 0 <= i < j < b.len() implies b[i] < b[j] by {
            assert(s[i].timestamp < s[j].timestamp);
        }
    }
    lemma_incr_same_elems_equal(a, b);
    assert(a.len() == rows.len());
    assert(b.len() == s.len());
    assert forall|i: int| 0 <= i < rows.len() implies (#[trigger] rows[i]).timestamp
        == s[i].timestamp by {
        assert(a[i] == b[i]);
    }
    assert forall|i: int, k: int| 0 <= i < rows.len() && 0 <= k < series.len() implies (
    #[trigger] rows[i].values@[k]) == s[i].close by {
        assert(rows[i].values@[k] == close_at(series[k], rows[i].timestamp as int));
        assert(series[k] == s);
        lemma_close_at(s, i);
        assert(rows[i].timestamp == s[i].timestamp);
    }
}

/// The finished price chart is a function of the details aggregate: any
/// two charts for the same immutable input have the same tickers, the same
/// timestamps and the same values — aligning then normalizing twice yields
/// identical output.
pub proof fn lemma_price_chart_unique(d: DetailsResponse, m1: MergedPrices, m2: MergedPrices)
    requires
        is_price_chart(d, m1),
        is_price_chart(d, m2),
    ensures
        tickers_view(m1.tickers@) == tickers_view(m2.tickers@),
        m1.rows@.len() == m2.rows@.len(),
        forall|i: int|
            0 <= i < m1.rows@.len() ==> {
                &&& (#[trigger] m1.rows@[i]).timestamp == m2.rows@[i].timestamp
                &&& m1.rows@[i].etf_price == m2.rows@[i].etf_price
                &&& m1.rows@[i].holding_prices@ == m2.rows@[i].holding_prices@
            },
{
    let gs = chart_series(d);
    let r1 = m1.rows@;
    let r2 = m2.rows@;
    let a = r1.map_values(|r: ChartPrice| r.timestamp as int);
    let b = r2.map_values(|r: ChartPrice| r.timestamp as int);
    assert forall|t: int| a.contains(t) implies b.contains(t) by {
        let i = choose|i: int| 0 <= i < a.len() && a[i] == t;
        assert(r1[i].timestamp == t);
        assert(crate::align::common_ts(gs, t));
        let i2 = choose|i2: int| 0 <= i2 < r2.len() && r2[i2].timestamp == t;
        assert(b[i2] == t);
    }
    assert forall|t: int| b.contains(t) implies a.contains(t) by {
        let i = choose|i: int| 0 <= i < b.len() && b[i] == t;
        assert(r2[i].timestamp == t);
        assert(crate::align::common_ts(gs, t));
        let i2 = choose|i2: int| 0 <= i2 < r1.len() && r1[i2].timestamp == t;
        assert(a[i2] == t);
    }
    assert(strictly_increasing(a)) by {
        assert forall|i: int, j: int| 0 <= i < j < a.len() implies a[i] < a[j] by {
            assert(r1[i].timestamp < r1[j].timestamp);
        }
    }
    assert(strictly_increasing(b)) by {
        assert forall|i: int, j: int| 0 <= i < j < b.len() implies b[i] < b[j] by {
            assert(r2[i].timestamp < r2[j].timestamp);
        }
    }
    lemma_incr_same_elems_equal(a, b);
    assert(a.len() == r1.len());
    assert(b.len() == r2.len());
    assert(r1.len() == r2.len());
    assert(r1.len() > 0);
    assert(a[0] == b[0]);
    assert(a[r1.len() - 1] == b[r1.len() - 1]);
    assert forall|i: int| 0 <= i < r1.len() implies {
        &&& (#[trigger] r1[i]).timestamp == r2[i].timestamp
        &&& r1[i].etf_price == r2[i].etf_price
        &&& r1[i].holding_prices@ == r2[i].holding_prices@
    } by {
        assert(a[i] == b[i]);
        assert(r1[i].timestamp == r2[i].timestamp);
        assert(r1[0].timestamp == r2[0].timestamp);
        assert(r1[r1.len() - 1].timestamp == r2[r2.len() - 1].timestamp);
        assert(r1[i].holding_prices@.len() + 1 == gs.len());
        assert(r2[i].holding_prices@.len() + 1 == gs.len());
        assert forall|k: int| 0 <= k < r1[i].holding_prices@.len() implies r1[i].holding_prices@[k]
            == r2[i].holding_prices@[k] by {
            assert(r1[i].holding_prices@[k] == crate::chart::norm_holding_value(
                crate::series::close_at(gs[k + 1], r1[i].timestamp as int),
                crate::chart::last_weight_for(
                    d.equity_holdings@,
                    crate::chart::chart_keys(d.equity_holdings@, d.ticker@)[k],
                ) as int,
                crate::series::close_at(gs[0], r1[r1.len() - 1].timestamp as int),
                crate::series::close_at(gs[0], r1[0].timestamp as int),
                crate::series::close_at(gs[k + 1], r1[r1.len() - 1].timestamp as int),
            ));
        }
        assert(r1[i].holding_prices@ =~= r2[i].holding_prices@);
    }
}
} // verus!
