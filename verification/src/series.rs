//! Historical price series: well-formedness, timestamp normalization, and
//! assembly of a series from the parallel value columns a price source
//! reports.
//!
//! A well-formed series is strictly ascending in timestamp (so timestamps
//! are unique), every timestamp is a UTC second in a sane range, and every
//! close is a positive fixed-point value small enough for the chart
//! arithmetic.

use vstd::prelude::*;

use crate::fixed::CLOSE_MAX;
use crate::fixed::DAY_SECONDS;
use crate::fixed::TS_MAX;
use crate::types::Error;
use crate::types::HistoricalPrices;

verus! {

pub open spec fn sorted_ts(s: Seq<HistoricalPrices>) -> bool {
    forall|i: int, j: int|
        0 <= i < j < s.len() ==> s[i].timestamp < s[j].timestamp
}

pub open spec fn wf_point(p: HistoricalPrices) -> bool {
    &&& 0 <= p.timestamp < TS_MAX
    &&& 1 <= p.close <= CLOSE_MAX
}

pub open spec fn wf_series(s: Seq<HistoricalPrices>) -> bool {
    &&& sorted_ts(s)
    &&& forall|i: int| 0 <= i < s.len() ==> wf_point(s[i])
}

/// Whether the series has a point at timestamp `t`.
pub open spec fn ts_in(s: Seq<HistoricalPrices>, t: int) -> bool {
    exists|j: int| 0 <= j < s.len() && s[j].timestamp == t
}

/// The close value of the series at timestamp `t`; meaningful when the
/// series is sorted and has a point at `t`.
pub open spec fn close_at(s: Seq<HistoricalPrices>, t: int) -> int {
    s[choose|j: int| 0 <= j < s.len() && s[j].timestamp == t].close as int
}

/// In a sorted series, the close at a point's timestamp is that point's
/// close.
pub proof fn lemma_close_at(s: Seq<HistoricalPrices>, j: int)
    requires
        sorted_ts(s),
        0 <= j < s.len(),
    ensures
        ts_in(s, s[j].timestamp as int),
        close_at(s, s[j].timestamp as int) == s[j].close,
{
    let t = s[j].timestamp as int;
    assert(ts_in(s, t)) by {
        assert(0 <= j < s.len() && s[j].timestamp == t);
    }
    let k = choose|k: int| 0 <= k < s.len() && s[k].timestamp == t;
    if k < j {
        assert(s[k].timestamp < s[j].timestamp);
    } else if k > j {
        assert(s[j].timestamp < s[k].timestamp);
    }
    assert(k == j);
}

/// In a well-formed series, any present close is positive and in range.
pub proof fn lemma_close_at_range(s: Seq<HistoricalPrices>, t: int)
    requires
        wf_series(s),
        ts_in(s, t),
    ensures
        1 <= close_at(s, t) <= CLOSE_MAX,
{
    let j = choose|j: int| 0 <= j < s.len() && s[j].timestamp == t;
    assert(wf_point(s[j]));
}

/// Copies a price series point for point.
pub fn copy_series(s: &Vec<HistoricalPrices>) -> (r: Vec<HistoricalPrices>)
    ensures
        r@ == s@,
{
    let mut r: Vec<HistoricalPrices> = Vec::new();
    let mut i: usize = 0;
    while i < s.len()
        invariant
            0 <= i <= s@.len(),
            r@.len() == i,
            forall|j: int| 0 <= j < i ==> r@[j] == s@[j],
        decreases s@.len() - i,
    {
        r.push(s[i]);
        i += 1;
    }
    proof {
        assert(r@ =~= s@);
    }
    r
}

/// The UTC midnight at or before a nonnegative Unix timestamp.
pub open spec fn spec_midnight(ts: int) -> int {
    ts - ts % (DAY_SECONDS as int)
}

/// Normalizes a nonnegative timestamp to the UTC midnight of its day.
pub fn midnight_timestamp(ts: i64) -> (r: i64)
    requires
        0 <= ts,
    ensures
        r == spec_midnight(ts as int),
        0 <= r <= ts,
{
    ts - ts % DAY_SECONDS
}

/// The conditions under which the parallel columns reported by a price
/// source assemble into a well-formed series: every value column covers
/// every timestamp, the timezone offset is at most a day, each shifted
/// timestamp is a sane UTC second, the midnights are strictly ascending,
/// and each close is positive and within range.
pub open spec fn series_inputs_ok(
    ts: Seq<i64>,
    vol: Seq<i64>,
    op: Seq<u64>,
    lo: Seq<u64>,
    hi: Seq<u64>,
    cl: Seq<u64>,
    ad: Seq<u64>,
    off: int,
) -> bool {
    &&& -(DAY_SECONDS as int) <= off <= DAY_SECONDS as int
    &&& vol.len() >= ts.len()
    &&& op.len() >= ts.len()
    &&& lo.len() >= ts.len()
    &&& hi.len() >= ts.len()
    &&& cl.len() >= ts.len()
    &&& ad.len() >= ts.len()
    &&& forall|i: int| 0 <= i < ts.len() ==> off <= ts[i] && ts[i] - off < TS_MAX
    &&& forall|i: int| 0 <= i < ts.len() ==> 1 <= #[trigger] cl[i] <= CLOSE_MAX
    &&& forall|i: int|
        #![trigger ts[i]]
        0 <= i && i + 1 < ts.len() ==> spec_midnight(ts[i] - off) < spec_midnight(ts[i + 1] - off)
}

proof fn lemma_sorted_from_adjacent(s: Seq<HistoricalPrices>, i: int, j: int)
    requires
        forall|k: int| #![trigger s[k]] 0 <= k && k + 1 < s.len() ==> s[k].timestamp < s[k + 1].timestamp,
        0 <= i < j < s.len(),
    ensures
        s[i].timestamp < s[j].timestamp,
    decreases j - i,
{
    if j > i + 1 {
        lemma_sorted_from_adjacent(s, i, j - 1);
        assert(s[j - 1].timestamp < s[j].timestamp);
    }
}

/// Assembles the parallel columns a price source reports into a price
/// series: each timestamp is shifted by the reported timezone offset and
/// normalized to UTC midnight. Returns a generic error exactly when the
/// columns do not satisfy [`series_inputs_ok`]; on success the series is
/// well-formed and each point copies its column values verbatim.
pub fn assemble_price_series(
    timestamps: &Vec<i64>,
    volumes: &Vec<i64>,
    opens: &Vec<u64>,
    lows: &Vec<u64>,
    highs: &Vec<u64>,
    closes: &Vec<u64>,
    adjcloses: &Vec<u64>,
    gmtoffset: i64,
) -> (r: Result<Vec<HistoricalPrices>, Error>)
    ensures
        match r {
            Ok(v) => {
                &&& series_inputs_ok(
                    timestamps@,
                    volumes@,
                    opens@,
                    lows@,
                    highs@,
                    closes@,
                    adjcloses@,
                    gmtoffset as int,
                )
                &&& v@.len() == timestamps@.len()
                &&& forall|i: int|
                    0 <= i < v@.len() ==> {
                        &&& v@[i].timestamp == spec_midnight(timestamps@[i] - gmtoffset)
                        &&& v@[i].volume == volumes@[i]
                        &&& v@[i].open == opens@[i]
                        &&& v@[i].low == lows@[i]
                        &&& v@[i].high == highs@[i]
                        &&& v@[i].close == closes@[i]
                        &&& v@[i].adjclose == adjcloses@[i]
                    }
                &&& wf_series(v@)
            },
            Err(e) => {
                &&& e is Generic
                &&& !series_inputs_ok(
                    timestamps@,
                    volumes@,
                    opens@,
                    lows@,
                    highs@,
                    closes@,
                    adjcloses@,
                    gmtoffset as int,
                )
            },
        },
{
    if gmtoffset < -DAY_SECONDS || gmtoffset > DAY_SECONDS {
        return Err(Error::Generic(String::from_str("timezone offset out of range")));
    }
    let n = timestamps.len();
    if volumes.len() < n || opens.len() < n || lows.len() < n || highs.len() < n || closes.len()
        < n || adjcloses.len() < n {
        return Err(Error::Generic(String::from_str("price columns shorter than timestamps")));
    }
    let mut out: Vec<HistoricalPrices> = Vec::new();
    let mut i: usize = 0;
    while i < n
        invariant
            n == timestamps@.len(),
            volumes@.len() >= n,
            opens@.len() >= n,
            lows@.len() >= n,
            highs@.len() >= n,
            closes@.len() >= n,
            adjcloses@.len() >= n,
            -DAY_SECONDS <= gmtoffset <= DAY_SECONDS,
            0 <= i <= n,
            out@.len() == i,
            forall|j: int|
                #![trigger out@[j]]
                0 <= j < i ==> out@[j].timestamp == spec_midnight(timestamps@[j] - gmtoffset),
            forall|j: int|
                #![trigger out@[j]]
                0 <= j < i ==> {
                    &&& out@[j].volume == volumes@[j]
                    &&& out@[j].open == opens@[j]
                    &&& out@[j].low == lows@[j]
                    &&& out@[j].high == highs@[j]
                    &&& out@[j].close == closes@[j]
                    &&& out@[j].adjclose == adjcloses@[j]
                },
            forall|j: int| 0 <= j < i ==> gmtoffset <= timestamps@[j] && timestamps@[j] - gmtoffset
                < TS_MAX,
            forall|j: int| 0 <= j < i ==> 1 <= #[trigger] closes@[j] <= CLOSE_MAX,
            forall|j: int| 0 <= j < i ==> wf_point(out@[j]),
            forall|j: int| #![trigger out@[j]] 0 <= j && j + 1 < i ==> out@[j].timestamp < out@[j + 1].timestamp,
        decreases n - i,
    {
        let raw = timestamps[i];
        if raw < gmtoffset || raw >= TS_MAX + gmtoffset {
            return Err(Error::Generic(String::from_str("timestamp out of range")));
        }
        let close = closes[i];
        if close < 1 || close > CLOSE_MAX {
            return Err(Error::Generic(String::from_str("close out of range")));
        }
        let mid = midnight_timestamp(raw - gmtoffset);
        if i > 0 {
            let prev = out[i - 1].timestamp;
            proof {
                assert(out@[i - 1].timestamp == spec_midnight(timestamps@[i - 1] - gmtoffset));
            }
            if mid <= prev {
                proof {
                    assert(spec_midnight(timestamps@[i - 1] - gmtoffset) >= spec_midnight(
                        timestamps@[i as int] - gmtoffset,
                    ));
                }
                return Err(Error::Generic(String::from_str("timestamps not ascending")));
            }
        }
        let ghost old_out = out@;
        out.push(
            HistoricalPrices {
                timestamp: mid,
                volume: volumes[i],
                open: opens[i],
                low: lows[i],
                high: highs[i],
                close,
                adjclose: adjcloses[i],
            },
        );
        proof {
            assert(out@.len() == i + 1);
            assert(out@ == old_out.push(out@[i as int]));
            assert(out@[i as int].timestamp == mid);
            assert forall|j: int| #![trigger out@[j]] 0 <= j < i implies out@[j] == old_out[j] by {
                assert(old_out.push(out@[i as int])[j] == old_out[j]);
            }
            assert(out@[i as int].timestamp == spec_midnight(timestamps@[i as int] - gmtoffset));
            assert(i > 0 ==> out@[i - 1].timestamp < out@[i as int].timestamp);
            assert forall|j: int| #![trigger out@[j]] 0 <= j && j + 1 < i + 1 implies out@[
                j
            ].timestamp < out@[j + 1].timestamp by {
                if j + 1 < i {
                    assert(out@[j] == old_out[j]);
                    assert(out@[j + 1] == old_out[j + 1]);
                    assert(old_out[j].timestamp < old_out[j + 1].timestamp);
                } else {
                    assert(j == i - 1);
                }
            }
        }
        i += 1;
    }
    proof {
        assert forall|a: int, b: int| 0 <= a < b < out@.len() implies out@[a].timestamp
            < out@[b].timestamp by {
            lemma_sorted_from_adjacent(out@, a, b);
        }
        assert forall|j: int|
            #![trigger timestamps@[j]]
            0 <= j && j + 1 < n implies spec_midnight(timestamps@[j] - gmtoffset) < spec_midnight(
            timestamps@[j + 1] - gmtoffset,
        ) by {
            assert(out@[j].timestamp == spec_midnight(timestamps@[j] - gmtoffset));
            assert(out@[j + 1].timestamp == spec_midnight(timestamps@[j + 1] - gmtoffset));
            assert(out@[j].timestamp < out@[j + 1].timestamp);
        }
    }
    Ok(out)
}

} // verus!
