//! The series aligner: merges any number of timestamped price series onto
//! one common timestamp axis with strict inner-join semantics — a timestamp
//! survives only if every input series has a point there.
//!
//! The contract [`is_aligned`] pins the output completely: rows are strictly
//! ascending, every row's timestamp is common to all series, the row carries
//! each series' close at that timestamp, and every common timestamp yields a
//! row. [`crate::laws`] proves that these clauses determine the output
//! uniquely.

use vstd::prelude::*;

use crate::fixed::TS_MAX;
use crate::series::close_at;
use crate::series::lemma_close_at;
use crate::series::ts_in;
use crate::series::wf_series;
use crate::types::HistoricalPrices;

verus! {

/// One aligned row; `values` holds, for each input series in order, that
/// series' close at this row's timestamp.
#[derive(Debug, Clone, PartialEq)]
pub struct AlignedRow {
    pub timestamp: i64,
    pub values: Vec<u64>,
}

/// The sequence of series views of a vector of series.
pub open spec fn sv(series: Seq<Vec<HistoricalPrices>>) -> Seq<Seq<HistoricalPrices>> {
    series.map_values(|s: Vec<HistoricalPrices>| s@)
}

pub open spec fn all_wf(series: Seq<Seq<HistoricalPrices>>) -> bool {
    forall|k: int| 0 <= k < series.len() ==> wf_series(#[trigger] series[k])
}

/// A timestamp present in every series.
pub open spec fn common_ts(series: Seq<Seq<HistoricalPrices>>, t: int) -> bool {
    forall|k: int| 0 <= k < series.len() ==> ts_in(#[trigger] series[k], t)
}

/// The inner-join alignment relation between input series and output rows.
pub open spec fn is_aligned(series: Seq<Seq<HistoricalPrices>>, rows: Seq<AlignedRow>) -> bool {
    &&& forall|i: int|
        0 <= i < rows.len() ==> (#[trigger] rows[i]).values@.len() == series.len()
    &&& forall|i: int, j: int|
        0 <= i < j < rows.len() ==> rows[i].timestamp < rows[j].timestamp
    &&& forall|i: int|
        0 <= i < rows.len() ==> common_ts(series, (#[trigger] rows[i]).timestamp as int)
    &&& forall|i: int, k: int|
        0 <= i < rows.len() && 0 <= k < series.len() ==> (#[trigger] rows[i].values@[k])
            == close_at(series[k], rows[i].timestamp as int)
    &&& series.len() > 0 ==> forall|t: int|
        common_ts(series, t) ==> exists|i: int|
            0 <= i < rows.len() && (#[trigger] rows[i]).timestamp == t
    &&& series.len() == 0 ==> rows.len() == 0
}

/// Aligns the input series onto their common timestamps. Each round scans
/// the cursors' fronts for the minimal pending timestamp, consumes every
/// matching front, and emits the row only if every series matched — any gap
/// discards the round's timestamp.
#[verifier::loop_isolation(false)]
pub fn align_closes(series: &Vec<Vec<HistoricalPrices>>) -> (rows: Vec<AlignedRow>)
    requires
        all_wf(sv(series@)),
    ensures
        is_aligned(sv(series@), rows@),
{
    let ghost gs = sv(series@);
    let n = series.len();
    let mut rows: Vec<AlignedRow> = Vec::new();
    if n == 0 {
        return rows;
    }
    let mut cursors: Vec<usize> = Vec::new();
    let mut z: usize = 0;
    while z < n
        invariant
            cursors@.len() == z,
            0 <= z <= n,
            forall|k: int| 0 <= k < z ==> cursors@[k] == 0,
        decreases n - z,
    {
        cursors.push(0);
        z += 1;
    }
    let ghost mut bound: int = -1;
    let mut done = false;
    proof {
        assert forall|t: int| t <= bound && #[trigger] common_ts(gs, t) implies exists|i: int|
            0 <= i < rows@.len() && (#[trigger] rows@[i]).timestamp == t by {
            assert(ts_in(gs[0], t));
            let j = choose|j: int| 0 <= j < gs[0].len() && gs[0][j].timestamp == t;
            assert(wf_series(gs[0]));
            assert(crate::series::wf_point(gs[0][j]));
            assert(false);
        }
    }

    while !done
        invariant
            done ==> forall|k: int| 0 <= k < n ==> #[trigger] cursors@[k] == gs[k].len(),
            cursors@.len() == n,
            -1 <= bound < TS_MAX,
            forall|k: int| 0 <= k < n ==> #[trigger] cursors@[k] <= gs[k].len(),
            forall|k: int, j: int|
                0 <= k < n && 0 <= j < cursors@[k] ==> #[trigger] gs[k][j].timestamp <= bound,
            forall|k: int, j: int|
                0 <= k < n && cursors@[k] <= j < gs[k].len() ==> #[trigger] gs[k][j].timestamp
                    > bound,
            forall|i: int| 0 <= i < rows@.len() ==> (#[trigger] rows@[i]).values@.len() == n,
            forall|i: int, i2: int|
                0 <= i < i2 < rows@.len() ==> rows@[i].timestamp < rows@[i2].timestamp,
            forall|i: int| 0 <= i < rows@.len() ==> (#[trigger] rows@[i]).timestamp <= bound,
            forall|i: int|
                0 <= i < rows@.len() ==> common_ts(gs, (#[trigger] rows@[i]).timestamp as int),
            forall|i: int, k: int|
                0 <= i < rows@.len() && 0 <= k < n ==> (#[trigger] rows@[i].values@[k])
                    == close_at(gs[k], rows@[i].timestamp as int),
            forall|t: int|
                t <= bound && #[trigger] common_ts(gs, t) ==> exists|i: int|
                    0 <= i < rows@.len() && (#[trigger] rows@[i]).timestamp == t,
        decreases TS_MAX - bound + (if done {
            0int
        } else {
            1int
        }),
    {
        // scan the cursor fronts for the minimal pending timestamp
        let mut min_ts: i64 = 0;
        let mut found = false;
        let mut k: usize = 0;
        while k < n
            invariant
                0 <= k <= n,
                found ==> exists|k2: int|
                    0 <= k2 < k && cursors@[k2] < gs[k2].len() && (#[trigger] gs[k2][cursors@[k2] as int]).timestamp
                        == min_ts,
                found ==> forall|k2: int|
                    0 <= k2 < k && #[trigger] cursors@[k2] < gs[k2].len() ==> gs[k2][cursors@[k2] as int].timestamp
                        >= min_ts,
                !found ==> forall|k2: int| 0 <= k2 < k ==> #[trigger] cursors@[k2] == gs[k2].len(),
            decreases n - k,
        {
            let c = cursors[k];
            if c < series[k].len() {
                let t = series[k][c].timestamp;
                if !found || t < min_ts {
                    min_ts = t;
                    found = true;
                }
            }
            k += 1;
        }
        if !found {
            done = true;
            continue ;
        }
        proof {
            assert(bound < min_ts && min_ts < TS_MAX) by {
                let k2 = choose|k2: int|
                    0 <= k2 < n && cursors@[k2] < gs[k2].len() && gs[k2][cursors@[k2] as int].timestamp
                        == min_ts;
                assert(gs[k2][cursors@[k2] as int].timestamp > bound);
                assert(wf_series(gs[k2]));
                assert(crate::series::wf_point(gs[k2][cursors@[k2] as int]));
            }
        }
        let ghost old_cursors = cursors@;
        proof {
            assert(forall|k2: int| 0 <= k2 < n ==> #[trigger] old_cursors[k2] <= gs[k2].len());
            assert(forall|k2: int|
                0 <= k2 < n && #[trigger] old_cursors[k2] < gs[k2].len() ==> gs[k2][old_cursors[k2] as int].timestamp
                    >= min_ts);
            assert(forall|k2: int, j: int|
                0 <= k2 < n && 0 <= j < old_cursors[k2] ==> #[trigger] gs[k2][j].timestamp
                    <= bound);
            assert(forall|k2: int, j: int|
                0 <= k2 < n && old_cursors[k2] <= j < gs[k2].len() ==> #[trigger] gs[k2][j].timestamp
                    > bound);
        }

        // gather every series' value at the minimal timestamp, consuming
        // exactly the matching fronts; a non-matching series marks a gap
        let mut values: Vec<u64> = Vec::new();
        let mut complete = true;
        let mut k: usize = 0;
        while k < n
            invariant
                0 <= k <= n,
                cursors@.len() == n,
                forall|k2: int| k <= k2 < n ==> #[trigger] cursors@[k2] == old_cursors[k2],
                forall|k2: int| 0 <= k2 < n ==> #[trigger] cursors@[k2] <= gs[k2].len(),
                forall|k2: int, j: int|
                    0 <= k2 < k && 0 <= j < cursors@[k2] ==> #[trigger] gs[k2][j].timestamp
                        <= min_ts,
                forall|k2: int, j: int|
                    0 <= k2 < k && cursors@[k2] <= j < gs[k2].len() ==> #[trigger] gs[k2][j].timestamp
                        > min_ts,
                complete ==> values@.len() == k,
                complete ==> forall|k2: int|
                    0 <= k2 < k ==> ts_in(#[trigger] gs[k2], min_ts as int),
                complete ==> forall|k2: int|
                    0 <= k2 < k ==> (#[trigger] values@[k2]) == close_at(gs[k2], min_ts as int),
                !complete ==> exists|k2: int| 0 <= k2 < n && !ts_in(#[trigger] gs[k2], min_ts as int),
            decreases n - k,
        {
            let c = cursors[k];
            if c < series[k].len() && series[k][c].timestamp == min_ts {
                values.push(series[k][c].close);
                cursors.set(k, c + 1);
                proof {
                    lemma_close_at(gs[k as int], c as int);
                    assert forall|j: int| cursors@[k as int] <= j < gs[k as int].len() implies (
                    #[trigger] gs[k as int][j]).timestamp > min_ts by {
                        assert(gs[k as int][c as int].timestamp < gs[k as int][j].timestamp);
                    }
                    assert forall|j: int| 0 <= j < cursors@[k as int] implies (#[trigger] gs[
                    k as int][j]).timestamp <= min_ts by {
                        if j < old_cursors[k as int] {
                            assert(gs[k as int][j].timestamp <= bound);
                        }
                    }
                }
            } else {
                complete = false;
                proof {
                    assert(!ts_in(gs[k as int], min_ts as int)) by {
                        assert forall|j: int| 0 <= j < gs[k as int].len() implies (#[trigger] gs[
                        k as int][j]).timestamp != min_ts by {
                            if j < old_cursors[k as int] {
                                assert(gs[k as int][j].timestamp <= bound);
                            } else {
                                assert(gs[k as int][old_cursors[k as int] as int].timestamp
                                    >= min_ts);
                                if j > old_cursors[k as int] {
                                    assert(gs[k as int][old_cursors[k as int] as int].timestamp
                                        < gs[k as int][j].timestamp);
                                }
                                assert(gs[k as int][j].timestamp >= min_ts);
                                assert(gs[k as int][cursors@[k as int] as int].timestamp
                                    != min_ts);
                            }
                        }
                    }
                }
            }
            k += 1;
        }

        proof {
            // timestamps strictly between the old bound and this round's
            // minimum occur in no series at all
            assert forall|t: int| bound < t < min_ts && #[trigger] common_ts(gs, t) implies false by {
                assert(ts_in(gs[0], t));
                let j = choose|j: int| 0 <= j < gs[0].len() && gs[0][j].timestamp == t;
                if j < old_cursors[0] {
                    assert(gs[0][j].timestamp <= bound);
                } else {
                    assert(gs[0][old_cursors[0] as int].timestamp >= min_ts);
                    if j > old_cursors[0] {
                        assert(gs[0][old_cursors[0] as int].timestamp < gs[0][j].timestamp);
                    }
                    assert(gs[0][j].timestamp >= min_ts);
                }
            }
        }

        let ghost old_rows = rows@;
        proof {
            assert(forall|i: int| 0 <= i < old_rows.len() ==> (#[trigger] old_rows[i]).timestamp
                <= bound);
        }
        if complete {
            rows.push(AlignedRow { timestamp: min_ts, values });
            proof {
                assert(rows@ == old_rows.push(rows@[old_rows.len() as int]));
            }
        }
        proof {
            assert forall|i: int| 0 <= i < rows@.len() implies (#[trigger] rows@[i]).timestamp
                <= min_ts && common_ts(gs, rows@[i].timestamp as int) && rows@[i].values@.len()
                == n by {
                if i < old_rows.len() {
                    assert(rows@[i] == old_rows[i]);
                    assert(old_rows[i].timestamp <= bound);
                } else {
                    assert(complete);
                    assert(rows@[i].timestamp == min_ts);
                    assert forall|k2: int| 0 <= k2 < n implies ts_in(#[trigger] gs[k2], min_ts as int) by {}
                }
            }
            assert forall|i: int, k2: int| 0 <= i < rows@.len() && 0 <= k2 < n implies (
            #[trigger] rows@[i].values@[k2]) == close_at(gs[k2], rows@[i].timestamp as int) by {
                if i < old_rows.len() {
                    assert(rows@[i] == old_rows[i]);
                } else {
                    assert(rows@[i].timestamp == min_ts);
                }
            }
            assert forall|i: int, i2: int| 0 <= i < i2 < rows@.len() implies rows@[i].timestamp
                < rows@[i2].timestamp by {
                if i2 < old_rows.len() {
                    assert(rows@[i] == old_rows[i]);
                    assert(rows@[i2] == old_rows[i2]);
                } else {
                    assert(rows@[i] == old_rows[i]);
                    assert(old_rows[i].timestamp <= bound);
                    assert(rows@[i2].timestamp == min_ts);
                }
            }
            assert forall|t: int|
                t <= min_ts && #[trigger] common_ts(gs, t) implies exists|i: int|
                    0 <= i < rows@.len() && (#[trigger] rows@[i]).timestamp == t by {
                if t <= bound {
                    let i = choose|i: int| 0 <= i < old_rows.len() && old_rows[i].timestamp == t;
                    assert(rows@[i] == old_rows[i]);
                    assert(0 <= i < rows@.len() && rows@[i].timestamp == t);
                } else if t < min_ts {
                    assert(!common_ts(gs, t));
                } else {
                    // t == min_ts: a gap would contradict commonality
                    if !complete {
                        let k2 = choose|k2: int| 0 <= k2 < n && !ts_in(gs[k2], min_ts as int);
                        assert(ts_in(gs[k2], t));
                        assert(false);
                    }
                    let i = old_rows.len() as int;
                    assert(0 <= i < rows@.len() && rows@[i].timestamp == t);
                }
            }
            bound = min_ts as int;
        }
    }

    proof {
        // every cursor is exhausted, so every common timestamp was processed
        assert forall|t: int| #[trigger] common_ts(gs, t) implies exists|i: int|
            0 <= i < rows@.len() && (#[trigger] rows@[i]).timestamp == t by {
            assert(ts_in(gs[0], t));
            let j = choose|j: int| 0 <= j < gs[0].len() && gs[0][j].timestamp == t;
            assert(cursors@[0] == gs[0].len());
            assert(gs[0][j].timestamp <= bound);
        }
    }
    rows
}

} // verus!
