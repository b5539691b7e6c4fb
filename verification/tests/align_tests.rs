use etf_holdings::align::align_closes;
use etf_holdings::align::AlignedRow;
use etf_holdings::types::HistoricalPrices;

fn hp(ts: i64, close: u64) -> HistoricalPrices {
    HistoricalPrices {
        timestamp: ts,
        volume: 1000,
        open: close,
        low: close,
        high: close,
        close,
        adjclose: close,
    }
}

#[test]
fn aligner_zero_series_gives_zero_rows() {
    let rows = align_closes(&vec![]);
    assert_eq!(rows.len(), 0);
}

#[test]
fn aligner_single_series_is_reproduced_verbatim() {
    let s = vec![hp(0, 10), hp(86400, 11), hp(172800, 12)];
    let rows = align_closes(&vec![s.clone()]);
    assert_eq!(rows.len(), 3);
    for (row, point) in rows.iter().zip(s.iter()) {
        assert_eq!(row.timestamp, point.timestamp);
        assert_eq!(row.values, vec![point.close]);
    }
}

#[test]
fn aligner_drops_timestamps_any_series_lacks() {
    // series A has t=0 and t=1 days, series B only t=0: t=1 is dropped
    let a = vec![hp(0, 10), hp(86400, 11)];
    let b = vec![hp(0, 100)];
    let rows = align_closes(&vec![a, b]);
    assert_eq!(rows.len(), 1);
    assert_eq!(rows[0].timestamp, 0);
    assert_eq!(rows[0].values, vec![10, 100]);
}

#[test]
fn aligner_disjoint_series_give_zero_rows() {
    let a = vec![hp(0, 10), hp(172800, 11)];
    let b = vec![hp(86400, 100), hp(259200, 101)];
    let rows = align_closes(&vec![a, b]);
    assert_eq!(rows.len(), 0);
}

#[test]
fn aligner_three_disjoint_series_give_zero_rows() {
    let a = vec![hp(0, 10)];
    let b = vec![hp(86400, 20)];
    let c = vec![hp(172800, 30)];
    let rows = align_closes(&vec![a, b, c]);
    assert_eq!(rows.len(), 0);
}

#[test]
fn aligner_empty_series_blocks_every_row() {
    let a = vec![hp(0, 10), hp(86400, 11)];
    let empty: Vec<HistoricalPrices> = vec![];
    let rows = align_closes(&vec![a, empty]);
    assert_eq!(rows.len(), 0);
}

#[test]
fn aligner_identical_series_are_reproduced() {
    let s = vec![hp(0, 10), hp(86400, 11), hp(172800, 12)];
    let rows = align_closes(&vec![s.clone(), s.clone(), s.clone()]);
    assert_eq!(rows.len(), s.len());
    for (row, point) in rows.iter().zip(s.iter()) {
        assert_eq!(row.timestamp, point.timestamp);
        assert_eq!(row.values, vec![point.close, point.close, point.close]);
    }
}

#[test]
fn aligner_keeps_only_shared_timestamps() {
    let a = vec![hp(0, 1), hp(86400, 2), hp(172800, 3), hp(345600, 4)];
    let b = vec![hp(86400, 20), hp(172800, 30), hp(259200, 35)];
    let c = vec![hp(0, 7), hp(86400, 8), hp(172800, 9)];
    let rows = align_closes(&vec![a, b, c]);
    let expected: Vec<AlignedRow> = vec![
        AlignedRow { timestamp: 86400, values: vec![2, 20, 8] },
        AlignedRow { timestamp: 172800, values: vec![3, 30, 9] },
    ];
    assert_eq!(rows, expected);
}

#[test]
fn aligner_is_deterministic_on_the_same_input() {
    let a = vec![hp(0, 1), hp(86400, 2), hp(172800, 3)];
    let b = vec![hp(0, 5), hp(172800, 6)];
    let input = vec![a, b];
    let first = align_closes(&input);
    let second = align_closes(&input);
    assert_eq!(first, second);
}
