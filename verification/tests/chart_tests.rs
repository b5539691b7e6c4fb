use etf_holdings::chart::chart_response;
use etf_holdings::chart::create_price_chart;
use etf_holdings::chart::merge_chart_prices;
use etf_holdings::fixed::PCT_BASE;
use etf_holdings::fixed::PRICE_SCALE;
use etf_holdings::types::DetailsEquityHolding;
use etf_holdings::types::DetailsResponse;
use etf_holdings::types::GoodError;
use etf_holdings::types::HistoricalPrices;

fn hp(ts: i64, close: u64) -> HistoricalPrices {
    HistoricalPrices {
        timestamp: ts,
        volume: 1000,
        open: close,
        low: close,
        high: close,
        close,
        adjclose: close,
    }
}

fn holding(ticker: &str, weight: u32, prices: Option<Vec<HistoricalPrices>>) -> DetailsEquityHolding {
    DetailsEquityHolding {
        ticker: ticker.to_string(),
        name: format!("{} Inc.", ticker),
        weight,
        location: "United States".to_string(),
        exchange: "NASDAQ".to_string(),
        prices,
    }
}

fn details(etf_prices: Option<Vec<HistoricalPrices>>, holdings: Vec<DetailsEquityHolding>) -> DetailsResponse {
    DetailsResponse {
        ticker: "FND".to_string(),
        name: "Fund".to_string(),
        equity_holdings: holdings,
        other_holdings: vec![],
        prices: etf_prices,
    }
}

#[test]
fn merge_without_etf_prices_is_a_generic_error() {
    let d = details(None, vec![holding("AAA", 10_000, Some(vec![hp(0, 10)]))]);
    match merge_chart_prices(&d) {
        Err(GoodError::Generic(_)) => {}
        other => panic!("expected a generic error, got {:?}", other),
    }
}

#[test]
fn merge_skips_holdings_without_prices() {
    let etf = vec![hp(0, 100), hp(86400, 110)];
    let d = details(
        Some(etf),
        vec![
            holding("AAA", 10_000, Some(vec![hp(0, 50), hp(86400, 51)])),
            holding("BBB", 20_000, None),
        ],
    );
    let m = merge_chart_prices(&d).unwrap();
    assert_eq!(m.tickers, vec!["AAA".to_string()]);
    assert_eq!(m.rows.len(), 2);
    assert_eq!(m.rows[0].etf_price, 100);
    assert_eq!(m.rows[0].holding_prices, vec![50]);
}

#[test]
fn merge_keeps_last_series_for_a_repeated_ticker() {
    let etf = vec![hp(0, 100)];
    let d = details(
        Some(etf),
        vec![
            holding("AAA", 10_000, Some(vec![hp(0, 50)])),
            holding("AAA", 10_000, Some(vec![hp(0, 77)])),
        ],
    );
    let m = merge_chart_prices(&d).unwrap();
    assert_eq!(m.tickers, vec!["AAA".to_string()]);
    assert_eq!(m.rows.len(), 1);
    assert_eq!(m.rows[0].holding_prices, vec![77]);
}

// weight 0.10 and an ETF going from 100.0 to 120.0 give a weight
// multiplier of 1.2; with the holding's last close at 12.0 its multiplier
// is (0.10 * 1.2) / 12 = 0.01, scaling every close of that holding
#[test]
fn normalizer_anchors_holdings_at_weight_times_the_funds_move() {
    let etf = vec![hp(0, 100 * PRICE_SCALE), hp(86400, 120 * PRICE_SCALE)];
    let h = vec![hp(0, 5 * PRICE_SCALE), hp(86400, 12 * PRICE_SCALE)];
    // weight 0.10 percent in fixed-point units
    let d = details(Some(etf), vec![holding("AAA", 1_000, Some(h))]);
    let m = create_price_chart(&d).unwrap();
    assert_eq!(m.tickers, vec!["AAA".to_string()]);
    assert_eq!(m.rows.len(), 2);
    // the fund starts at exactly 100.0 and ends at 120.0 on the axis
    assert_eq!(m.rows[0].etf_price, PCT_BASE);
    assert_eq!(m.rows[1].etf_price, 1_200_000);
    // every close of the holding is scaled by 0.01
    assert_eq!(m.rows[0].holding_prices, vec![500]);
    assert_eq!(m.rows[1].holding_prices, vec![1_200]);
}

#[test]
fn normalizer_starts_identical_series_at_exactly_one_hundred() {
    let s = vec![hp(0, 37), hp(86400, 41), hp(172800, 39)];
    let d = details(
        Some(s.clone()),
        vec![holding("AAA", 10_000, Some(s.clone())), holding("BBB", 10_000, Some(s))],
    );
    let m = create_price_chart(&d).unwrap();
    assert_eq!(m.rows.len(), 3);
    assert_eq!(m.rows[0].etf_price, PCT_BASE);
}

#[test]
fn chart_with_no_shared_timestamp_is_a_generic_error() {
    let etf = vec![hp(0, 100)];
    let d = details(Some(etf), vec![holding("AAA", 10_000, Some(vec![hp(86400, 50)]))]);
    match create_price_chart(&d) {
        Err(GoodError::Generic(_)) => {}
        other => panic!("expected a generic error, got {:?}", other),
    }
}

#[test]
fn chart_pipeline_is_deterministic() {
    let etf = vec![hp(0, 100 * PRICE_SCALE), hp(86400, 103 * PRICE_SCALE)];
    let h = vec![hp(0, 7 * PRICE_SCALE), hp(86400, 9 * PRICE_SCALE)];
    let d = details(Some(etf), vec![holding("AAA", 25_000, Some(h))]);
    let first = create_price_chart(&d).unwrap();
    let second = create_price_chart(&d).unwrap();
    assert_eq!(first, second);
}

#[test]
fn chart_response_carries_fund_identity_and_holding_metadata() {
    let etf = vec![hp(0, 100), hp(86400, 110)];
    let d = details(
        Some(etf),
        vec![
            holding("AAA", 10_000, Some(vec![hp(0, 50), hp(86400, 51)])),
            holding("BBB", 20_000, None),
        ],
    );
    let c = chart_response(&d).unwrap();
    assert_eq!(c.etf_ticker, "FND");
    assert_eq!(c.etf_name, "Fund");
    // every equity holding appears in the display metadata, charted or not
    let tickers: Vec<&str> = c.holding_details.iter().map(|h| h.ticker.as_str()).collect();
    assert_eq!(tickers, vec!["AAA", "BBB"]);
    assert_eq!(c.holding_details[1].name, "BBB Inc.");
    // only the holding with a series is charted
    assert_eq!(c.chart_tickers, vec!["AAA".to_string()]);
    assert_eq!(c.chart.len(), 2);
}

#[test]
fn chart_response_on_missing_etf_prices_is_generic_not_notfound() {
    let d = details(None, vec![holding("AAA", 10_000, Some(vec![hp(0, 10)]))]);
    match chart_response(&d) {
        Err(GoodError::Generic(_)) => {}
        other => panic!("expected a generic error, got {:?}", other),
    }
}
