use etf_holdings::exchange::ticker_with_exchange_suffix;
use etf_holdings::fixed::parse_weird_float;
use etf_holdings::series::assemble_price_series;
use etf_holdings::series::midnight_timestamp;
use etf_holdings::ticker::fully_qualified_ticker;
use etf_holdings::types::Error;

#[test]
fn parses_numbers_with_comma_separators() {
    assert_eq!(parse_weird_float("123,342.28"), Ok(1_233_422_800));
    assert_eq!(parse_weird_float("1,000"), Ok(10_000_000));
    assert_eq!(parse_weird_float("0"), Ok(0));
}

#[test]
fn parses_signs_and_fractions() {
    assert_eq!(parse_weird_float("-12.5"), Ok(-125_000));
    assert_eq!(parse_weird_float(".5"), Ok(5_000));
    assert_eq!(parse_weird_float("5."), Ok(50_000));
    assert_eq!(parse_weird_float("-.25"), Ok(-2_500));
}

#[test]
fn truncates_past_the_fourth_decimal() {
    assert_eq!(parse_weird_float("1.23456"), Ok(12_345));
    assert_eq!(parse_weird_float("0.00001"), Ok(0));
}

#[test]
fn commas_are_dropped_wherever_they_stand() {
    assert_eq!(parse_weird_float("1,2,3.4"), Ok(1_234_000));
    assert_eq!(parse_weird_float(",5,"), Ok(50_000));
}

#[test]
fn rejects_text_that_is_not_a_decimal() {
    assert!(parse_weird_float("").is_err());
    assert!(parse_weird_float("-").is_err());
    assert!(parse_weird_float(".").is_err());
    assert!(parse_weird_float("--5").is_err());
    assert!(parse_weird_float("1.2.3").is_err());
    assert!(parse_weird_float("12a").is_err());
    assert!(parse_weird_float("1e5").is_err());
}

#[test]
fn rejects_magnitudes_beyond_the_fixed_point_range() {
    assert!(parse_weird_float("922337203685478").is_err());
    match parse_weird_float("99999999999999999999999999") {
        Err(Error::Generic(_)) => {}
        other => panic!("expected a generic error, got {:?}", other),
    }
}

#[test]
fn qualifies_tickers_with_their_exchange_suffix() {
    let mel = fully_qualified_ticker(&"MEL".to_string(), &"New Zealand Exchange Ltd".to_string());
    assert_eq!(mel, "MEL.NZ");
    let us = fully_qualified_ticker(&"AAPL".to_string(), &"NASDAQ".to_string());
    assert_eq!(us, "AAPL");
}

#[test]
fn corrects_known_ticker_aliases() {
    let xinyi = fully_qualified_ticker(
        &"968".to_string(),
        &"Hong Kong Exchanges And Clearing Ltd".to_string(),
    );
    assert_eq!(xinyi, "0968.HK");
}

#[test]
fn falls_back_to_the_raw_ticker_for_an_unknown_exchange() {
    let t = fully_qualified_ticker(&"ABC".to_string(), &"Some Private Venue".to_string());
    assert_eq!(t, "ABC");
    assert_eq!(
        ticker_with_exchange_suffix(&"ABC".to_string(), &"Some Private Venue".to_string()),
        None,
    );
}

#[test]
fn normalizes_timestamps_to_utc_midnight() {
    assert_eq!(midnight_timestamp(0), 0);
    assert_eq!(midnight_timestamp(86399), 0);
    assert_eq!(midnight_timestamp(86400), 86400);
    assert_eq!(midnight_timestamp(90000), 86400);
}

#[test]
fn assembles_a_series_from_price_source_columns() {
    let series = assemble_price_series(
        &vec![34200, 120600],
        &vec![10, 20],
        &vec![1, 2],
        &vec![1, 2],
        &vec![1, 2],
        &vec![100, 200],
        &vec![1, 2],
        -3600,
    )
    .unwrap();
    assert_eq!(series.len(), 2);
    // 34200 + 3600 = 37800, whose UTC midnight is 0
    assert_eq!(series[0].timestamp, 0);
    assert_eq!(series[1].timestamp, 86400);
    assert_eq!(series[0].close, 100);
    assert_eq!(series[0].volume, 10);
    assert_eq!(series[1].adjclose, 2);
}

#[test]
fn rejects_columns_shorter_than_the_timestamps() {
    let r = assemble_price_series(
        &vec![0, 86400],
        &vec![10],
        &vec![1, 2],
        &vec![1, 2],
        &vec![1, 2],
        &vec![100, 200],
        &vec![1, 2],
        0,
    );
    assert!(r.is_err());
}

#[test]
fn rejects_two_points_on_the_same_trading_day() {
    let r = assemble_price_series(
        &vec![1000, 2000],
        &vec![10, 20],
        &vec![1, 2],
        &vec![1, 2],
        &vec![1, 2],
        &vec![100, 200],
        &vec![1, 2],
        0,
    );
    assert!(r.is_err());
}

#[test]
fn rejects_a_zero_close() {
    let r = assemble_price_series(
        &vec![0],
        &vec![10],
        &vec![1],
        &vec![1],
        &vec![1],
        &vec![0],
        &vec![1],
        0,
    );
    assert!(r.is_err());
}
