use etf_holdings::cache::Cache;
use etf_holdings::table::TickerTable;
use etf_holdings::types::to_good_error;
use etf_holdings::types::to_response_error;
use etf_holdings::types::DetailsResponse;
use etf_holdings::types::Error;
use etf_holdings::types::GoodError;

fn details(ticker: &str, name: &str) -> DetailsResponse {
    DetailsResponse {
        ticker: ticker.to_string(),
        name: name.to_string(),
        equity_holdings: vec![],
        other_holdings: vec![],
        prices: None,
    }
}

#[test]
fn a_cached_entry_is_served_verbatim() {
    let mut cache = Cache::new();
    assert!(cache.get_details("FND").is_none());
    let d = details("FND", "Fund");
    cache.insert_details("FND".to_string(), d.clone());
    assert_eq!(cache.get_details("FND"), Some(&d));
    // another ticker is untouched
    assert!(cache.get_details("OTHER").is_none());
}

#[test]
fn inserting_again_replaces_the_entry() {
    let mut table: TickerTable<u64> = TickerTable::new();
    table.insert("A".to_string(), 1);
    table.insert("B".to_string(), 2);
    table.insert("A".to_string(), 3);
    assert_eq!(table.get("A"), Some(&3));
    assert_eq!(table.get("B"), Some(&2));
    assert_eq!(table.get("C"), None);
}

#[test]
fn the_two_cache_maps_are_independent() {
    let mut cache = Cache::new();
    cache.insert_details("FND".to_string(), details("FND", "Fund"));
    assert!(cache.get_prices("FND").is_none());
    cache.insert_prices("FND".to_string(), vec![]);
    assert!(cache.get_prices("FND").is_some());
    assert!(cache.get_details("FND").is_some());
}

#[test]
fn error_mapping_keeps_notfound_distinct() {
    match to_response_error(&Error::NotFound, "XYZ") {
        GoodError::NotFound(m) => assert_eq!(m, "Can't find XYZ in ETFHoldings."),
        other => panic!("expected NotFound, got {:?}", other),
    }
    match to_response_error(&Error::Generic("boom".to_string()), "XYZ") {
        GoodError::Generic(m) => {
            assert_eq!(m, "Error ETFHoldings::etf_details(XYZ): boom")
        }
        other => panic!("expected Generic, got {:?}", other),
    }
}

#[test]
fn to_good_error_wraps_a_plain_message() {
    assert_eq!(
        to_good_error("oops".to_string()),
        GoodError::Generic("oops".to_string()),
    );
}
