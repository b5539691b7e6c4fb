use etf_holdings::registry::ETFHoldings;
use etf_holdings::types::ETFListItem;
use etf_holdings::types::Error;

fn item(ticker: &str) -> ETFListItem {
    ETFListItem { ticker: ticker.to_string(), name: format!("{} Fund", ticker) }
}

#[test]
fn registry_concatenates_all_successful_catalogs() {
    let registry = ETFHoldings::new(&vec![
        Some(vec![item("AAA"), item("BBB")]),
        None,
        Some(vec![item("BBB"), item("CCC")]),
    ]);
    let list = registry.etf_list();
    let tickers: Vec<&str> = list.iter().map(|i| i.ticker.as_str()).collect();
    assert_eq!(tickers, vec!["AAA", "BBB", "BBB", "CCC"]);
    assert_eq!(list[0].name, "AAA Fund");
}

#[test]
fn registry_routes_to_the_last_registered_provider() {
    let registry = ETFHoldings::new(&vec![
        Some(vec![item("AAA"), item("BBB")]),
        Some(vec![item("BBB"), item("CCC")]),
    ]);
    assert_eq!(registry.lookup_manager("AAA"), Ok(0));
    // a ticker collision goes to the last-registered provider
    assert_eq!(registry.lookup_manager("BBB"), Ok(1));
    assert_eq!(registry.lookup_manager("CCC"), Ok(1));
}

#[test]
fn registry_unknown_ticker_is_notfound() {
    let registry = ETFHoldings::new(&vec![Some(vec![item("AAA")])]);
    assert_eq!(registry.lookup_manager("ZZZ"), Err(Error::NotFound));
}

#[test]
fn registry_with_every_catalog_failed_is_empty() {
    let registry = ETFHoldings::new(&vec![None, None]);
    assert_eq!(registry.etf_list().len(), 0);
    assert_eq!(registry.lookup_manager("AAA"), Err(Error::NotFound));
}

#[test]
fn registry_skips_a_failed_provider_but_keeps_the_others() {
    let registry = ETFHoldings::new(&vec![None, Some(vec![item("AAA")])]);
    assert_eq!(registry.etf_list().len(), 1);
    assert_eq!(registry.lookup_manager("AAA"), Ok(1));
}
