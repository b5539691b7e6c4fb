use etf_holdings::cache::Cache;
use etf_holdings::chart::chart_response;
use etf_holdings::details::details_response;
use etf_holdings::details::equity_tickers;
use etf_holdings::registry::ETFHoldings;
use etf_holdings::types::to_response_error;
use etf_holdings::types::ChartResponse;
use etf_holdings::types::DetailsResponse;
use etf_holdings::types::ETFListItem;
use etf_holdings::types::Error;
use etf_holdings::types::GoodError;
use etf_holdings::types::HistoricalPrices;
use etf_holdings::types::Holding;
use etf_holdings::types::ETF;

fn hp(ts: i64, close: u64) -> HistoricalPrices {
    HistoricalPrices {
        timestamp: ts,
        volume: 1000,
        open: close,
        low: close,
        high: close,
        close,
        adjclose: close,
    }
}

fn equity(ticker: &str, weight: u32) -> Holding {
    Holding {
        ticker: ticker.to_string(),
        name: format!("{} Inc.", ticker),
        asset_class: "Equity".to_string(),
        market_value: 1_000_000,
        weight,
        notional_value: 1_000_000,
        shares: 100_0000,
        price: 100_0000,
        location: "United States".to_string(),
        exchange: "NASDAQ".to_string(),
        currency: "USD".to_string(),
        fx_rate: 10_000,
        market_currency: "USD".to_string(),
    }
}

fn cash(weight: u32) -> Holding {
    let mut h = equity("USD", weight);
    h.asset_class = "Cash".to_string();
    h
}

/// A stub environment standing in for the network: one provider, a fund
/// catalog, a price source, and counters for every outbound fetch.
struct Stub {
    funds: Vec<(String, ETF)>,
    prices: Vec<(String, Vec<HistoricalPrices>)>,
    failing_tickers: Vec<String>,
    fund_fetches: usize,
    price_fetches: usize,
}

impl Stub {
    fn fetch_fund(&mut self, ticker: &str) -> Result<ETF, Error> {
        self.fund_fetches += 1;
        for (t, f) in &self.funds {
            if t == ticker {
                return Ok(f.clone());
            }
        }
        Err(Error::Generic(format!("{} not in stub catalog", ticker)))
    }

    fn fetch_prices(&mut self, ticker: &str) -> Result<Vec<HistoricalPrices>, Error> {
        self.price_fetches += 1;
        if self.failing_tickers.iter().any(|t| t == ticker) {
            return Err(Error::Generic(format!("price source down for {}", ticker)));
        }
        for (t, p) in &self.prices {
            if t == ticker {
                return Ok(p.clone());
            }
        }
        Err(Error::Generic(format!("{} has no stub prices", ticker)))
    }
}

/// The cache-aside details flow, exactly as the runtime drives it: cached
/// aggregate, else route to the owning provider, fetch, enrich each equity
/// holding (tolerating per-holding price failures), assemble, cache.
fn details_flow(
    cache: &mut Cache,
    registry: &ETFHoldings,
    stub: &mut Stub,
    ticker: &str,
) -> Result<DetailsResponse, GoodError> {
    if let Some(d) = cache.get_details(ticker) {
        return Ok(d.clone());
    }
    if let Err(e) = registry.lookup_manager(ticker) {
        return Err(to_response_error(&e, ticker));
    }
    let etf = match stub.fetch_fund(ticker) {
        Ok(etf) => etf,
        Err(e) => return Err(to_response_error(&e, ticker)),
    };
    if etf.holdings.len() > 0x8000_0000 {
        return Err(GoodError::Generic("too many holdings".to_string()));
    }
    let mut equity_prices = Vec::new();
    for t in equity_tickers(&etf) {
        let series = match cache.get_prices(&t) {
            Some(p) => Some(p.clone()),
            None => match stub.fetch_prices(&t) {
                Ok(p) => {
                    cache.insert_prices(t.clone(), p.clone());
                    Some(p)
                }
                Err(_) => None,
            },
        };
        equity_prices.push(series);
    }
    let etf_prices = match cache.get_prices(ticker) {
        Some(p) => Some(p.clone()),
        None => match stub.fetch_prices(ticker) {
            Ok(p) => {
                cache.insert_prices(ticker.to_string(), p.clone());
                Some(p)
            }
            Err(_) => None,
        },
    };
    let d = details_response(&etf, equity_prices, etf_prices);
    cache.insert_details(ticker.to_string(), d.clone());
    Ok(d)
}

fn chart_flow(
    cache: &mut Cache,
    registry: &ETFHoldings,
    stub: &mut Stub,
    ticker: &str,
) -> Result<ChartResponse, GoodError> {
    let d = details_flow(cache, registry, stub, ticker)?;
    chart_response(&d)
}

fn item(ticker: &str) -> ETFListItem {
    ETFListItem { ticker: ticker.to_string(), name: format!("{} Fund", ticker) }
}

fn stub_world() -> (ETFHoldings, Stub) {
    let registry = ETFHoldings::new(&vec![Some(vec![item("FND")])]);
    let fund = ETF {
        ticker: "FND".to_string(),
        name: "FND Fund".to_string(),
        last_update: "Jan 1".to_string(),
        outstanding_shares: 1_000_000_0000,
        holdings: vec![equity("AAA", 300_000), equity("BBB", 200_000), cash(500_000)],
    };
    let stub = Stub {
        funds: vec![("FND".to_string(), fund)],
        prices: vec![
            ("FND".to_string(), vec![hp(0, 1_000_000), hp(86400, 1_200_000)]),
            ("AAA".to_string(), vec![hp(0, 500_000), hp(86400, 520_000)]),
            ("BBB".to_string(), vec![hp(0, 80_000), hp(86400, 90_000)]),
        ],
        failing_tickers: vec![],
        fund_fetches: 0,
        price_fetches: 0,
    };
    (registry, stub)
}

#[test]
fn second_details_call_hits_the_cache_and_fetches_nothing() {
    let (registry, mut stub) = stub_world();
    let mut cache = Cache::new();
    let first = details_flow(&mut cache, &registry, &mut stub, "FND").unwrap();
    let fund_fetches = stub.fund_fetches;
    let price_fetches = stub.price_fetches;
    let second = details_flow(&mut cache, &registry, &mut stub, "FND").unwrap();
    assert_eq!(first, second);
    assert_eq!(stub.fund_fetches, fund_fetches);
    assert_eq!(stub.price_fetches, price_fetches);
}

#[test]
fn unknown_ticker_is_notfound_never_generic() {
    let (registry, mut stub) = stub_world();
    let mut cache = Cache::new();
    match details_flow(&mut cache, &registry, &mut stub, "NOPE") {
        Err(GoodError::NotFound(_)) => {}
        other => panic!("expected NotFound, got {:?}", other),
    }
    match chart_flow(&mut cache, &registry, &mut stub, "NOPE") {
        Err(GoodError::NotFound(_)) => {}
        other => panic!("expected NotFound, got {:?}", other),
    }
    // routing failed before any provider was contacted
    assert_eq!(stub.fund_fetches, 0);
}

#[test]
fn one_failing_price_fetch_degrades_only_that_holding() {
    let (registry, mut stub) = stub_world();
    stub.failing_tickers.push("BBB".to_string());
    let mut cache = Cache::new();
    let d = details_flow(&mut cache, &registry, &mut stub, "FND").unwrap();
    assert_eq!(d.equity_holdings.len(), 2);
    assert_eq!(d.equity_holdings[0].ticker, "AAA");
    assert!(d.equity_holdings[0].prices.is_some());
    assert_eq!(d.equity_holdings[1].ticker, "BBB");
    assert!(d.equity_holdings[1].prices.is_none());
    assert!(d.prices.is_some());
}

#[test]
fn details_partitions_equities_and_sums_other_weights() {
    let (registry, mut stub) = stub_world();
    let mut cache = Cache::new();
    let d = details_flow(&mut cache, &registry, &mut stub, "FND").unwrap();
    assert_eq!(d.ticker, "FND");
    assert_eq!(d.name, "FND Fund");
    assert_eq!(d.equity_holdings.len(), 2);
    assert_eq!(d.other_holdings, vec![("Cash".to_string(), 500_000u64)]);
}

#[test]
fn chart_flow_produces_a_normalized_chart() {
    let (registry, mut stub) = stub_world();
    let mut cache = Cache::new();
    let c = chart_flow(&mut cache, &registry, &mut stub, "FND").unwrap();
    assert_eq!(c.etf_ticker, "FND");
    assert_eq!(c.chart_tickers, vec!["AAA".to_string(), "BBB".to_string()]);
    assert_eq!(c.chart.len(), 2);
    // the fund starts at 100.0 on the percentage axis and gains 20%
    assert_eq!(c.chart[0].etf_price, 1_000_000);
    assert_eq!(c.chart[1].etf_price, 1_200_000);
    // at the last timestamp each holding sits at weight * 1.2
    assert_eq!(c.chart[1].holding_prices, vec![360_000, 240_000]);
}

#[test]
fn price_failures_are_not_cached_so_a_later_call_retries() {
    let (registry, mut stub) = stub_world();
    stub.failing_tickers.push("BBB".to_string());
    let mut cache = Cache::new();
    let d1 = details_flow(&mut cache, &registry, &mut stub, "FND").unwrap();
    assert!(d1.equity_holdings[1].prices.is_none());
    // the source recovers; a fresh details assembly sees the series
    stub.failing_tickers.clear();
    let fetches_before = stub.price_fetches;
    let p = stub.fetch_prices("BBB").unwrap();
    assert_eq!(stub.price_fetches, fetches_before + 1);
    assert_eq!(p.len(), 2);
}
