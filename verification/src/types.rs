//! Data model: funds, holdings, price series, detail aggregates, chart
//! aggregates, and the two error taxonomies.
//!
//! Monetary fields are fixed-point integers scaled by
//! [`crate::fixed::PRICE_SCALE`]; weights are the provider's percentage
//! (0–100) in the same fixed-point units, held in a `u32`.

use vstd::prelude::*;

use crate::text::concat3;

verus! {

/// Error taxonomy of the provider layer: a ticker unknown to every provider
/// is `NotFound`; any network, parse or invariant failure is `Generic`.
#[derive(Debug, Clone, PartialEq)]
pub enum Error {
    Generic(String),
    NotFound,
}

/// Error taxonomy of the response layer. `NotFound` must map to a distinct
/// outward signal from all other failures, so a client can tell "no such
/// ticker" from a transient failure.
#[derive(Debug, Clone, PartialEq)]
pub enum GoodError {
    Generic(String),
    NotFound(String),
}

/// Wraps a plain message as the generic response error.
pub fn to_good_error(msg: String) -> (r: GoodError)
    ensures
        r == GoodError::Generic(msg),
{
    GoodError::Generic(msg)
}

/// Maps a provider-layer error outward for a ticker request, keeping the
/// `NotFound` signal distinct from every other failure so a client can tell
/// "no such ticker" from a transient error.
pub fn to_response_error(e: &Error, ticker: &str) -> (r: GoodError)
    ensures
        e is NotFound ==> (r matches GoodError::NotFound(m) && m@ == "Can't find "@ + ticker@
            + " in ETFHoldings."@),
        e matches Error::Generic(g) ==> (r matches GoodError::Generic(m) && m@
            == "Error ETFHoldings::etf_details("@ + ticker@ + "): "@ + g@),
{
    match e {
        Error::NotFound => GoodError::NotFound(
            concat3("Can't find ", ticker, " in ETFHoldings."),
        ),
        Error::Generic(msg) => {
            let mut m = concat3("Error ETFHoldings::etf_details(", ticker, "): ");
            m.append(msg.as_str());
            GoodError::Generic(m)
        },
    }
}

/// Limited fund information used for listing available ETFs.
#[derive(Debug, Clone, PartialEq)]
pub struct ETFListItem {
    pub ticker: String,
    pub name: String,
}

/// One holding of a fund, as reported by its provider. Immutable once
/// constructed; the weight is a percentage of the fund, not validated to
/// sum to 100 across the fund.
#[derive(Debug, Clone, PartialEq)]
pub struct Holding {
    pub ticker: String,
    pub name: String,
    pub asset_class: String,
    pub market_value: i64,
    pub weight: u32,
    pub notional_value: i64,
    pub shares: i64,
    pub price: i64,
    pub location: String,
    pub exchange: String,
    pub currency: String,
    pub fx_rate: i64,
    pub market_currency: String,
}

/// A full fund record: metadata plus the provider-ordered holdings list.
/// The last-update label is an opaque provider string, never parsed.
#[derive(Debug, Clone, PartialEq)]
pub struct ETF {
    pub ticker: String,
    pub name: String,
    pub last_update: String,
    pub outstanding_shares: i64,
    pub holdings: Vec<Holding>,
}

/// One trading day of a historical price series. The timestamp is a Unix
/// time in seconds, normalized to UTC midnight of the trading day.
#[derive(Debug, Clone, Copy, PartialEq, Eq)]
pub struct HistoricalPrices {
    pub timestamp: i64,
    pub volume: i64,
    pub open: u64,
    pub low: u64,
    pub high: u64,
    pub close: u64,
    pub adjclose: u64,
}

/// An equity holding enriched with its (possibly absent) price series.
#[derive(Debug, Clone, PartialEq)]
pub struct DetailsEquityHolding {
    pub ticker: String,
    pub name: String,
    pub weight: u32,
    pub location: String,
    pub exchange: String,
    pub prices: Option<Vec<HistoricalPrices>>,
}

/// The per-ticker details aggregate: enriched equity holdings, summed
/// non-equity weights by asset class, and the fund's own price series.
/// Derived, cached, immutable once built.
#[derive(Debug, Clone, PartialEq)]
pub struct DetailsResponse {
    pub ticker: String,
    pub name: String,
    pub equity_holdings: Vec<DetailsEquityHolding>,
    pub other_holdings: Vec<(String, u64)>,
    pub prices: Option<Vec<HistoricalPrices>>,
}

/// Display metadata for one charted holding.
#[derive(Debug, Clone, PartialEq)]
pub struct ChartHoldingDetails {
    pub ticker: String,
    pub name: String,
}

/// One chart row: a timestamp shared by every charted series, the fund's
/// value and, for each charted holding (in the order of the surrounding
/// aggregate's ticker list), the holding's value.
#[derive(Debug, Clone, PartialEq)]
pub struct ChartPrice {
    pub timestamp: i64,
    pub etf_price: u64,
    pub holding_prices: Vec<u64>,
}

/// The chart aggregate: fund identity, display metadata for the equity
/// holdings, the charted tickers, and the aligned, normalized rows. A row's
/// `holding_prices` are parallel to `chart_tickers`.
#[derive(Debug, Clone, PartialEq)]
pub struct ChartResponse {
    pub etf_ticker: String,
    pub etf_name: String,
    pub holding_details: Vec<ChartHoldingDetails>,
    pub chart_tickers: Vec<String>,
    pub chart: Vec<ChartPrice>,
}

} // verus!
