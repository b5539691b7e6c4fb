//! Fully qualified tickers.
//!
//! A ticker is only unique within its own exchange, so for price lookups it
//! is qualified with the exchange's suffix from [`crate::exchange`]. A few
//! known aliases are corrected afterwards: spreadsheet-mangled Hong Kong
//! tickers lose their leading zero (`968.HK` stands for `0968.HK`). When the
//! exchange is unknown, the raw ticker is used unchanged — a named fallback
//! policy, chosen over failing the holding.

use vstd::prelude::*;

use crate::exchange::spec_suffix_for;
use crate::exchange::ticker_with_exchange_suffix;
use crate::text::str_eq;

verus! {

/// Known ticker aliases, mapped to the canonical ticker.
pub open spec fn spec_ticker_override(t: Seq<char>) -> Seq<char> {
    if t == "451.HK"@ {
        "0451.HK"@
    } else if t == "968.HK"@ {
        "0968.HK"@
    } else {
        t
    }
}

/// The fully qualified form of a ticker listed on a named exchange.
pub open spec fn spec_fully_qualified(ticker: Seq<char>, exchange: Seq<char>) -> Seq<char> {
    match spec_suffix_for(exchange) {
        Some(suffix) => spec_ticker_override(ticker + suffix),
        None => ticker,
    }
}

/// Returns a fully qualified ticker that can be used for price information:
/// the ticker with its exchange's suffix appended and known aliases
/// corrected, or the raw ticker when the exchange is unknown.
pub fn fully_qualified_ticker(ticker: &String, exchange_name: &String) -> (r: String)
    ensures
        r@ == spec_fully_qualified(ticker@, exchange_name@),
{
    match ticker_with_exchange_suffix(ticker, exchange_name) {
        Some(full) => {
            if str_eq(full.as_str(), "451.HK") {
                "0451.HK".to_owned()
            } else if str_eq(full.as_str(), "968.HK") {
                "0968.HK".to_owned()
            } else {
                full
            }
        },
        None => ticker.clone(),
    }
}

} // verus!
