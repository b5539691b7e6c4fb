//! Mapping of exchange names to the suffix used in globally unique ticker
//! symbols, following the convention of the price source
//! (https://help.yahoo.com/kb/SLN2310.html): United States exchanges get no
//! suffix, every other supported exchange gets a dotted country suffix.

use vstd::prelude::*;

use crate::text::concat2;
use crate::text::str_eq;

verus! {

/// The suffix table: `None` means the exchange is not known here.
pub open spec fn spec_suffix_for(e: Seq<char>) -> Option<Seq<char>> {
    if e == "New York Stock Exchange Inc."@ {
        Some(""@)
    } else if e == "NASDAQ"@ {
        Some(""@)
    } else if e == "Nyse Mkt Llc"@ {
        Some(""@)
    } else if e == "Cboe BZX formerly known as BATS"@ {
        Some(""@)
    } else if e == "Asx - All Markets"@ {
        Some(".AX"@)
    } else if e == "Omx Nordic Exchange Copenhagen A/S"@ {
        Some(".CO"@)
    } else if e == "London Stock Exchange"@ {
        Some(".L"@)
    } else if e == "Bolsa De Madrid"@ {
        Some(".MC"@)
    } else if e == "Nyse Euronext - Euronext Lisbon"@ {
        Some(".LS"@)
    } else if e == "Hong Kong Exchanges And Clearing Ltd"@ {
        Some(".HK"@)
    } else if e == "Wiener Boerse Ag"@ {
        Some(".VI"@)
    } else if e == "Xetra"@ {
        Some(".DE"@)
    } else if e == "Toronto Stock Exchange"@ {
        Some(".TO"@)
    } else if e == "Korea Exchange (Stock Market)"@ {
        Some(".KS"@)
    } else if e == "Korea Exchange (Kosdaq)"@ {
        Some(".KQ"@)
    } else if e == "New Zealand Exchange Ltd"@ {
        Some(".NZ"@)
    } else if e == "Oslo Bors Asa"@ {
        Some(".OL"@)
    } else if e == "Nyse Euronext - Euronext Paris"@ {
        Some(".PA"@)
    } else if e == "SIX Swiss Exchange"@ {
        Some(".SW"@)
    } else if e == "Tokyo Stock Exchange"@ {
        Some(".T"@)
    } else if e == "Tel Aviv Stock Exchange"@ {
        Some(".TA"@)
    } else if e == "Borsa Italiana"@ {
        Some(".MI"@)
    } else if e == "Nasdaq Omx Nordic"@ {
        Some(".ST"@)
    } else if e == "Euronext Amsterdam"@ {
        Some(".AS"@)
    } else if e == "Nyse Euronext - Euronext Brussels"@ {
        Some(".BR"@)
    } else if e == "Nasdaq Omx Helsinki Ltd."@ {
        Some(".HE"@)
    } else if e == "Singapore Exchange"@ {
        Some(".SI"@)
    } else if e == "Irish Stock Exchange - All Market"@ {
        Some(".IR"@)
    } else {
        None
    }
}

/// Appends the exchange's suffix to the ticker, or returns `None` for an
/// exchange the table does not know.
pub fn ticker_with_exchange_suffix(ticker: &String, exchange_name: &String) -> (r: Option<String>)
    ensures
        match r {
            Some(t) => {
                &&& spec_suffix_for(exchange_name@) is Some
                &&& t@ == ticker@ + spec_suffix_for(exchange_name@)->Some_0
            },
            None => spec_suffix_for(exchange_name@) is None,
        },
{
    let e = exchange_name.as_str();
    let suffix: Option<&str> = if str_eq(e, "New York Stock Exchange Inc.") {
        Some("")
    } else if str_eq(e, "NASDAQ") {
        Some("")
    } else if str_eq(e, "Nyse Mkt Llc") {
        Some("")
    } else if str_eq(e, "Cboe BZX formerly known as BATS") {
        Some("")
    } else if str_eq(e, "Asx - All Markets") {
        Some(".AX")
    } else if str_eq(e, "Omx Nordic Exchange Copenhagen A/S") {
        Some(".CO")
    } else if str_eq(e, "London Stock Exchange") {
        Some(".L")
    } else if str_eq(e, "Bolsa De Madrid") {
        Some(".MC")
    } else if str_eq(e, "Nyse Euronext - Euronext Lisbon") {
        Some(".LS")
    } else if str_eq(e, "Hong Kong Exchanges And Clearing Ltd") {
        Some(".HK")
    } else if str_eq(e, "Wiener Boerse Ag") {
        Some(".VI")
    } else if str_eq(e, "Xetra") {
        Some(".DE")
    } else if str_eq(e, "Toronto Stock Exchange") {
        Some(".TO")
    } else if str_eq(e, "Korea Exchange (Stock Market)") {
        Some(".KS")
    } else if str_eq(e, "Korea Exchange (Kosdaq)") {
        Some(".KQ")
    } else if str_eq(e, "New Zealand Exchange Ltd") {
        Some(".NZ")
    } else if str_eq(e, "Oslo Bors Asa") {
        Some(".OL")
    } else if str_eq(e, "Nyse Euronext - Euronext Paris") {
        Some(".PA")
    } else if str_eq(e, "SIX Swiss Exchange") {
        Some(".SW")
    } else if str_eq(e, "Tokyo Stock Exchange") {
        Some(".T")
    } else if str_eq(e, "Tel Aviv Stock Exchange") {
        Some(".TA")
    } else if str_eq(e, "Borsa Italiana") {
        Some(".MI")
    } else if str_eq(e, "Nasdaq Omx Nordic") {
        Some(".ST")
    } else if str_eq(e, "Euronext Amsterdam") {
        Some(".AS")
    } else if str_eq(e, "Nyse Euronext - Euronext Brussels") {
        Some(".BR")
    } else if str_eq(e, "Nasdaq Omx Helsinki Ltd.") {
        Some(".HE")
    } else if str_eq(e, "Singapore Exchange") {
        Some(".SI")
    } else if str_eq(e, "Irish Stock Exchange - All Market") {
        Some(".IR")
    } else {
        None
    };
    match suffix {
        Some(suf) => Some(concat2(ticker.as_str(), suf)),
        None => None,
    }
}

} // verus!
