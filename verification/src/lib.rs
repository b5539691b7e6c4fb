//! Aggregates per-fund holdings data, caches derived artifacts, and produces
//! aligned multi-series price charts for an exchange-traded fund and its
//! constituent holdings.
//!
//! All monetary quantities are fixed-point integers scaled by
//! [`fixed::PRICE_SCALE`]; see the `fixed` module. Network fetching and HTTP
//! encoding live outside this crate: the functions here take the fetched
//! values as arguments and compute catalogs, detail aggregates and charts
//! from them.

pub mod align;
pub mod cache;
pub mod chart;
pub mod details;
pub mod exchange;
pub mod fixed;
pub mod laws;
pub mod registry;
pub mod series;
pub mod table;
pub mod text;
pub mod ticker;
pub mod types;
