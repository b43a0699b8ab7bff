//! Tracks syndication feeds and reports the item links that are new since
//! the previous run: the configuration, link extraction, diffing, per-feed
//! decisions and aggregation, each with its contract.

pub mod error;
pub mod text;
pub mod feed;
pub mod diff;
pub mod unit;
pub mod aggregate;
pub mod config;
