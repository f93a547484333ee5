//! Market data collection and analytics: domain types, parsers, and the
//! decision logic of the collector, the storage layer and the HTTP API.
pub mod analytics;
pub mod api;
pub mod batch;
pub mod cli;
pub mod compact;
pub mod decimal;
pub mod error;
pub mod exchange;
pub mod interval;
pub mod meta;
pub mod model;
pub mod order;
pub mod parse;
pub mod paths;
pub mod query;
pub mod store;
pub mod symbol;
pub mod text;
pub mod time;
