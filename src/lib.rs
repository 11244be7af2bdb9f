//! Streaming market-data client core: wire codec, rolling store, connection
//! supervisor and session commands, with the symbol tables they rely on.

pub mod decimal;
pub mod json;
pub mod models;
pub mod codec;
pub mod keyed;
pub mod store;
pub mod supervisor;
pub mod meta;
pub mod pairs;
pub mod market;
pub mod requests;
pub mod clock;
pub mod config;
