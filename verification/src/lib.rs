//! Client-side core for a quota-limited market-data service: request
//! partitioning, dispatch bookkeeping, and reassembly of per-chunk
//! responses into one table.

pub mod connection;
pub mod datagrid;
pub mod dates;
pub mod dispatch;
pub mod json;
pub mod table;
pub mod timeseries;
pub mod utils;
