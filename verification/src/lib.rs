//! Verified core of a market-data feed manager: a hybrid memory/disk
//! time-series cache for candlesticks and tickers, the bookkeeping of the
//! stream orchestrator that keeps one polling feed per stream id, and the
//! reconciliation rule of the stream supervisor.
//!
//! Wall-clock time, network polling and file I/O live outside this crate;
//! every function here takes timestamps and fetched values as plain
//! arguments, so its behaviour is stated and proved for every input.

pub mod calendar;
pub mod kline;
pub mod market;
pub mod messages;
pub mod storage;
pub mod stream;
pub mod supervisor;
pub mod table;
pub mod ticker;
