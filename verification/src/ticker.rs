//! Ticker snapshots: the latest traded price per symbol. Only the most
//! recent value is retained; there is no ticker history.

use vstd::prelude::*;
use crate::market::MarketDataSymbol;

verus! {

/// The latest traded price of a symbol, as a fixed-point integer, with the
/// timestamp at which it was observed.
#[derive(Debug)]
pub struct Ticker {
    pub symbol: String,
    pub last_price: u64,
    pub time: u64,
}

impl Clone for Ticker {
    fn clone(&self) -> (r: Self)
        ensures
            r == *self,
    {
        Ticker { symbol: self.symbol.clone(), last_price: self.last_price, time: self.time }
    }
}

impl MarketDataSymbol for Ticker {
    open spec fn symbol_spec(&self) -> Seq<char> {
        self.symbol@
    }

    fn symbol(&self) -> (r: String) {
        self.symbol.clone()
    }
}

/// Metadata of one tracked ticker entry.
#[derive(Debug)]
pub struct TickerMeta {
    pub symbol: String,
    pub last_update: u64,
}

impl Clone for TickerMeta {
    fn clone(&self) -> (r: Self)
        ensures
            r == *self,
    {
        TickerMeta { symbol: self.symbol.clone(), last_update: self.last_update }
    }
}

impl TickerMeta {
    /// Fresh metadata for a symbol first seen now.
    pub fn new(symbol: &str) -> (r: Self)
        ensures
            r.symbol@ == symbol@,
            r.last_update == 0,
    {
        TickerMeta { symbol: symbol.to_owned(), last_update: 0 }
    }
}

/// The cache's entry for one symbol: its metadata and the latest ticker.
#[derive(Debug)]
pub struct TickerData {
    pub meta: TickerMeta,
    pub ticker: Ticker,
}

impl Clone for TickerData {
    fn clone(&self) -> (r: Self)
        ensures
            r == *self,
    {
        TickerData { meta: self.meta.clone(), ticker: self.ticker.clone() }
    }
}

impl TickerData {
    /// Replaces the stored ticker; the prior value is discarded.
    pub fn update_ticker(&mut self, ticker: Ticker, now: u64)
        ensures
            final(self).ticker == ticker,
            final(self).meta.last_update == now,
            final(self).meta.symbol == old(self).meta.symbol,
    {
        self.ticker = ticker;
        self.meta.last_update = now;
    }
}

} // verus!
