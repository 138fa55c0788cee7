//! The tagged union carried on the update channel from the feed tasks to
//! the ingestion actor. Exactly one entity moves per message.

use vstd::prelude::*;
use crate::kline::Kline;
use crate::ticker::Ticker;

verus! {

/// One update produced by a feed task.
#[derive(Debug)]
pub enum MarketMessage {
    UpdateKline(Kline),
    UpdateTicker(Ticker),
}

impl Clone for MarketMessage {
    fn clone(&self) -> (r: Self)
        ensures
            r == *self,
    {
        match self {
            MarketMessage::UpdateKline(k) => MarketMessage::UpdateKline(k.clone()),
            MarketMessage::UpdateTicker(t) => MarketMessage::UpdateTicker(t.clone()),
        }
    }
}

} // verus!
