use vstd::prelude::*;

verus! {

/// One price level of a depth update: the price and the quantity now
/// standing at it, both as the exchange wrote them.
#[derive(Clone, Debug)]
pub struct BinanceWsBidsAsks {
    pub price: String,
    pub qty: String,
}

/// A depth update of the exchange's order book stream.
#[derive(Clone, Debug)]
pub struct BinanceDepthOrderBookEvent {
    pub event_type: String,
    pub event_time: i64,
    pub symbol: String,
    pub first_update_id: u128,
    pub final_update_id: u128,
    pub previous_final_update_id: Option<u64>,
    pub bids: Vec<BinanceWsBidsAsks>,
    pub asks: Vec<BinanceWsBidsAsks>,
}

} // verus!
