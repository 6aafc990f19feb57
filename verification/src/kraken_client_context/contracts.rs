use vstd::prelude::*;

verus! {

/// One price level of a book snapshot: price, quantity and time, as the
/// exchange wrote them.
#[derive(Clone, Debug)]
pub struct WsBidsAsksSnapshot {
    pub price: String,
    pub qty: String,
    pub time: String,
}

/// The ask and bid levels of a book snapshot.
#[derive(Clone, Debug)]
pub struct WsBidAskSnapshotContainer {
    pub as_vec: Vec<WsBidsAsksSnapshot>,
    pub bs_vec: Vec<WsBidsAsksSnapshot>,
}

/// A book snapshot of one pair.
#[derive(Clone, Debug)]
pub struct OrderBookSnapshotEvent {
    pub bid_ask: WsBidAskSnapshotContainer,
    pub pair: String,
}

/// One price level of a book update; `republished` is the update's flag
/// (empty when the exchange sent none).
#[derive(Clone, Debug)]
pub struct WsBidsAsks {
    pub price: String,
    pub qty: String,
    pub time: String,
    pub republished: String,
}

/// The ask and bid levels of a book update.
#[derive(Clone, Debug)]
pub struct WsBidAskContainer {
    pub as_vec: Vec<WsBidsAsks>,
    pub bs_vec: Vec<WsBidsAsks>,
}

/// A book update of one pair.
#[derive(Clone, Debug)]
pub struct OrderBookEvent {
    pub bid_ask: WsBidAskContainer,
    pub pair: String,
}

/// The subscription request sent after connecting.
#[derive(Clone, Debug)]
pub struct SubscribeToKraken {
    pub event: String,
    pub pair: Vec<String>,
    pub subscription: SubscriptionKraken,
}

/// The channel subscribed to.
#[derive(Clone, Debug)]
pub struct SubscriptionKraken {
    pub name: String,
}

} // verus!
