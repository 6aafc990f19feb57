use vstd::prelude::*;

verus! {

/// One price level: price and quantity, as the exchange wrote them.
#[derive(Clone, Debug)]
pub struct WsBidsAsks {
    pub price: String,
    pub qty: String,
}

/// A subscription request of the exchange's websocket API.
#[derive(Clone, Debug)]
pub struct FtxSubscribeMessage {
    pub mess_type: String,
    pub channel: String,
    pub instrument: String,
}

impl FtxSubscribeMessage {
    /// The request that subscribes to the ticker channel of an instrument.
    pub fn make_ticket_subscribe_by_instrument(instrument: &String) -> (res: FtxSubscribeMessage)
        ensures
            res.mess_type@ == "subscribe"@,
            res.channel@ == "ticker"@,
            res.instrument@ == instrument@,
    {
        FtxSubscribeMessage {
            mess_type: "subscribe".to_owned(),
            channel: "ticker".to_owned(),
            instrument: instrument.clone(),
        }
    }
}

} // verus!
