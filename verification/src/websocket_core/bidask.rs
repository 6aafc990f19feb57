use vstd::prelude::*;

verus! {

/// Best bid and best ask of one instrument at one moment.
///
/// The prices are kept as the texts under which the exchange listed the two
/// price levels; each is a text that `f64::from_str` reads.
#[derive(Clone, Debug)]
pub struct BidAsk {
    pub bid: String,
    pub ask: String,
    pub id: String,
    pub date: i64,
}

} // verus!
