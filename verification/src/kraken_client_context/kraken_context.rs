use super::contracts::{
    OrderBookEvent, OrderBookSnapshotEvent, SubscribeToKraken, SubscriptionKraken,
    WsBidAskContainer, WsBidAskSnapshotContainer, WsBidsAsks, WsBidsAsksSnapshot,
};
use super::kraken_orderbook::{
    apply_updates, kraken_quote, pair_model, quote_book, snapshot_levels, snapshot_readable,
    snapshot_to_map, update_levels, updates_readable, KrakenOrderBook, SnapshotLevel, UpdateLevel,
};
use crate::binance_client_context::{mapping_keys, texts};
use crate::json::{json_array, json_get, json_of_text, json_str, parse_json_text, JsonValue};
use crate::number::parse_number;
use crate::settings::Settings;
use crate::str_map::StrMap;
use crate::text::unicode_uppercase;
use crate::websocket_core::{BidAsk, MessageError};
use vstd::prelude::*;

verus! {

/// A snapshot level: an array whose first three elements are the price,
/// quantity and time strings.
pub open spec fn spec_snapshot_level(v: JsonValue) -> Option<SnapshotLevel> {
    match json_array(v) {
        Some(a) => if a.len() >= 3 && json_str(a[0]) is Some && json_str(a[1]) is Some && json_str(
            a[2],
        ) is Some {
            Some(
                SnapshotLevel {
                    price: json_str(a[0])->0,
                    qty: json_str(a[1])->0,
                    time: json_str(a[2])->0,
                },
            )
        } else {
            None
        },
        None => None,
    }
}

/// An update level: like a snapshot level, with a fourth string (the
/// republish flag) when the array has exactly four elements.
pub open spec fn spec_update_level(v: JsonValue) -> Option<UpdateLevel> {
    match json_array(v) {
        Some(a) => if a.len() >= 3 && json_str(a[0]) is Some && json_str(a[1]) is Some && json_str(
            a[2],
        ) is Some && (a.len() == 4 ==> json_str(a[3]) is Some) {
            Some(
                UpdateLevel {
                    price: json_str(a[0])->0,
                    qty: json_str(a[1])->0,
                    time: json_str(a[2])->0,
                    republished: if a.len() == 4 {
                        json_str(a[3])->0
                    } else {
                        Seq::empty()
                    },
                },
            )
        } else {
            None
        },
        None => None,
    }
}

/// A side of a snapshot: an array of snapshot levels.
pub open spec fn spec_snapshot_side(v: JsonValue) -> Option<Seq<SnapshotLevel>> {
    match json_array(v) {
        Some(items) => if forall|i: int|
            0 <= i < items.len() ==> (#[trigger] spec_snapshot_level(items[i])) is Some {
            Some(Seq::new(items.len(), |i: int| spec_snapshot_level(items[i])->0))
        } else {
            None
        },
        None => None,
    }
}

/// A side of an update: an array of update levels.
pub open spec fn spec_update_side(v: JsonValue) -> Option<Seq<UpdateLevel>> {
    match json_array(v) {
        Some(items) => if forall|i: int|
            0 <= i < items.len() ==> (#[trigger] spec_update_level(items[i])) is Some {
            Some(Seq::new(items.len(), |i: int| spec_update_level(items[i])->0))
        } else {
            None
        },
        None => None,
    }
}

/// A level of a book message is read from an array of strings: the first
/// string is the price, the second the quantity, the third the time, and
/// for an update a fourth string, when the array has exactly four elements,
/// the republish flag. An array with fewer than three elements, or with a
/// non-string among those read, gives no level.
pub proof fn lemma_level_fields(v: JsonValue)
    ensures
        spec_snapshot_level(v) is Some <==> (json_array(v) matches Some(a) && a.len() >= 3 && (
        forall|j: int| 0 <= j < 3 ==> (#[trigger] json_str(a[j])) is Some)),
        spec_snapshot_level(v) matches Some(l) ==> (json_array(v) matches Some(a) && Some(l.price)
            == json_str(a[0]) && Some(l.qty) == json_str(a[1]) && Some(l.time) == json_str(a[2])),
        spec_update_level(v) matches Some(l) ==> (json_array(v) matches Some(a) && Some(l.price)
            == json_str(a[0]) && Some(l.qty) == json_str(a[1]) && Some(l.time) == json_str(a[2])
            && (a.len() == 4 ==> Some(l.republished) == json_str(a[3])) && (a.len() != 4
            ==> l.republished.len() == 0)),
        spec_update_level(v) is Some <==> (json_array(v) matches Some(a) && a.len() >= 3 && (
        forall|j: int| 0 <= j < 3 ==> (#[trigger] json_str(a[j])) is Some) && (a.len() == 4
            ==> json_str(a[3]) is Some)),
{
    if let Some(a) = json_array(v) {
        if a.len() >= 3 {
            assert(json_str(a[0]) is Some && json_str(a[1]) is Some && json_str(a[2]) is Some
                <==> forall|j: int| 0 <= j < 3 ==> (#[trigger] json_str(a[j])) is Some) by {
                if json_str(a[0]) is Some && json_str(a[1]) is Some && json_str(a[2]) is Some {
                    assert forall|j: int| 0 <= j < 3 implies (#[trigger] json_str(a[j])) is Some by {
                        if j == 0 {
                        } else if j == 1 {
                        } else {
                        }
                    }
                }
            }
        }
    }
}

/// A side of a book message has one level for each element of its array,
/// in the array's order, each read as [`spec_snapshot_level`] or
/// [`spec_update_level`] reads it; a side that is not an array, or that has
/// an element that is no level, gives nothing.
pub proof fn lemma_side_reads_every_level(v: JsonValue)
    ensures
        spec_snapshot_side(v) is Some <==> (json_array(v) matches Some(items) && forall|i: int|
            0 <= i < items.len() ==> (#[trigger] spec_snapshot_level(items[i])) is Some),
        spec_snapshot_side(v) matches Some(ls) ==> (json_array(v) matches Some(items) && ls.len()
            == items.len() && forall|i: int|
            0 <= i < items.len() ==> Some(#[trigger] ls[i]) == spec_snapshot_level(items[i])),
        spec_update_side(v) is Some <==> (json_array(v) matches Some(items) && forall|i: int|
            0 <= i < items.len() ==> (#[trigger] spec_update_level(items[i])) is Some),
        spec_update_side(v) matches Some(ls) ==> (json_array(v) matches Some(items) && ls.len()
            == items.len() && forall|i: int|
            0 <= i < items.len() ==> Some(#[trigger] ls[i]) == spec_update_level(items[i])),
{
}

/// What a message of the exchange's feed says.
#[allow(inconsistent_fields)]
pub enum KrakenFrame {
    /// Not an array (an event message such as a heartbeat).
    Ignored,
    /// An array that does not have the feed's shape.
    Malformed,
    /// A book snapshot of a pair.
    Snapshot { pair: Seq<char>, asks: Seq<SnapshotLevel>, bids: Seq<SnapshotLevel> },
    /// A book update of a pair.
    Update { pair: Seq<char>, asks: Seq<UpdateLevel>, bids: Seq<UpdateLevel> },
}

/// An update side that may be absent: absent is empty, present must be
/// well formed.
pub open spec fn optional_update_side(v: Option<JsonValue>) -> Option<Seq<UpdateLevel>> {
    match v {
        Some(side) => spec_update_side(side),
        None => Some(Seq::empty()),
    }
}

/// How a message is read.
///
/// A four-element array `[channel, book, channel name, pair]` carries in its
/// second element either a snapshot (`as`, and optionally `bs`) or an update
/// of the asks (`a`) or, failing that, of the bids (`b`); its pair is the
/// compact JSON text of the fourth element. Any other array needs five
/// elements, `[channel, asks update, bids update, channel name, pair]`,
/// whose pair is the fifth element's string.
pub open spec fn kraken_frame(msg: JsonValue) -> KrakenFrame {
    match json_array(msg) {
        None => KrakenFrame::Ignored,
        Some(arr) => if arr.len() == 4 {
            let map = arr[1];
            let pair = arr[3].text@;
            match json_get(map, "as"@) {
                Some(as_val) => {
                    let asks = spec_snapshot_side(as_val);
                    let bids = match json_get(map, "bs"@) {
                        Some(bs_val) => spec_snapshot_side(bs_val),
                        None => Some(Seq::empty()),
                    };
                    if asks is Some && bids is Some {
                        KrakenFrame::Snapshot { pair, asks: asks->0, bids: bids->0 }
                    } else {
                        KrakenFrame::Malformed
                    }
                },
                None => match json_get(map, "a"@) {
                    Some(a_val) => match spec_update_side(a_val) {
                        Some(asks) => KrakenFrame::Update { pair, asks, bids: Seq::empty() },
                        None => KrakenFrame::Malformed,
                    },
                    None => match optional_update_side(json_get(map, "b"@)) {
                        Some(bids) => KrakenFrame::Update { pair, asks: Seq::empty(), bids },
                        None => KrakenFrame::Malformed,
                    },
                },
            }
        } else if arr.len() < 5 {
            KrakenFrame::Malformed
        } else {
            let asks = optional_update_side(json_get(arr[1], "a"@));
            let bids = optional_update_side(json_get(arr[2], "b"@));
            let pair = json_str(arr[4]);
            if asks is Some && bids is Some && pair is Some {
                KrakenFrame::Update { pair: pair->0, asks: asks->0, bids: bids->0 }
            } else {
                KrakenFrame::Malformed
            }
        },
    }
}

/// `book` is the one started from a snapshot of `pair`.
pub open spec fn kraken_started_from(
    book: KrakenOrderBook,
    pair: Seq<char>,
    asks: Seq<SnapshotLevel>,
    bids: Seq<SnapshotLevel>,
) -> bool {
    &&& book.instrument@ == unicode_uppercase(pair)
    &&& book.date == 0
    &&& book.last_id == 0
    &&& pair_model(book.asks@) == snapshot_to_map(asks)
    &&& pair_model(book.bids@) == snapshot_to_map(bids)
}

/// `after` is `before` with the update applied, asks first.
pub open spec fn kraken_updated(
    before: KrakenOrderBook,
    after: KrakenOrderBook,
    asks: Seq<UpdateLevel>,
    bids: Seq<UpdateLevel>,
) -> bool {
    &&& after.instrument == before.instrument
    &&& after.date == before.date
    &&& after.last_id == before.last_id
    &&& pair_model(after.asks@) == apply_updates(pair_model(before.asks@), asks)
    &&& pair_model(after.bids@) == apply_updates(pair_model(before.bids@), bids)
}

/// Reads the exchange's book feed for a list of pairs and keeps one order
/// book per pair.
#[derive(Debug)]
pub struct KrakenExchangeContext {
    pub instruments: Vec<String>,
    pub base_url: String,
    pub orderbooks: StrMap<KrakenOrderBook>,
}

enum Frame {
    Ignored,
    Snapshot(OrderBookSnapshotEvent),
    Update(OrderBookEvent),
}

spec fn frame_agrees(res: Result<Frame, MessageError>, f: KrakenFrame) -> bool {
    match f {
        KrakenFrame::Ignored => res matches Ok(Frame::Ignored),
        KrakenFrame::Malformed => res == Err::<Frame, MessageError>(
            MessageError::MalformedMessage,
        ),
        KrakenFrame::Snapshot { pair, asks, bids } => {
            &&& res matches Ok(Frame::Snapshot(e))
            &&& e.pair@ == pair
            &&& snapshot_levels(e.bid_ask.as_vec@) == asks
            &&& snapshot_levels(e.bid_ask.bs_vec@) == bids
        },
        KrakenFrame::Update { pair, asks, bids } => {
            &&& res matches Ok(Frame::Update(e))
            &&& e.pair@ == pair
            &&& update_levels(e.bid_ask.as_vec@) == asks
            &&& update_levels(e.bid_ask.bs_vec@) == bids
        },
    }
}

fn owned_str(v: &JsonValue) -> (res: Option<String>)
    ensures
        match res {
            Some(s) => json_str(*v) == Some(s@),
            None => json_str(*v) is None,
        },
{
    match v.as_str() {
        Some(s) => Some(s.to_owned()),
        None => None,
    }
}

fn decode_snapshot_level(v: &JsonValue) -> (res: Option<WsBidsAsksSnapshot>)
    ensures
        match res {
            Some(l) => spec_snapshot_level(*v) == Some(
                SnapshotLevel { price: l.price@, qty: l.qty@, time: l.time@ },
            ),
            None => spec_snapshot_level(*v) is None,
        },
{
    let a = match v.as_array() {
        Some(a) => a,
        None => return None,
    };
    if a.len() < 3 {
        return None;
    }
    let price = match owned_str(&a[0]) {
        Some(s) => s,
        None => return None,
    };
    let qty = match owned_str(&a[1]) {
        Some(s) => s,
        None => return None,
    };
    let time = match owned_str(&a[2]) {
        Some(s) => s,
        None => return None,
    };
    Some(WsBidsAsksSnapshot { price, qty, time })
}

fn decode_update_level(v: &JsonValue) -> (res: Option<WsBidsAsks>)
    ensures
        match res {
            Some(l) => spec_update_level(*v) == Some(
                UpdateLevel {
                    price: l.price@,
                    qty: l.qty@,
                    time: l.time@,
                    republished: l.republished@,
                },
            ),
            None => spec_update_level(*v) is None,
        },
{
    let a = match v.as_array() {
        Some(a) => a,
        None => return None,
    };
    if a.len() < 3 {
        return None;
    }
    let price = match owned_str(&a[0]) {
        Some(s) => s,
        None => return None,
    };
    let qty = match owned_str(&a[1]) {
        Some(s) => s,
        None => return None,
    };
    let time = match owned_str(&a[2]) {
        Some(s) => s,
        None => return None,
    };
    let republished = if a.len() == 4 {
        match owned_str(&a[3]) {
            Some(s) => s,
            None => return None,
        }
    } else {
        String::new()
    };
    Some(WsBidsAsks { price, qty, time, republished })
}

fn decode_snapshot_side(v: &JsonValue) -> (res: Option<Vec<WsBidsAsksSnapshot>>)
    ensures
        match res {
            Some(ls) => spec_snapshot_side(*v) == Some(snapshot_levels(ls@)),
            None => spec_snapshot_side(*v) is None,
        },
{
    let items = match v.as_array() {
        Some(a) => a,
        None => return None,
    };
    let mut out: Vec<WsBidsAsksSnapshot> = Vec::new();
    let mut i: usize = 0;
    while i < items.len()
        invariant
            json_array(*v) == Some(items@),
            i <= items.len(),
            out.len() == i,
            forall|j: int|
                0 <= j < i ==> spec_snapshot_level(#[trigger] items@[j]) == Some(
                    snapshot_levels(out@)[j],
                ),
        decreases items.len() - i,
    {
        match decode_snapshot_level(&items[i]) {
            Some(l) => {
                out.push(l);
            },
            None => {
                return None;
            },
        }
        i = i + 1;
    }
    assert(Seq::new(items@.len(), |i: int| spec_snapshot_level(items@[i])->0) =~= snapshot_levels(
        out@,
    ));
    Some(out)
}

fn decode_update_side(v: &JsonValue) -> (res: Option<Vec<WsBidsAsks>>)
    ensures
        match res {
            Some(ls) => spec_update_side(*v) == Some(update_levels(ls@)),
            None => spec_update_side(*v) is None,
        },
{
    let items = match v.as_array() {
        Some(a) => a,
        None => return None,
    };
    let mut out: Vec<WsBidsAsks> = Vec::new();
    let mut i: usize = 0;
    while i < items.len()
        invariant
            json_array(*v) == Some(items@),
            i <= items.len(),
            out.len() == i,
            forall|j: int|
                0 <= j < i ==> spec_update_level(#[trigger] items@[j]) == Some(
                    update_levels(out@)[j],
                ),
        decreases items.len() - i,
    {
        match decode_update_level(&items[i]) {
            Some(l) => {
                out.push(l);
            },
            None => {
                return None;
            },
        }
        i = i + 1;
    }
    assert(Seq::new(items@.len(), |i: int| spec_update_level(items@[i])->0) =~= update_levels(
        out@,
    ));
    Some(out)
}

fn decode_optional_update_side(v: Option<&JsonValue>) -> (res: Option<Vec<WsBidsAsks>>)
    ensures
        match res {
            Some(ls) => optional_update_side(
                match v {
                    Some(x) => Some(*x),
                    None => None,
                },
            ) == Some(update_levels(ls@)),
            None => optional_update_side(
                match v {
                    Some(x) => Some(*x),
                    None => None,
                },
            ) is None,
        },
{
    match v {
        Some(side) => decode_update_side(side),
        None => {
            let out: Vec<WsBidsAsks> = Vec::new();
            assert(update_levels(out@) =~= Seq::<UpdateLevel>::empty());
            Some(out)
        },
    }
}

fn decode_frame(message: &JsonValue) -> (res: Result<Frame, MessageError>)
    ensures
        frame_agrees(res, kraken_frame(*message)),
{
    let arr = match message.as_array() {
        Some(a) => a,
        None => return Ok(Frame::Ignored),
    };
    if arr.len() == 4 {
        let map = &arr[1];
        let pair = arr[3].text.clone();
        match map.get("as") {
            Some(as_val) => {
                let asks = match decode_snapshot_side(as_val) {
                    Some(l) => l,
                    None => return Err(MessageError::MalformedMessage),
                };
                let bids = match map.get("bs") {
                    Some(bs_val) => match decode_snapshot_side(bs_val) {
                        Some(l) => l,
                        None => return Err(MessageError::MalformedMessage),
                    },
                    None => {
                        let out: Vec<WsBidsAsksSnapshot> = Vec::new();
                        assert(snapshot_levels(out@) =~= Seq::<SnapshotLevel>::empty());
                        out
                    },
                };
                Ok(
                    Frame::Snapshot(
                        OrderBookSnapshotEvent {
                            bid_ask: WsBidAskSnapshotContainer { bs_vec: bids, as_vec: asks },
                            pair,
                        },
                    ),
                )
            },
            None => match map.get("a") {
                Some(a_val) => match decode_update_side(a_val) {
                    Some(asks) => {
                        let bids: Vec<WsBidsAsks> = Vec::new();
                        assert(update_levels(bids@) =~= Seq::<UpdateLevel>::empty());
                        Ok(
                            Frame::Update(
                                OrderBookEvent {
                                    bid_ask: WsBidAskContainer { as_vec: asks, bs_vec: bids },
                                    pair,
                                },
                            ),
                        )
                    },
                    None => Err(MessageError::MalformedMessage),
                },
                None => match decode_optional_update_side(map.get("b")) {
                    Some(bids) => {
                        let asks: Vec<WsBidsAsks> = Vec::new();
                        assert(update_levels(asks@) =~= Seq::<UpdateLevel>::empty());
                        Ok(
                            Frame::Update(
                                OrderBookEvent {
                                    bid_ask: WsBidAskContainer { as_vec: asks, bs_vec: bids },
                                    pair,
                                },
                            ),
                        )
                    },
                    None => Err(MessageError::MalformedMessage),
                },
            },
        }
    } else {
        if arr.len() < 5 {
            return Err(MessageError::MalformedMessage);
        }
        let asks = match decode_optional_update_side(arr[1].get("a")) {
            Some(l) => l,
            None => return Err(MessageError::MalformedMessage),
        };
        let bids = match decode_optional_update_side(arr[2].get("b")) {
            Some(l) => l,
            None => return Err(MessageError::MalformedMessage),
        };
        let pair = match owned_str(&arr[4]) {
            Some(p) => p,
            None => return Err(MessageError::MalformedMessage),
        };
        Ok(
            Frame::Update(
                OrderBookEvent { bid_ask: WsBidAskContainer { as_vec: asks, bs_vec: bids }, pair },
            ),
        )
    }
}

fn snapshot_side_readable(levels: &Vec<WsBidsAsksSnapshot>) -> (res: bool)
    ensures
        res == snapshot_readable(snapshot_levels(levels@)),
{
    let mut i: usize = 0;
    while i < levels.len()
        invariant
            i <= levels.len(),
            forall|j: int|
                0 <= j < i ==> crate::number::is_number_text(#[trigger] levels@[j].qty@)
                    && crate::number::is_number_text(levels@[j].time@),
        decreases levels.len() - i,
    {
        if parse_number(levels[i].qty.as_str()).is_none() || parse_number(
            levels[i].time.as_str(),
        ).is_none() {
            assert(!snapshot_readable(snapshot_levels(levels@))) by {
                assert(snapshot_levels(levels@)[i as int].qty == levels@[i as int].qty@);
            }
            return false;
        }
        i = i + 1;
    }
    assert(snapshot_readable(snapshot_levels(levels@))) by {
        assert forall|j: int| 0 <= j < levels.len() implies crate::number::is_number_text(
            #[trigger] snapshot_levels(levels@)[j].qty,
        ) && crate::number::is_number_text(snapshot_levels(levels@)[j].time) by {
            assert(crate::number::is_number_text(levels@[j].qty@));
        }
    }
    true
}

fn update_side_readable(levels: &Vec<WsBidsAsks>) -> (res: bool)
    ensures
        res == updates_readable(update_levels(levels@)),
{
    let mut i: usize = 0;
    while i < levels.len()
        invariant
            i <= levels.len(),
            forall|j: int|
                0 <= j < i ==> crate::number::is_number_text(#[trigger] levels@[j].qty@)
                    && crate::number::is_number_text(levels@[j].time@),
        decreases levels.len() - i,
    {
        if parse_number(levels[i].qty.as_str()).is_none() || parse_number(
            levels[i].time.as_str(),
        ).is_none() {
            assert(!updates_readable(update_levels(levels@))) by {
                assert(update_levels(levels@)[i as int].qty == levels@[i as int].qty@);
            }
            return false;
        }
        i = i + 1;
    }
    assert(updates_readable(update_levels(levels@))) by {
        assert forall|j: int| 0 <= j < levels.len() implies crate::number::is_number_text(
            #[trigger] update_levels(levels@)[j].qty,
        ) && crate::number::is_number_text(update_levels(levels@)[j].time) by {
            assert(crate::number::is_number_text(levels@[j].qty@));
        }
    }
    true
}

/// What handling `message` does to a context's books (`before` becomes
/// `after`) and what it answers, frame by frame (see [`kraken_frame`]).
pub open spec fn kraken_handled(
    before: Map<Seq<char>, KrakenOrderBook>,
    after: Map<Seq<char>, KrakenOrderBook>,
    message: JsonValue,
    res: Result<Option<BidAsk>, MessageError>,
) -> bool {
    match kraken_frame(message) {
        KrakenFrame::Ignored => {
            &&& res == Ok::<Option<BidAsk>, MessageError>(None)
            &&& after == before
        },
        KrakenFrame::Malformed => {
            &&& res == Err::<Option<BidAsk>, MessageError>(
                MessageError::MalformedMessage,
            )
            &&& after == before
        },
        KrakenFrame::Snapshot { pair, asks, bids } => if before.contains_key(pair) {
            &&& after == before
            &&& kraken_quote(before[pair], res)
        } else if !(snapshot_readable(asks) && snapshot_readable(bids)) {
            &&& res == Err::<Option<BidAsk>, MessageError>(
                MessageError::UnreadableQuantity,
            )
            &&& after == before
        } else {
            &&& after == before.insert(
                pair,
                after[pair],
            )
            &&& kraken_started_from(after[pair], pair, asks, bids)
            &&& kraken_quote(after[pair], res)
        },
        KrakenFrame::Update { pair, asks, bids } => if !before.contains_key(pair) {
            &&& res == Err::<Option<BidAsk>, MessageError>(MessageError::UnknownPair)
            &&& after == before
        } else if !(updates_readable(asks) && updates_readable(bids)) {
            &&& res == Err::<Option<BidAsk>, MessageError>(
                MessageError::UnreadableQuantity,
            )
            &&& after == before
        } else {
            &&& after == before.insert(
                pair,
                after[pair],
            )
            &&& kraken_updated(before[pair], after[pair], asks, bids)
            &&& kraken_quote(after[pair], res)
        },
    }
}

impl KrakenExchangeContext {
    /// A context for the given pairs, with no book yet.
    pub fn new(instruments: Vec<String>) -> (res: KrakenExchangeContext)
        ensures
            res.base_url@ == "wss://ws.kraken.com"@,
            res.instruments == instruments,
            res.orderbooks@ == Map::<Seq<char>, KrakenOrderBook>::empty(),
    {
        return KrakenExchangeContext {
            base_url: "wss://ws.kraken.com".to_owned(),
            instruments: instruments,
            orderbooks: StrMap::new(),
        };
    }

    /// A context for the pairs that the settings map.
    pub fn new_by_settings(settings: &Settings) -> (res: KrakenExchangeContext)
        ensures
            res.base_url@ == "wss://ws.kraken.com"@,
            texts(res.instruments@) == settings.instruments_mapping.key_list(),
            res.orderbooks@ == Map::<Seq<char>, KrakenOrderBook>::empty(),
    {
        return KrakenExchangeContext {
            base_url: "wss://ws.kraken.com".to_owned(),
            instruments: mapping_keys(&settings.instruments_mapping),
            orderbooks: StrMap::new(),
        };
    }

    fn make_new_orderbook(&mut self, message: &OrderBookSnapshotEvent)
        requires
            snapshot_readable(snapshot_levels(message.bid_ask.bs_vec@)),
            snapshot_readable(snapshot_levels(message.bid_ask.as_vec@)),
        ensures
            final(self).instruments == old(self).instruments,
            final(self).base_url == old(self).base_url,
            final(self).orderbooks@ == old(self).orderbooks@.insert(
                message.pair@,
                final(self).orderbooks@[message.pair@],
            ),
            kraken_started_from(
                final(self).orderbooks@[message.pair@],
                message.pair@,
                snapshot_levels(message.bid_ask.as_vec@),
                snapshot_levels(message.bid_ask.bs_vec@),
            ),
    {
        let new_order_book = KrakenOrderBook::new(message);
        self.orderbooks.insert(message.pair.clone(), new_order_book);
    }

    /// The address to connect to.
    pub fn get_link_to_connect(&self) -> (res: String)
        ensures
            res == self.base_url,
    {
        return self.base_url.clone();
    }

    /// The liquidity provider name under which this context reports.
    pub fn get_lp_name(&self) -> (res: String)
        ensures
            res@ == "binance"@,
    {
        return "binance".to_owned();
    }

    /// The subscription request for the book channel of every pair.
    pub fn subscribe_message(&self) -> (res: SubscribeToKraken)
        ensures
            res.event@ == "subscribe"@,
            texts(res.pair@) == texts(self.instruments@),
            res.subscription.name@ == "book"@,
    {
        let mut symbols: Vec<String> = Vec::new();
        let mut i: usize = 0;
        while i < self.instruments.len()
            invariant
                i <= self.instruments.len(),
                symbols.len() == i,
                texts(symbols@) == texts(self.instruments@).take(i as int),
            decreases self.instruments.len() - i,
        {
            let symbol = self.instruments[i].clone();
            let ghost s = symbol@;
            symbols.push(symbol);
            assert(texts(symbols@)[i as int] == s);
            assert(texts(symbols@) =~= texts(self.instruments@).take(i + 1));
            i = i + 1;
        }
        assert(texts(self.instruments@).take(self.instruments.len() as int) =~= texts(
            self.instruments@,
        ));
        SubscribeToKraken {
            event: "subscribe".to_owned(),
            pair: symbols,
            subscription: SubscriptionKraken { name: "book".to_owned() },
        }
    }

    /// Handles one message of the feed (see [`kraken_frame`]): a snapshot
    /// starts the pair's book when it has none and answers the book's quote;
    /// an update is applied to the pair's book, which is then quoted.
    ///
    /// Every message is admitted, and a message the handler cannot use is
    /// answered with an error, by design: the library never panics, it leaves
    /// the books as they were and hands the error to the caller, which stops
    /// the feed on it. These are the intended answers:
    /// - an update for a pair that has no book yet (no snapshot came first):
    ///   [`MessageError::UnknownPair`];
    /// - a quantity or time that is not a number:
    ///   [`MessageError::UnreadableQuantity`];
    /// - a best price that is not a number: [`MessageError::UnreadablePrice`];
    /// - a value shaped like no frame of the feed:
    ///   [`MessageError::MalformedMessage`].
    pub fn handle_message_and_get_bid_ask(&mut self, message: &JsonValue) -> (res: Result<
        Option<BidAsk>,
        MessageError,
    >)
        ensures
            final(self).instruments == old(self).instruments,
            final(self).base_url == old(self).base_url,
            kraken_handled(old(self).orderbooks@, final(self).orderbooks@, *message, res),
    {
        let frame = match decode_frame(message) {
            Ok(f) => f,
            Err(e) => return Err(e),
        };
        match frame {
            Frame::Ignored => Ok(None),
            Frame::Snapshot(event) => {
                let pair = event.pair.as_str();
                if !self.orderbooks.contains_key(pair) {
                    if !(snapshot_side_readable(&event.bid_ask.as_vec) && snapshot_side_readable(
                        &event.bid_ask.bs_vec,
                    )) {
                        return Err(MessageError::UnreadableQuantity);
                    }
                    self.make_new_orderbook(&event);
                }
                match self.orderbooks.get(pair) {
                    Some(book) => quote_book(book),
                    None => {
                        proof {
                            assert(false);
                        }
                        vstd::pervasive::unreached()
                    },
                }
            },
            Frame::Update(event) => {
                let pair = event.pair.as_str();
                if !self.orderbooks.contains_key(pair) {
                    return Err(MessageError::UnknownPair);
                }
                if !(update_side_readable(&event.bid_ask.as_vec) && update_side_readable(
                    &event.bid_ask.bs_vec,
                )) {
                    return Err(MessageError::UnreadableQuantity);
                }
                let mut book = match self.orderbooks.take(pair) {
                    Some(b) => b,
                    None => {
                        proof {
                            assert(false);
                        }
                        vstd::pervasive::unreached()
                    },
                };
                if book.is_valid(&event) {
                    book.process_bids_and_asks(&event);
                }
                let res = quote_book(&book);
                let ghost stepped = book;
                self.orderbooks.insert(event.pair.clone(), book);
                assert(self.orderbooks@ =~= old(self).orderbooks@.insert(event.pair@, stepped));
                res
            },
        }
    }

    /// Handles one text message of the feed: the text is read as JSON
    /// ([`parse_json_text`]) and the value handled as by
    /// [`Self::handle_message_and_get_bid_ask`]. A text that is not JSON is
    /// admitted and answered with [`MessageError::MalformedMessage`], by
    /// design, and changes nothing; the caller stops the feed on it.
    pub fn handle_message_text(&mut self, text: &str) -> (res: Result<Option<BidAsk>, MessageError>)
        ensures
            final(self).instruments == old(self).instruments,
            final(self).base_url == old(self).base_url,
            match json_of_text(text@) {
                None => {
                    &&& res == Err::<Option<BidAsk>, MessageError>(MessageError::MalformedMessage)
                    &&& final(self).orderbooks@ == old(self).orderbooks@
                },
                Some(message) => kraken_handled(
                    old(self).orderbooks@,
                    final(self).orderbooks@,
                    message,
                    res,
                ),
            },
    {
        match parse_json_text(text) {
            Some(message) => self.handle_message_and_get_bid_ask(&message),
            None => Err(MessageError::MalformedMessage),
        }
    }
}

} // verus!
