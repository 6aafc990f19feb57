use super::binance_orderbook::{
    apply_ticks, is_extreme_price, model_map, prices_readable, quantities_readable, ticks_to_map,
    BinanceOrderBook, MAX_LEVELS_PER_SIDE,
};
use super::contracts::{BinanceDepthOrderBookEvent, BinanceWsBidsAsks};
use crate::json::{json_get, json_of_text, parse_json_text};
use crate::number::parse_number;
use crate::settings::Settings;
use crate::str_map::StrMap;
use crate::text::{push_text, to_lowercase, unicode_lowercase, unicode_uppercase};
use crate::websocket_core::{BidAsk, MessageError};
use vstd::prelude::*;

verus! {

/// The texts of a list of strings.
pub open spec fn texts(v: Seq<String>) -> Seq<Seq<char>> {
    v.map_values(|s: String| s@)
}

/// The parts joined with `/` between them.
pub open spec fn join_with_slash(parts: Seq<Seq<char>>) -> Seq<char>
    decreases parts.len(),
{
    if parts.len() == 0 {
        Seq::empty()
    } else if parts.len() == 1 {
        parts[0]
    } else {
        join_with_slash(parts.drop_last()) + "/"@ + parts.last()
    }
}

/// Joining puts exactly one `/` between every two neighbouring parts and
/// nothing around them: no part gives the empty text, one part gives that
/// part, and a part added after a nonempty list comes after the list's
/// join and one `/`.
pub proof fn lemma_join_with_slash_separates(parts: Seq<Seq<char>>, x: Seq<char>)
    ensures
        join_with_slash(Seq::empty()) == Seq::<char>::empty(),
        join_with_slash(seq![x]) == x,
        parts.len() > 0 ==> join_with_slash(parts.push(x)) == join_with_slash(parts) + "/"@ + x,
{
    assert(parts.push(x).drop_last() =~= parts);
}

/// Joining two nonempty lists one after the other is joining each and
/// putting one `/` between the two.
pub proof fn lemma_join_with_slash_concat(p: Seq<Seq<char>>, q: Seq<Seq<char>>)
    requires
        p.len() > 0,
        q.len() > 0,
    ensures
        join_with_slash(p + q) == join_with_slash(p) + "/"@ + join_with_slash(q),
    decreases q.len(),
{
    if q.len() == 1 {
        assert((p + q).drop_last() =~= p);
        assert((p + q).last() == q[0]);
    } else {
        let q0 = q.drop_last();
        lemma_join_with_slash_concat(p, q0);
        assert((p + q).drop_last() =~= p + q0);
        assert((p + q).last() == q.last());
        assert(join_with_slash(p + q) =~= join_with_slash(p) + "/"@ + join_with_slash(q));
    }
}

/// The depth stream of one instrument.
pub open spec fn depth_stream(symbol: Seq<char>) -> Seq<char> {
    unicode_lowercase(symbol) + "@depth@100ms"@
}

/// The combined-stream address for a list of instruments.
pub open spec fn stream_link(base: Seq<char>, instruments: Seq<Seq<char>>) -> Seq<char> {
    base + "="@ + join_with_slash(instruments.map_values(|s: Seq<char>| depth_stream(s)))
}

/// The update may be applied to the book (see [`BinanceOrderBook::is_valid`]).
pub open spec fn update_fits(book: BinanceOrderBook, event: BinanceDepthOrderBookEvent) -> bool {
    event.first_update_id == book.last_id + 1 || (event.first_update_id <= book.last_id
        && book.last_id <= event.final_update_id && book.asks@.dom().len() < MAX_LEVELS_PER_SIDE
        && book.bids@.dom().len() < MAX_LEVELS_PER_SIDE)
}

/// What is answered for a book: nothing while a side is empty, the best
/// prices when every price is readable, an error otherwise.
pub open spec fn quote_outcome(book: BinanceOrderBook, res: Result<Option<BidAsk>, MessageError>) -> bool {
    if book.bids@.dom().len() == 0 || book.asks@.dom().len() == 0 {
        res == Ok::<Option<BidAsk>, MessageError>(None)
    } else if !(prices_readable(book.bids@.dom()) && prices_readable(book.asks@.dom())) {
        res == Err::<Option<BidAsk>, MessageError>(MessageError::UnreadablePrice)
    } else {
        &&& res matches Ok(Some(best))
        &&& best.date == book.date
        &&& best.id == book.instrument
        &&& is_extreme_price(book.bids@.dom(), best.bid@, true)
        &&& is_extreme_price(book.asks@.dom(), best.ask@, false)
    }
}

/// `after` is `before` with the update's levels applied and its id and time
/// recorded.
pub open spec fn processed(
    before: BinanceOrderBook,
    after: BinanceOrderBook,
    event: BinanceDepthOrderBookEvent,
) -> bool {
    &&& after.instrument == before.instrument
    &&& after.last_id == event.final_update_id
    &&& after.date == event.event_time
    &&& model_map(after.asks@) == apply_ticks(model_map(before.asks@), event.asks@)
    &&& model_map(after.bids@) == apply_ticks(model_map(before.bids@), event.bids@)
}

/// One update handled on an existing book: a stale update (its final id not
/// past the book's last id) changes nothing and is answered with nothing;
/// an update that fits is applied (unless a quantity is unreadable, which
/// is refused with the book unchanged); one that does not fit is dropped;
/// then the book is quoted.
pub open spec fn book_step(
    before: BinanceOrderBook,
    after: BinanceOrderBook,
    event: BinanceDepthOrderBookEvent,
    res: Result<Option<BidAsk>, MessageError>,
) -> bool {
    if event.final_update_id <= before.last_id {
        after == before && res == Ok::<Option<BidAsk>, MessageError>(None)
    } else if update_fits(before, event) {
        if !(quantities_readable(event.bids@) && quantities_readable(event.asks@)) {
            after == before && res == Err::<Option<BidAsk>, MessageError>(
                MessageError::UnreadableQuantity,
            )
        } else {
            processed(before, after, event) && quote_outcome(after, res)
        }
    } else {
        after == before && quote_outcome(before, res)
    }
}

/// `book` is the one started from the first update seen for its symbol.
pub open spec fn started_from(book: BinanceOrderBook, event: BinanceDepthOrderBookEvent) -> bool {
    &&& book.instrument@ == unicode_uppercase(event.symbol@)
    &&& book.date == event.event_time
    &&& book.last_id == event.final_update_id
    &&& model_map(book.bids@) == ticks_to_map(event.bids@)
    &&& model_map(book.asks@) == ticks_to_map(event.asks@)
}

/// Reads the exchange's depth stream for a list of instruments and keeps
/// one order book per symbol.
#[derive(Debug)]
pub struct BinanceExchangeContext {
    pub instruments: Vec<String>,
    pub base_url: String,
    pub orderbooks: StrMap<BinanceOrderBook>,
}

/// Every quantity of the levels is readable.
fn quantities_readable_exec(ticks: &Vec<BinanceWsBidsAsks>) -> (res: bool)
    ensures
        res == quantities_readable(ticks@),
{
    let mut i: usize = 0;
    while i < ticks.len()
        invariant
            i <= ticks.len(),
            forall|j: int|
                0 <= j < i ==> crate::number::is_number_text(#[trigger] ticks@[j].qty@),
        decreases ticks.len() - i,
    {
        if parse_number(ticks[i].qty.as_str()).is_none() {
            return false;
        }
        i = i + 1;
    }
    true
}

/// The keys of a mapping, in the order of its entries.
pub(crate) fn mapping_keys(mapping: &StrMap<String>) -> (res: Vec<String>)
    ensures
        texts(res@) == mapping.key_list(),
{
    let mut res: Vec<String> = Vec::new();
    let mut i: usize = 0;
    let n = mapping.entry_count();
    while i < n
        invariant
            n == mapping.key_list().len(),
            i <= n,
            res.len() == i,
            texts(res@) == mapping.key_list().take(i as int),
        decreases n - i,
    {
        let key_ref = mapping.key_at(i);
        let key = key_ref.clone();
        assert(key@ == mapping.key_list()[i as int]);
        let ghost before = res@;
        let ghost k = key@;
        res.push(key);
        assert(res@[i as int]@ == k);
        assert(texts(res@)[i as int] == k);
        assert(texts(res@) =~= mapping.key_list().take(i + 1));
        i = i + 1;
    }
    assert(mapping.key_list().take(n as int) =~= mapping.key_list());
    res
}

/// The quote of a book (see [`quote_outcome`]).
fn book_quote(book: &BinanceOrderBook) -> (res: Result<Option<BidAsk>, MessageError>)
    ensures
        quote_outcome(*book, res),
{
    if book.bids.len() == 0 || book.asks.len() == 0 {
        return Ok(None);
    }
    if !book.has_readable_prices() {
        return Err(MessageError::UnreadablePrice);
    }
    Ok(book.get_best_price())
}

/// One update handled on an existing book (see [`book_step`]).
fn advance_book(book: &mut BinanceOrderBook, event: &BinanceDepthOrderBookEvent) -> (res: Result<
    Option<BidAsk>,
    MessageError,
>)
    ensures
        book_step(*old(book), *final(book), *event, res),
{
    if event.final_update_id <= book.last_id {
        return Ok(None);
    }
    if book.is_valid(event) {
        if !(quantities_readable_exec(&event.bids) && quantities_readable_exec(&event.asks)) {
            return Err(MessageError::UnreadableQuantity);
        }
        book.process_bids_and_asks(event);
    }
    book_quote(book)
}

impl BinanceExchangeContext {
    /// A context for the given instruments, with no book yet.
    pub fn new(instruments: Vec<String>) -> (res: BinanceExchangeContext)
        ensures
            res.base_url@ == "wss://stream.binance.com:9443/stream?streams"@,
            res.instruments == instruments,
            res.orderbooks@ == Map::<Seq<char>, BinanceOrderBook>::empty(),
    {
        return BinanceExchangeContext {
            base_url: "wss://stream.binance.com:9443/stream?streams".to_owned(),
            instruments: instruments,
            orderbooks: StrMap::new(),
        };
    }

    /// A context for the instruments that the settings map.
    pub fn new_by_settings(settings: &Settings) -> (res: BinanceExchangeContext)
        ensures
            res.base_url@ == "wss://stream.binance.com:9443/stream?streams"@,
            texts(res.instruments@) == settings.instruments_mapping.key_list(),
            res.orderbooks@ == Map::<Seq<char>, BinanceOrderBook>::empty(),
    {
        return BinanceExchangeContext {
            base_url: "wss://stream.binance.com:9443/stream?streams".to_owned(),
            instruments: mapping_keys(&settings.instruments_mapping),
            orderbooks: StrMap::new(),
        };
    }

    fn make_new_orderbook(&mut self, message: &BinanceDepthOrderBookEvent)
        requires
            quantities_readable(message.bids@),
            quantities_readable(message.asks@),
        ensures
            final(self).instruments == old(self).instruments,
            final(self).base_url == old(self).base_url,
            final(self).orderbooks@.dom() == old(self).orderbooks@.dom().insert(message.symbol@),
            final(self).orderbooks@ == old(self).orderbooks@.insert(
                message.symbol@,
                final(self).orderbooks@[message.symbol@],
            ),
            started_from(final(self).orderbooks@[message.symbol@], *message),
    {
        let new_order_book = BinanceOrderBook::new(message);
        self.orderbooks.insert(message.symbol.clone(), new_order_book);
    }

    /// The address of the combined depth stream of all instruments.
    pub fn get_link_to_connect(&self) -> (res: String)
        ensures
            res@ == stream_link(self.base_url@, texts(self.instruments@)),
    {
        let ghost parts = texts(self.instruments@).map_values(|s: Seq<char>| depth_stream(s));
        let mut joined = String::new();
        let mut i: usize = 0;
        while i < self.instruments.len()
            invariant
                parts == texts(self.instruments@).map_values(|s: Seq<char>| depth_stream(s)),
                i <= self.instruments.len(),
                joined@ == join_with_slash(parts.take(i as int)),
            decreases self.instruments.len() - i,
        {
            if i > 0 {
                push_text(&mut joined, "/");
            }
            let lower = to_lowercase(self.instruments[i].as_str());
            push_text(&mut joined, lower.as_str());
            push_text(&mut joined, "@depth@100ms");
            assert(parts.take(i + 1).drop_last() =~= parts.take(i as int));
            assert(parts[i as int] == depth_stream(self.instruments@[i as int]@));
            assert(joined@ =~= join_with_slash(parts.take(i + 1)));
            i = i + 1;
        }
        assert(parts.take(self.instruments.len() as int) =~= parts);
        let mut res = self.base_url.clone();
        push_text(&mut res, "=");
        push_text(&mut res, joined.as_str());
        res
    }

    /// The text of the `data` member of a combined-stream message, which
    /// holds the depth update: `Ok(None)` when the message has no such
    /// member (it is then not a depth update and is skipped), and
    /// [`MessageError::MalformedMessage`] when the message is not JSON
    /// ([`parse_json_text`]).
    pub fn depth_data_text(text: &str) -> (res: Result<Option<String>, MessageError>)
        ensures
            match json_of_text(text@) {
                None => res == Err::<Option<String>, MessageError>(MessageError::MalformedMessage),
                Some(message) => match json_get(message, "data"@) {
                    None => res == Ok::<Option<String>, MessageError>(None),
                    Some(data) => res matches Ok(Some(t)) && t@ == data.text@,
                },
            },
    {
        match parse_json_text(text) {
            None => Err(MessageError::MalformedMessage),
            Some(message) => {
                proof {
                    reveal_strlit("data");
                }
                match message.get("data") {
                    None => Ok(None),
                    Some(data) => Ok(Some(data.text.clone())),
                }
            },
        }
    }

    /// Handles one depth update: starts the symbol's book on its first
    /// update, then applies the update to the book (see [`book_step`]) and
    /// answers the book's best prices.
    ///
    /// A value that cannot be read is answered with an error, and the caller
    /// decides whether to stop: a
    /// quantity that is not a number gives [`MessageError::UnreadableQuantity`]
    /// and changes nothing, a best price that is not a number gives
    /// [`MessageError::UnreadablePrice`].
    pub fn handle_message_and_get_bid_ask(&mut self, socket_event: &BinanceDepthOrderBookEvent) -> (res:
        Result<Option<BidAsk>, MessageError>)
        ensures
            final(self).instruments == old(self).instruments,
            final(self).base_url == old(self).base_url,
            ({
                let sym = socket_event.symbol@;
                if !old(self).orderbooks@.contains_key(sym) {
                    if !(quantities_readable(socket_event.bids@) && quantities_readable(
                        socket_event.asks@,
                    )) {
                        &&& res == Err::<Option<BidAsk>, MessageError>(
                            MessageError::UnreadableQuantity,
                        )
                        &&& final(self).orderbooks@ == old(self).orderbooks@
                    } else {
                        &&& res == Ok::<Option<BidAsk>, MessageError>(None)
                        &&& final(self).orderbooks@ == old(self).orderbooks@.insert(
                            sym,
                            final(self).orderbooks@[sym],
                        )
                        &&& started_from(final(self).orderbooks@[sym], *socket_event)
                    }
                } else {
                    &&& final(self).orderbooks@ == old(self).orderbooks@.insert(
                        sym,
                        final(self).orderbooks@[sym],
                    )
                    &&& book_step(
                        old(self).orderbooks@[sym],
                        final(self).orderbooks@[sym],
                        *socket_event,
                        res,
                    )
                }
            }),
    {
        let symbol = socket_event.symbol.as_str();
        let is_new = !self.orderbooks.contains_key(symbol);
        if is_new {
            if !(quantities_readable_exec(&socket_event.bids) && quantities_readable_exec(
                &socket_event.asks,
            )) {
                return Err(MessageError::UnreadableQuantity);
            }
            self.make_new_orderbook(socket_event);
        }
        let ghost books_before_step = self.orderbooks@;
        let mut book = match self.orderbooks.take(symbol) {
            Some(b) => b,
            None => {
                proof {
                    assert(false);
                }
                vstd::pervasive::unreached()
            },
        };
        let ghost taken = book;
        let res = advance_book(&mut book, socket_event);
        let ghost stepped = book;
        self.orderbooks.insert(socket_event.symbol.clone(), book);
        assert(self.orderbooks@ =~= books_before_step.insert(socket_event.symbol@, stepped));
        assert(self.orderbooks@[socket_event.symbol@] == stepped);
        if is_new {
            assert(socket_event.final_update_id <= taken.last_id);
            assert(self.orderbooks@ =~= old(self).orderbooks@.insert(
                socket_event.symbol@,
                stepped,
            ));
        } else {
            assert(books_before_step == old(self).orderbooks@);
        }
        res
    }
}

/// Once an update has been handled on a book, the book's last id has
/// reached the update's final id, unless the update was dropped: handled
/// again, the same update is then refused as stale.
pub proof fn lemma_handled_update_goes_stale(
    before: BinanceOrderBook,
    after: BinanceOrderBook,
    event: BinanceDepthOrderBookEvent,
    res: Result<Option<BidAsk>, MessageError>,
)
    requires
        book_step(before, after, event, res),
        event.final_update_id <= before.last_id || (update_fits(before, event)
            && quantities_readable(event.bids@) && quantities_readable(event.asks@)),
    ensures
        event.final_update_id <= after.last_id,
        book_step(after, after, event, Ok(None)),
{
}

} // verus!
