use crate::integer::{decimal_text, decimal_text_of, parse_i64, parse_u32, spec_parse_i64, spec_parse_u32};
use crate::str_map::StrMap;
use crate::websocket_core::BidAsk;
use crate::text::{char_substring, push_text, substring};
use vstd::prelude::*;

verus! {

/// The bytes that end each quote line sent to the clients (CR LF).
pub const MESSAGE_SPLITTER: [u8; 2] = [13, 10];

/// Why a quote's time could not be written.
#[derive(Clone, Copy, Debug, PartialEq, Eq, Structural)]
pub enum TimestampError {
    /// Characters 10 to 13 of the time are not an unsigned number.
    UnreadableMillis,
    /// Those characters, taken as milliseconds, overflow `u32` nanoseconds.
    MillisOverflow,
    /// The first ten characters of the time are not a number.
    UnreadableSeconds,
    /// The instant lies outside the calendar's range.
    OutOfRange,
}

/// What chrono writes for the UTC instant `secs` seconds and `nanos`
/// nanoseconds after the Unix epoch in the format `%Y%m%d%H%M%S%3f`, or
/// nothing when chrono cannot represent the instant.
pub uninterp spec fn utc_compact_millis(secs: i64, nanos: u32) -> Option<Seq<char>>;

/// Calls chrono's `DateTime::<Utc>::from_timestamp` and formats the instant
/// with `%Y%m%d%H%M%S%3f`. Only the name of the outcome is stated: the
/// calendar arithmetic is chrono's.
#[verifier::external_body]
fn format_utc_compact_millis(secs: i64, nanos: u32) -> (res: Option<String>)
    ensures
        match res {
            Some(s) => utc_compact_millis(secs, nanos) == Some(s@),
            None => utc_compact_millis(secs, nanos) is None,
        },
{
    match chrono::DateTime::from_timestamp(secs, nanos) {
        Some(instant) => Some(instant.format("%Y%m%d%H%M%S%3f").to_string()),
        None => None,
    }
}

/// What [`parse_timestamp_to_date`] answers for a millisecond time written
/// in decimal: the first ten characters are the seconds, the next four (at
/// most) the milliseconds.
pub open spec fn timestamp_outcome(timestamp: Seq<char>) -> Result<Seq<char>, TimestampError> {
    let millis = spec_parse_u32(char_substring(timestamp, 10, 14));
    let secs = spec_parse_i64(char_substring(timestamp, 0, 10));
    if millis is None {
        Err(TimestampError::UnreadableMillis)
    } else if millis->0 * 1000000 > u32::MAX {
        Err(TimestampError::MillisOverflow)
    } else if secs is None {
        Err(TimestampError::UnreadableSeconds)
    } else {
        match utc_compact_millis(secs->0 as i64, (millis->0 * 1000000) as u32) {
            Some(text) => Ok(text),
            None => Err(TimestampError::OutOfRange),
        }
    }
}

/// Writes a millisecond Unix time (given as its decimal text) as
/// `YYYYMMDDHHMMSSmmm` in UTC.
///
/// Every text is admitted, and a time it cannot write is answered with an
/// error, by design: the library never panics, and the caller stops on the
/// error. These are the intended answers (see [`timestamp_outcome`]); in
/// particular a text of ten characters or fewer has no milliseconds part
/// and is answered with [`TimestampError::UnreadableMillis`].
pub fn parse_timestamp_to_date(timestamp: &str) -> (res: Result<String, TimestampError>)
    ensures
        match res {
            Ok(s) => timestamp_outcome(timestamp@) == Ok::<Seq<char>, TimestampError>(s@),
            Err(e) => timestamp_outcome(timestamp@) == Err::<Seq<char>, TimestampError>(e),
        },
{
    let millis_text = substring(timestamp, 10, 14);
    let millis = match parse_u32(millis_text.as_str()) {
        Some(m) => m,
        None => return Err(TimestampError::UnreadableMillis),
    };
    if millis > 4294 {
        return Err(TimestampError::MillisOverflow);
    }
    let nanoseconds: u32 = millis * 1000000;
    let secs_text = substring(timestamp, 0, 10);
    let secs = match parse_i64(secs_text.as_str()) {
        Some(s) => s,
        None => return Err(TimestampError::UnreadableSeconds),
    };
    match format_utc_compact_millis(secs, nanoseconds) {
        Some(text) => Ok(text),
        None => Err(TimestampError::OutOfRange),
    }
}

/// The quote line `"<id> <bid> <ask> <date>"` as UTF-8, ended by
/// [`MESSAGE_SPLITTER`].
pub open spec fn quote_line_bytes(id: Seq<char>, bid: Seq<char>, ask: Seq<char>, date: Seq<char>) -> Seq<
    u8,
> {
    vstd::utf8::encode_utf8(id + " "@ + bid + " "@ + ask + " "@ + date) + seq![13u8, 10u8]
}

/// Builds the line sent to the clients for one quote.
pub fn quote_line(id: &str, bid: &str, ask: &str, date: &str) -> (res: Vec<u8>)
    ensures
        res@ == quote_line_bytes(id@, bid@, ask@, date@),
{
    let mut line = id.to_owned();
    push_text(&mut line, " ");
    push_text(&mut line, bid);
    push_text(&mut line, " ");
    push_text(&mut line, ask);
    push_text(&mut line, " ");
    push_text(&mut line, date);
    let bytes = line.as_str().as_bytes();
    let mut data_to_send: Vec<u8> = Vec::new();
    let mut i: usize = 0;
    while i < bytes.len()
        invariant
            i <= bytes@.len(),
            data_to_send@ == bytes@.subrange(0, i as int),
        decreases bytes.len() - i,
    {
        data_to_send.push(bytes[i]);
        i = i + 1;
        assert(data_to_send@ =~= bytes@.subrange(0, i as int));
    }
    assert(bytes@.subrange(0, bytes@.len() as int) =~= bytes@);
    data_to_send.push(MESSAGE_SPLITTER[0]);
    data_to_send.push(MESSAGE_SPLITTER[1]);
    assert(data_to_send@ =~= quote_line_bytes(id@, bid@, ask@, date@));
    data_to_send
}


/// The line sent to the clients for a quote, or nothing when the mapping
/// publishes no name for the quote's instrument. The line carries the
/// published name, the prices as the texts `bid` and `ask` to print, and
/// the quote's time written by [`parse_timestamp_to_date`] from its decimal
/// text; a time that cannot be written gives that error.
pub fn quote_for_clients(id_mapping: &StrMap<String>, event: &BidAsk, bid: &str, ask: &str) -> (res:
    Option<Result<Vec<u8>, TimestampError>>)
    ensures
        match res {
            None => !id_mapping@.contains_key(event.id@),
            Some(Ok(line)) => {
                &&& id_mapping@.contains_key(event.id@)
                &&& timestamp_outcome(decimal_text(event.date as int)) matches Ok(date)
                &&& line@ == quote_line_bytes(id_mapping@[event.id@]@, bid@, ask@, date)
            },
            Some(Err(e)) => {
                &&& id_mapping@.contains_key(event.id@)
                &&& timestamp_outcome(decimal_text(event.date as int)) == Err::<
                    Seq<char>,
                    TimestampError,
                >(e)
            },
        },
{
    match id_mapping.get(event.id.as_str()) {
        None => None,
        Some(new_id) => {
            let time_text = decimal_text_of(event.date);
            match parse_timestamp_to_date(time_text.as_str()) {
                Ok(date) => Some(Ok(quote_line(new_id.as_str(), bid, ask, date.as_str()))),
                Err(e) => Some(Err(e)),
            }
        },
    }
}

} // verus!
