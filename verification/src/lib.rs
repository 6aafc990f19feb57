//! Order books of cryptocurrency exchanges kept from their websocket feeds,
//! and the quotes (best bid and ask) that the bridge publishes from them.

pub mod bid_ask_handler;
pub mod binance_client_context;
pub mod event_sender_tcp_server;
pub mod ftx_client_context;
pub mod integer;
pub mod json;
pub mod kraken_client_context;
pub mod number;
pub mod number_value;
pub mod settings;
pub mod str_map;
pub mod tcp;
pub mod text;
pub mod websocket_core;

pub use bid_ask_handler::{parse_timestamp_to_date, quote_for_clients, quote_line, TimestampError, MESSAGE_SPLITTER};
pub use binance_client_context::{
    BinanceDepthOrderBookEvent, BinanceExchangeContext, BinanceOrderBook, BinanceWsBidsAsks,
};
pub use event_sender_tcp_server::BufferReader;
pub use ftx_client_context::FtxSubscribeMessage;
pub use json::{JsonKind, JsonMember, JsonValue};
pub use kraken_client_context::{
    KrakenExchangeContext, KrakenOrderBook, OrderBookEvent, OrderBookSnapshotEvent,
    SubscribeToKraken, SubscriptionKraken,
};
pub use number::{parse_number, Number};
pub use settings::Settings;
pub use str_map::StrMap;
pub use tcp::{handle_incoming_payload, PayloadError};
pub use websocket_core::{BidAsk, MessageError};
