mod binance_context;
mod binance_orderbook;
mod contracts;

pub use binance_context::{
    book_step, depth_stream, join_with_slash, lemma_join_with_slash_concat,
    lemma_join_with_slash_separates, lemma_handled_update_goes_stale, processed,
    quote_outcome, started_from, stream_link, texts, update_fits, BinanceExchangeContext,
};
pub(crate) use binance_context::mapping_keys;
pub use binance_orderbook::{
    apply_ticks, bid_ask_to_hash_map, is_extreme_price, last_level_of, lemma_apply_ticks_idempotent,
    level_update, model_map, prices_readable,
    quantities_readable, ranks_below, ticks_to_map, BinanceOrderBook, MAX_LEVELS_PER_SIDE,
    lemma_negligible_qty_bound_value, lemma_negligible_qty_is_value_order, negligible_qty_bound, negligible_qty, QTY_NEGLIGIBLE_DIGITS, QTY_NEGLIGIBLE_EXPONENT,
};
pub use contracts::{BinanceDepthOrderBookEvent, BinanceWsBidsAsks};
