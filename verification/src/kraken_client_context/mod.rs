mod contracts;
mod kraken_context;
mod kraken_orderbook;

pub use contracts::{
    OrderBookEvent, OrderBookSnapshotEvent, SubscribeToKraken, SubscriptionKraken,
    WsBidAskContainer, WsBidAskSnapshotContainer, WsBidsAsks, WsBidsAsksSnapshot,
};
pub use kraken_context::{
    kraken_frame, kraken_handled, lemma_level_fields, lemma_side_reads_every_level, kraken_started_from, kraken_updated, optional_update_side, spec_snapshot_level,
    spec_snapshot_side, spec_update_level, spec_update_side, KrakenExchangeContext, KrakenFrame,
};
pub use kraken_orderbook::{
    apply_updates, bid_ask_to_btree_map, end_readable, is_greatest_text, is_least_text,
    kraken_quote, last_update_of, lemma_apply_updates_idempotent, pair_model, quoted_prices_readable, snapshot_levels, snapshot_readable,
    snapshot_to_map, update_levels, updates_readable, KrakenOrderBook, SnapshotLevel, UpdateLevel,
    lemma_negligible_volume_bound_value, lemma_negligible_volume_is_value_order, negligible_volume_bound, negligible_volume, VOLUME_NEGLIGIBLE_DIGITS, VOLUME_NEGLIGIBLE_EXPONENT,
};
