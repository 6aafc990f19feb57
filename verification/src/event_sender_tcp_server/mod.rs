mod buff_reader;

pub use buff_reader::{lemma_package_round_trip, splits_at, BufferReader, BUFFER_CAPACITY};
