mod connection;

pub use connection::{handle_incoming_payload, ping_bytes, pong_bytes, PayloadError};
