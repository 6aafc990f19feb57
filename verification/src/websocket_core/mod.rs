mod bidask;
mod message_error;

pub use bidask::BidAsk;
pub use message_error::MessageError;
