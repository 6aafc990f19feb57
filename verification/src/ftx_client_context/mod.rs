mod contracts;

pub use contracts::{FtxSubscribeMessage, WsBidsAsks};
