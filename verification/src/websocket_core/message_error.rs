use vstd::prelude::*;

verus! {

/// Why a message from an exchange could not be turned into a quote.
#[derive(Clone, Copy, Debug, PartialEq, Eq, Structural)]
pub enum MessageError {
    /// A quantity or time of a price level is not a number.
    UnreadableQuantity,
    /// A price that must be compared is not a number.
    UnreadablePrice,
    /// The message does not have the shape the exchange's feed uses.
    MalformedMessage,
    /// An update names a pair for which no book was started.
    UnknownPair,
}

} // verus!
