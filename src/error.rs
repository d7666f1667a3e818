//! The failures that the library reports, each distinguishable without reading a message.
use vstd::prelude::*;

verus! {

#[derive(Clone, Debug, PartialEq, Eq)]
pub enum Web3Error {
    /// A recipient or account string is not a 20-byte hexadecimal address.
    InvalidAddress,
    /// An amount is malformed, negative or does not fit in 256 bits.
    InvalidAmount,
    /// The node could not be reached or sent an unreadable answer.
    NodeUnavailable,
    /// The node answered with an error envelope.
    RpcError { code: i64, message: String },
    /// A transaction could not be signed.
    SigningError,
    /// No receipt was seen within the polling budget.
    ConfirmationTimeout,
}

} // verus!
