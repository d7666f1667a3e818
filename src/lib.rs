//! Verified core of a small Ethereum-family client: 256-bit base-unit amounts and their
//! decimal rendering, addresses, fee estimation, transaction assembly, nonce allocation,
//! receipt polling and the retry policy for node calls.
pub mod address;
pub mod amount;
pub mod confirm;
pub mod error;
pub mod fees;
pub mod nonce;
pub mod retry;
pub mod tx;
pub mod units;
