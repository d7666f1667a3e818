//! Assembly of fee-market transfer requests.
use vstd::prelude::*;
use crate::address::{Address, parse_address};
use crate::amount::{Amount, amount_bound};
use crate::error::Web3Error;
use crate::fees::{FeePolicy, TRANSFER_GAS_LIMIT};
use crate::units::{from_display, display_value};

verus! {

/// A fee-market transfer, bound to one chain, before signing. The sender is implied by the
/// key that signs it.
#[derive(Clone, Copy, Debug, PartialEq, Eq)]
pub struct TransactionRequest {
    pub to: Address,
    pub value: Amount,
    pub chain_id: u64,
    pub gas_limit: u64,
    pub max_fee_per_gas: Amount,
    pub max_priority_fee_per_gas: Amount,
    pub nonce: u64,
}

/// Builds a plain transfer of `value` base units to `recipient`, with the fixed transfer gas
/// limit. A recipient that is not address text fails with `InvalidAddress`, and nothing is
/// built.
pub fn build(recipient: &str, value: &Amount, chain_id: u64, fees: &FeePolicy, nonce: u64) -> (r:
    Result<TransactionRequest, Web3Error>)
    ensures
        match r {
            Ok(t) => {
                &&& parse_address(recipient@) == Some(t.to@)
                &&& t.value == *value
                &&& t.chain_id == chain_id
                &&& t.gas_limit == TRANSFER_GAS_LIMIT
                &&& t.max_fee_per_gas == fees.max_fee_per_gas
                &&& t.max_priority_fee_per_gas == fees.max_priority_fee_per_gas
                &&& t.nonce == nonce
            },
            Err(e) => e == Web3Error::InvalidAddress && parse_address(recipient@) is None,
        },
{
    let to = match Address::parse(recipient) {
        Ok(a) => a,
        Err(e) => return Err(e),
    };
    Ok(TransactionRequest {
        to,
        value: *value,
        chain_id,
        gas_limit: TRANSFER_GAS_LIMIT,
        max_fee_per_gas: fees.max_fee_per_gas,
        max_priority_fee_per_gas: fees.max_priority_fee_per_gas,
        nonce,
    })
}

/// Builds a transfer of an amount given in display units (`10^decimals` base units each).
/// The recipient is checked first (`InvalidAddress`), then the amount (`InvalidAmount`).
pub fn build_from_display(
    recipient: &str,
    amount: &str,
    decimals: u32,
    chain_id: u64,
    fees: &FeePolicy,
    nonce: u64,
) -> (r: Result<TransactionRequest, Web3Error>)
    ensures
        match r {
            Ok(t) => {
                &&& parse_address(recipient@) == Some(t.to@)
                &&& display_value(amount@, decimals as nat) == Some(t.value@)
                &&& t.chain_id == chain_id
                &&& t.gas_limit == TRANSFER_GAS_LIMIT
                &&& t.max_fee_per_gas == fees.max_fee_per_gas
                &&& t.max_priority_fee_per_gas == fees.max_priority_fee_per_gas
                &&& t.nonce == nonce
            },
            Err(e) => if parse_address(recipient@) is None {
                e == Web3Error::InvalidAddress
            } else {
                e == Web3Error::InvalidAmount && match display_value(amount@, decimals as nat) {
                    Some(v) => v >= amount_bound(),
                    None => true,
                }
            },
        },
{
    if let Err(e) = Address::parse(recipient) {
        return Err(e);
    }
    let value = match from_display(amount, decimals) {
        Ok(v) => v,
        Err(e) => return Err(e),
    };
    build(recipient, &value, chain_id, fees, nonce)
}

} // verus!
