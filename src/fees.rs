//! Fee policy from a gas price: price times limit, and a priority surcharge.
use vstd::prelude::*;
use crate::amount::{Amount, amount_bound};
use crate::error::Web3Error;

verus! {

/// Gas used by a plain transfer of the native currency.
pub const TRANSFER_GAS_LIMIT: u64 = 21000;

/// One gwei in base units: the default surcharge on the gas price.
pub const GWEI: u64 = 1_000_000_000;

/// The per-unit fee caps of a fee-market transaction.
#[derive(Clone, Copy, Debug, PartialEq, Eq)]
pub struct FeePolicy {
    pub max_fee_per_gas: Amount,
    pub max_priority_fee_per_gas: Amount,
}

/// A fee policy with the gas price and limit it came from, and the fee they imply.
#[derive(Clone, Copy, Debug, PartialEq, Eq)]
pub struct FeeEstimate {
    pub gas_price: Amount,
    pub gas_limit: u64,
    pub estimated_fee: Amount,
    pub policy: FeePolicy,
}

/// The fee of `gas_limit` units of work at `gas_price`, exactly; `InvalidAmount` past 256 bits.
pub fn estimated_fee(gas_price: &Amount, gas_limit: u64) -> (r: Result<Amount, Web3Error>)
    ensures
        match r {
            Ok(fee) => fee@ == gas_price@ * gas_limit,
            Err(e) => e == Web3Error::InvalidAmount && gas_price@ * gas_limit >= amount_bound(),
        },
{
    match gas_price.checked_mul_u64(gas_limit) {
        Some(fee) => Ok(fee),
        None => Err(Web3Error::InvalidAmount),
    }
}

/// Derives the fee policy from one reading of the gas price: the cap is the price plus
/// `priority_buffer`, the priority fee is given explicitly, and the estimated fee is the price
/// times `gas_limit`. Fails with `InvalidAmount` where a result does not fit in 256 bits.
pub fn estimate(
    gas_price: &Amount,
    gas_limit: u64,
    priority_buffer: &Amount,
    priority_fee: &Amount,
) -> (r: Result<FeeEstimate, Web3Error>)
    ensures
        match r {
            Ok(est) => {
                &&& est.gas_price == *gas_price
                &&& est.gas_limit == gas_limit
                &&& est.estimated_fee@ == gas_price@ * gas_limit
                &&& est.policy.max_fee_per_gas@ == gas_price@ + priority_buffer@
                &&& est.policy.max_priority_fee_per_gas == *priority_fee
            },
            Err(e) => e == Web3Error::InvalidAmount && (gas_price@ * gas_limit >= amount_bound()
                || gas_price@ + priority_buffer@ >= amount_bound()),
        },
{
    let fee = match estimated_fee(gas_price, gas_limit) {
        Ok(fee) => fee,
        Err(e) => return Err(e),
    };
    let cap = match gas_price.checked_add(priority_buffer) {
        Some(cap) => cap,
        None => return Err(Web3Error::InvalidAmount),
    };
    Ok(FeeEstimate {
        gas_price: *gas_price,
        gas_limit,
        estimated_fee: fee,
        policy: FeePolicy { max_fee_per_gas: cap, max_priority_fee_per_gas: *priority_fee },
    })
}

} // verus!
