//! When a failed node call may be repeated, and how long to wait first.
use vstd::prelude::*;
use crate::error::Web3Error;

verus! {

/// The kind of node call that failed.
#[derive(Clone, Copy, Debug, PartialEq, Eq, Structural)]
pub enum CallKind {
    /// A query of chain state: repeating it changes nothing.
    Read,
    /// Submission of a signed transaction: repeating it may spend twice.
    Broadcast,
}

/// A call may be repeated only if it is a read that failed in transport, within the budget.
/// A node-reported error is never retried, nor is a broadcast.
pub fn may_retry(kind: CallKind, err: &Web3Error, attempt: u32, max_attempts: u32) -> (r: bool)
    ensures
        r == (kind == CallKind::Read && *err == Web3Error::NodeUnavailable && attempt
            < max_attempts),
{
    match kind {
        CallKind::Read => match err {
            Web3Error::NodeUnavailable => attempt < max_attempts,
            _ => false,
        },
        CallKind::Broadcast => false,
    }
}

pub open spec fn pow2(e: nat) -> nat
    decreases e,
{
    if e == 0 {
        1
    } else {
        2 * pow2((e - 1) as nat)
    }
}

/// The wait before retry number `attempt` (from 0): `base_ms * 2^attempt`, capped at
/// `u64::MAX`.
pub fn backoff_ms(base_ms: u64, attempt: u32) -> (r: u64)
    ensures
        r == if base_ms * pow2(attempt as nat) <= u64::MAX {
            base_ms * pow2(attempt as nat)
        } else {
            u64::MAX as int
        },
{
    let mut d = base_ms;
    let mut i: u32 = 0;
    assert(base_ms * pow2(0) == base_ms) by {
        assert(pow2(0) == 1);
    }
    while i < attempt
        invariant
            i <= attempt,
            d == if base_ms * pow2(i as nat) <= u64::MAX {
                base_ms * pow2(i as nat)
            } else {
                u64::MAX as int
            },
        decreases attempt - i,
    {
        proof {
            let p = pow2(i as nat);
            assert(pow2((i + 1) as nat) == 2 * p);
            assert(base_ms * (2 * p) == 2 * (base_ms * p)) by (nonlinear_arith);
        }
        if d > u64::MAX / 2 {
            d = u64::MAX;
        } else {
            d = d * 2;
        }
        i = i + 1;
    }
    d
}

} // verus!
