//! The resource meter: storage-deposit settlement for metered calls.
//!
//! A metered call measures the host's storage use before and after its
//! mutation; the bytes added cost `byte_cost` each, the attached deposit
//! must cover that cost, and whatever is left over is refunded unless it is
//! dust.  A usage reading that *decreased* counts as zero bytes added — the
//! delta is clamped, never negative.  Note that the clamp makes such a call
//! free of storage cost: a mutation that shrinks state pays nothing, and a
//! host whose readings misbehave is never charged a negative amount.  The
//! caller can see the clamp in the readings it hands in; rejecting a
//! decreased reading outright would refuse legitimate calls that shrink
//! state.

use vstd::prelude::*;

use crate::errors::Error;

verus! {

/// How many bytes the mutation added; zero when usage decreased.
pub open spec fn storage_delta(before: u64, after: u64) -> int {
    if after >= before {
        after - before
    } else {
        0
    }
}

/// What the added bytes cost, in attachable units.
pub open spec fn storage_cost(before: u64, after: u64, byte_cost: u128) -> int {
    storage_delta(before, after) * byte_cost
}

/// What is paid back out of `excess`: everything, unless it is no more than
/// the dust threshold, in which case nothing is.
pub open spec fn refund_amount(excess: int, dust: u128) -> int {
    if excess > dust {
        excess
    } else {
        0
    }
}

/// Settle the storage deposit of one metered call: the attached deposit
/// must cover the cost of the bytes added, and the refund due back to the
/// caller is returned (zero when the excess is dust).  When the deposit
/// falls short the call reports the shortfall, with the required amount
/// saturated at `u128::MAX`.
pub fn settle_storage_deposit(
    before: u64,
    after: u64,
    byte_cost: u128,
    attached: u128,
    dust: u128,
) -> (r: Result<u128, Error>)
    ensures
        r is Ok <==> attached >= storage_cost(before, after, byte_cost),
        r matches Ok(refund) ==> refund as int == refund_amount(
            attached - storage_cost(before, after, byte_cost),
            dust,
        ),
        r matches Err(e) ==> e == (Error::InsufficientStorageDeposit {
            attached,
            required: if storage_cost(before, after, byte_cost) <= u128::MAX {
                storage_cost(before, after, byte_cost) as u128
            } else {
                u128::MAX
            },
        }),
{
    let delta: u64 = if after >= before {
        after - before
    } else {
        0
    };
    match (delta as u128).checked_mul(byte_cost) {
        Some(cost) => {
            if attached < cost {
                Err(Error::InsufficientStorageDeposit { attached, required: cost })
            } else {
                let excess = attached - cost;
                if excess > dust {
                    Ok(excess)
                } else {
                    Ok(0)
                }
            }
        },
        None => Err(Error::InsufficientStorageDeposit { attached, required: u128::MAX }),
    }
}

} // verus!
