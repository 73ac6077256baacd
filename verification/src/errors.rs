use vstd::prelude::*;

verus! {

/// Why a ledger call was rejected.
///
/// Every mutating entry point returns one of these instead of touching the
/// ledger: an error always means the state is exactly as it was before the
/// call.  Insufficiency errors carry the requested and available quantities.
#[derive(Clone, Copy, Debug, PartialEq, Eq, Structural)]
pub enum Error {
    /// A malformed request: empty class id or a zero amount.
    InvalidArgument,
    /// Metadata was supplied for a class id that already exists.
    ClassAlreadyExists,
    /// The class id is not registered (and no metadata was supplied).
    ClassNotFound,
    /// Minting would push the class's total supply past `u64::MAX`.
    SupplyOverflow,
    /// The receiver's balance would pass `u64::MAX`.
    BalanceOverflow,
    /// The sender holds fewer copies than the transfer asks for.
    InsufficientBalance { requested: u64, available: u64 },
    /// Sender and receiver of a direct transfer are the same account.
    SelfTransferRejected,
    /// An owner tried to approve themselves as a spender.
    SelfApprovalRejected,
    /// Buyer and seller of a marketplace purchase are the same account.
    SelfTradeRejected,
    /// Owner, spender and receiver of a delegated transfer must be
    /// pairwise distinct.
    InvalidParticipants,
    /// The owner holds no allowance entry for this spender and class.
    ApprovalNotFound,
    /// The allowance entry exists but is smaller than the requested amount.
    InsufficientApproval { requested: u64, available: u64 },
    /// The payment attached to a marketplace purchase is below the price.
    InsufficientPayment { attached: u128, required: u128 },
    /// The seller never approved the marketplace for this class, or the
    /// allowance has been spent down to nothing.
    MarketplaceNotApproved,
    /// The deposit attached to a metered call does not cover the storage it
    /// would add.  `required` saturates at `u128::MAX`.
    InsufficientStorageDeposit { attached: u128, required: u128 },
    /// A guarded call must attach exactly the fixed guard amount.
    GuardDepositMismatch,
}

} // verus!
