//! The ledger's global laws, stated and proved once over any well-formed
//! state.
//!
//! Every entry point of [`Contract`] requires `wf()` of the state before
//! the call and ensures it after, so these laws hold at every point a
//! caller can observe.  The laws that speak of a single call — an error
//! leaves the state untouched, approving overwrites rather than adds,
//! revoking what is absent is a silent no-op — are stated directly in the
//! `ensures` of the entry point they concern.

use vstd::prelude::*;

use crate::approvals::lemma_appr_positive;
use crate::balances::{lemma_bal_positive, sum_class};
use crate::contract::Contract;

verus! {

/// Conservation: in a well-formed ledger, the balances that all accounts
/// together hold of a class add up to exactly the class's total supply —
/// for every class, including unregistered ones (where both sides are
/// zero).  Minting is the only operation whose contract changes this sum,
/// and it changes both sides by exactly the minted amount.
pub proof fn lemma_conservation(c: Contract, class_id: Seq<char>)
    requires
        c.wf(),
    ensures
        sum_class(c.balances_v(), class_id) == c.supply(class_id),
{
}

/// Cleanup of balances: a balance entry exists exactly when the balance is
/// positive.  No observable state holds an entry at zero — an entry spent
/// or transferred down to nothing is deleted within the same call.
pub proof fn lemma_no_zero_balance_entry(c: Contract, account: Seq<char>, class_id: Seq<char>)
    requires
        c.wf(),
    ensures
        c.has_balance(account, class_id) <==> c.balance(account, class_id) > 0,
{
    lemma_bal_positive(c.balances_v(), account, class_id);
}

/// Cleanup of approvals: an allowance entry exists exactly when the
/// allowance is positive.  Approving an amount of zero, revoking, and
/// spending an allowance down to nothing all leave no entry behind.
pub proof fn lemma_no_zero_approval_entry(
    c: Contract,
    owner: Seq<char>,
    class_id: Seq<char>,
    spender: Seq<char>,
)
    requires
        c.wf(),
    ensures
        c.has_approval(owner, class_id, spender) <==> c.allowance(owner, class_id, spender) > 0,
{
    lemma_appr_positive(c.approvals_v(), owner, class_id, spender);
}

} // verus!
