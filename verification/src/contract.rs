//! The ledger core: one state value holding the class registry, the
//! balance ledger, the approval ledger and the holder enumeration index,
//! with the six mutating entry points and the read-only views.
//!
//! Every mutating entry point validates first and mutates only when the
//! whole call will succeed: an `Err` result always leaves the state exactly
//! as it was.  The well-formedness predicate [`Contract::wf`] carries the
//! conservation law — for every class, the balances across all accounts
//! add up to the class's total supply — and every entry point preserves it.

use vstd::prelude::*;

use crate::approvals::{
    allowance_amount, allowance_of, appr_wf, consume_approval, has_appr, lemma_appr_positive,
    remove_approval, set_approval, written_allowance, ApprView, ApprovalEntry,
};
use crate::balances::{
    apply_move, bal_of, bal_wf, balance_amount, has_bal, holder_known, holders_cover,
    holders_unique, lemma_bal_entry_index, moved_bal, moved_has, sum_class, BalView, BalanceEntry,
};
use crate::errors::Error;
use crate::events::{AuditRecord, AuditView, EventKind, MarketSettlement};
use crate::meta::{MintArgsView, NFTMetadata, SftMintArgs, TokenClassMetadata};
use crate::registry::{
    find_class, has_class, lemma_record_of_absent, lemma_record_of_index, lemma_record_of_push,
    lemma_record_of_update, lemma_registry_wf_push, lemma_registry_wf_update, record_of,
    registry_wf, set_supply, supply_of, ClassRecord, ClassView,
};

verus! {

/// The exact deposit a guarded call must attach: a tamper-evident signal
/// against replay, not a fee.
pub const GUARD_DEPOSIT: u128 = 1;

/// The whole ledger state.
pub struct Contract {
    pub owner_id: String,
    pub classes: Vec<ClassRecord>,
    pub balances: Vec<BalanceEntry>,
    pub approvals: Vec<ApprovalEntry>,
    pub holders: Vec<String>,
}

impl Contract {
    /// The registry as a mathematical sequence.
    pub open spec fn classes_v(self) -> Seq<ClassView> {
        self.classes.deep_view()
    }

    /// The balance ledger as a mathematical sequence.
    pub open spec fn balances_v(self) -> Seq<BalView> {
        self.balances.deep_view()
    }

    /// The approval ledger as a mathematical sequence.
    pub open spec fn approvals_v(self) -> Seq<ApprView> {
        self.approvals.deep_view()
    }

    /// The holder enumeration index as a mathematical sequence.
    pub open spec fn holders_v(self) -> Seq<Seq<char>> {
        self.holders.deep_view()
    }

    /// The record registered under class id `c`, if any.
    pub open spec fn class_record(self, c: Seq<char>) -> Option<ClassView> {
        record_of(self.classes_v(), c)
    }

    /// Is class `c` registered?
    pub open spec fn has_class_id(self, c: Seq<char>) -> bool {
        has_class(self.classes_v(), c)
    }

    /// The total supply of class `c`; zero when unregistered.
    pub open spec fn supply(self, c: Seq<char>) -> int {
        supply_of(self.classes_v(), c)
    }

    /// Account `a`'s balance of class `c`; zero when it holds no entry.
    pub open spec fn balance(self, a: Seq<char>, c: Seq<char>) -> int {
        bal_of(self.balances_v(), a, c)
    }

    /// Does account `a` hold a balance entry for class `c`?
    pub open spec fn has_balance(self, a: Seq<char>, c: Seq<char>) -> bool {
        has_bal(self.balances_v(), a, c)
    }

    /// The allowance owner `o` granted spender `s` for class `c`; zero when
    /// no entry exists.
    pub open spec fn allowance(self, o: Seq<char>, c: Seq<char>, s: Seq<char>) -> int {
        allowance_of(self.approvals_v(), o, c, s)
    }

    /// Does an allowance entry exist for this key?
    pub open spec fn has_approval(self, o: Seq<char>, c: Seq<char>, s: Seq<char>) -> bool {
        has_appr(self.approvals_v(), o, c, s)
    }

    /// The ledger invariant: each store is well formed, every account with
    /// a balance is enumerable, and — conservation — for every class the
    /// balances across all accounts add up to the total supply.
    pub open spec fn wf(self) -> bool {
        &&& registry_wf(self.classes_v())
        &&& bal_wf(self.balances_v())
        &&& appr_wf(self.approvals_v())
        &&& holders_unique(self.holders_v())
        &&& holders_cover(self.balances_v(), self.holders_v())
        &&& forall|c: Seq<char>| #[trigger] sum_class(self.balances_v(), c) == self.supply(c)
    }

    /// An empty ledger owned by `owner_id`.
    pub fn new(owner_id: String) -> (r: Contract)
        ensures
            r.wf(),
            r.owner_id@ == owner_id@,
            r.classes_v().len() == 0,
            r.balances_v().len() == 0,
            r.approvals_v().len() == 0,
            r.holders_v().len() == 0,
    {
        let r = Contract {
            owner_id,
            classes: Vec::new(),
            balances: Vec::new(),
            approvals: Vec::new(),
            holders: Vec::new(),
        };
        proof {
            assert(r.classes_v().len() == 0);
            assert(r.balances_v().len() == 0);
            assert forall|c: Seq<char>| #[trigger]
                sum_class(r.balances_v(), c) == r.supply(c) by {
                assert(sum_class(r.balances_v(), c) == 0);
                assert(record_of(r.classes_v(), c) is None);
            }
        }
        r
    }
}

/// The first reason a mint call must be rejected, if any: a malformed
/// request, metadata for a class that already exists, a missing class when
/// no metadata arrives, or an unrepresentable supply or balance.
pub open spec fn mint_check(pre: Contract, caller: Seq<char>, args: MintArgsView) -> Option<Error> {
    if args.token_class_id.len() == 0 || args.amount == 0 {
        Some(Error::InvalidArgument)
    } else if args.metadata is Some && pre.has_class_id(args.token_class_id) {
        Some(Error::ClassAlreadyExists)
    } else if args.metadata is None && !pre.has_class_id(args.token_class_id) {
        Some(Error::ClassNotFound)
    } else if pre.supply(args.token_class_id) + args.amount > u64::MAX {
        Some(Error::SupplyOverflow)
    } else if pre.balance(args.receiver_id, args.token_class_id) + args.amount > u64::MAX {
        Some(Error::BalanceOverflow)
    } else {
        None
    }
}

/// The registry record for the minted class after a successful mint:
/// freshly created with the supplied metadata and the caller as creator, or
/// the existing record with its supply counter grown.
pub open spec fn minted_record(pre: Contract, caller: Seq<char>, args: MintArgsView) -> ClassView {
    match args.metadata {
        Some(m) => ClassView {
            class_id: args.token_class_id,
            metadata: m,
            creator_id: caller,
            supply: args.amount,
        },
        None => ClassView {
            supply: (pre.supply(args.token_class_id) + args.amount) as u64,
            ..pre.class_record(args.token_class_id)->0
        },
    }
}

impl Contract {
    /// Mint `args.amount` copies of `args.token_class_id` to
    /// `args.receiver_id`.  When `args.metadata` is present the class is
    /// created — metadata, creator attribution and supply counter together —
    /// and must not exist yet; when absent the class must already exist.
    /// Minting is the only operation that grows a class's total supply, and
    /// it grows it by exactly the minted amount.
    pub fn sft_mint(&mut self, caller: &String, args: SftMintArgs) -> (r: Result<
        AuditRecord,
        Error,
    >)
        requires
            old(self).wf(),
        ensures
            final(self).wf(),
            match r {
                Err(e) => *final(self) == *old(self) && mint_check(*old(self), caller@, args@)
                    == Some(e),
                Ok(rec) => {
                    &&& mint_check(*old(self), caller@, args@) is None
                    &&& forall|c: Seq<char>|
                        #![trigger final(self).class_record(c)]
                        #![trigger final(self).supply(c)]
                        #![trigger final(self).has_class_id(c)]
                        final(self).class_record(c) == (if c == args@.token_class_id {
                            Some(minted_record(*old(self), caller@, args@))
                        } else {
                            old(self).class_record(c)
                        })
                    &&& forall|a: Seq<char>, cc: Seq<char>|
                        #[trigger] final(self).balance(a, cc) == moved_bal(
                            old(self).balances_v(),
                            None,
                            args@.receiver_id,
                            args@.token_class_id,
                            args@.amount,
                            a,
                            cc,
                        )
                    &&& forall|a: Seq<char>, cc: Seq<char>|
                        #[trigger] final(self).has_balance(a, cc) == moved_has(
                            old(self).balances_v(),
                            None,
                            args@.receiver_id,
                            args@.token_class_id,
                            args@.amount,
                            a,
                            cc,
                        )
                    &&& forall|c: Seq<char>|
                        #[trigger] sum_class(final(self).balances_v(), c) == sum_class(
                            old(self).balances_v(),
                            c,
                        ) + (if c == args@.token_class_id {
                            args@.amount as int
                        } else {
                            0
                        })
                    &&& final(self).approvals == old(self).approvals
                    &&& final(self).owner_id == old(self).owner_id
                    &&& forall|x: Seq<char>|
                        #[trigger] holder_known(final(self).holders_v(), x) <==> holder_known(
                            old(self).holders_v(),
                            x,
                        ) || x == args@.receiver_id
                    &&& rec@ == (AuditView {
                        kind: EventKind::Mint,
                        owner_id: args@.receiver_id,
                        counterparty_id: caller@,
                        token_class_id: args@.token_class_id,
                        amount: args@.amount,
                        memo: None,
                        authorized_id: None,
                    })
                },
            },
    {
        let ghost pre = *self;
        let ghost argsv = args@;
        let SftMintArgs { token_class_id, amount, receiver_id, metadata } = args;

        if token_class_id.as_str().is_empty() || amount == 0 {
            return Err(Error::InvalidArgument);
        }

        let idx = find_class(&self.classes, &token_class_id);
        proof {
            match idx {
                Some(i) => lemma_record_of_index(pre.classes_v(), i as int),
                None => lemma_record_of_absent(pre.classes_v(), token_class_id@),
            }
        }
        if idx.is_some() && metadata.is_some() {
            return Err(Error::ClassAlreadyExists);
        }
        if idx.is_none() && metadata.is_none() {
            return Err(Error::ClassNotFound);
        }

        let new_supply: u64 = match idx {
            Some(i) => {
                match self.classes[i].supply.checked_add(amount) {
                    Some(ns) => ns,
                    None => {
                        return Err(Error::SupplyOverflow);
                    },
                }
            },
            None => amount,
        };

        let receiver_held = balance_amount(&self.balances, &receiver_id, &token_class_id);
        if amount > u64::MAX - receiver_held {
            return Err(Error::BalanceOverflow);
        }

        // Commit: registry first, then the balance move.  Nothing below can
        // fail.
        match idx {
            Some(i) => {
                let ghost r1 = ClassView { supply: new_supply, ..pre.classes_v()[i as int] };
                set_supply(&mut self.classes, i, new_supply);
                proof {
                    lemma_registry_wf_update(pre.classes_v(), i as int, r1);
                    assert forall|c: Seq<char>| #[trigger]
                        record_of(self.classes_v(), c) == (if c == argsv.token_class_id {
                            Some(minted_record(pre, caller@, argsv))
                        } else {
                            record_of(pre.classes_v(), c)
                        }) by {
                        lemma_record_of_update(pre.classes_v(), i as int, r1, c);
                    }
                }
            },
            None => {
                let m = metadata.unwrap();
                self.classes.push(ClassRecord {
                    class_id: token_class_id.clone(),
                    metadata: m,
                    creator_id: caller.clone(),
                    supply: new_supply,
                });
                proof {
                    let ghost r1 = ClassView {
                        class_id: argsv.token_class_id,
                        metadata: argsv.metadata->0,
                        creator_id: caller@,
                        supply: new_supply,
                    };
                    assert(self.classes_v() =~= pre.classes_v().push(r1));
                    lemma_registry_wf_push(pre.classes_v(), r1);
                    assert forall|c: Seq<char>| #[trigger]
                        record_of(self.classes_v(), c) == (if c == argsv.token_class_id {
                            Some(minted_record(pre, caller@, argsv))
                        } else {
                            record_of(pre.classes_v(), c)
                        }) by {
                        lemma_record_of_push(pre.classes_v(), r1, c);
                    }
                }
            },
        }

        apply_move(&mut self.balances, &mut self.holders, None, &receiver_id, &token_class_id, amount);

        proof {
            assert forall|c: Seq<char>| #[trigger]
                sum_class(self.balances_v(), c) == self.supply(c) by {
                assert(sum_class(self.balances_v(), c) == sum_class(pre.balances_v(), c) + (
                if c == token_class_id@ {
                    amount as int
                } else {
                    0
                }));
            }
        }

        Ok(AuditRecord {
            kind: EventKind::Mint,
            owner_id: receiver_id,
            counterparty_id: caller.clone(),
            token_class_id,
            amount,
            memo: None,
            authorized_id: None,
        })
    }
}

/// The first reason a direct transfer must be rejected, if any.
pub open spec fn transfer_check(
    pre: Contract,
    caller: Seq<char>,
    attached: u128,
    receiver: Seq<char>,
    class_id: Seq<char>,
    amount: u64,
) -> Option<Error> {
    if attached != GUARD_DEPOSIT {
        Some(Error::GuardDepositMismatch)
    } else if amount == 0 {
        Some(Error::InvalidArgument)
    } else if caller == receiver {
        Some(Error::SelfTransferRejected)
    } else if pre.balance(caller, class_id) < amount {
        Some(
            Error::InsufficientBalance {
                requested: amount,
                available: pre.balance(caller, class_id) as u64,
            },
        )
    } else if pre.balance(receiver, class_id) + amount > u64::MAX {
        Some(Error::BalanceOverflow)
    } else {
        None
    }
}

impl Contract {
    /// Move `amount` copies of `token_class_id` from the caller to
    /// `receiver_id`.  The call must attach exactly the guard deposit, the
    /// caller must hold enough, and the move is all-or-nothing: on any
    /// error every balance is exactly as it was.
    pub fn sft_transfer(
        &mut self,
        caller: &String,
        attached: u128,
        receiver_id: &String,
        token_class_id: &String,
        amount: u64,
        memo: Option<String>,
    ) -> (r: Result<AuditRecord, Error>)
        requires
            old(self).wf(),
        ensures
            final(self).wf(),
            match r {
                Err(e) => *final(self) == *old(self) && transfer_check(
                    *old(self),
                    caller@,
                    attached,
                    receiver_id@,
                    token_class_id@,
                    amount,
                ) == Some(e),
                Ok(rec) => {
                    &&& transfer_check(
                        *old(self),
                        caller@,
                        attached,
                        receiver_id@,
                        token_class_id@,
                        amount,
                    ) is None
                    &&& forall|a: Seq<char>, cc: Seq<char>|
                        #[trigger] final(self).balance(a, cc) == moved_bal(
                            old(self).balances_v(),
                            Some(caller@),
                            receiver_id@,
                            token_class_id@,
                            amount,
                            a,
                            cc,
                        )
                    &&& forall|a: Seq<char>, cc: Seq<char>|
                        #[trigger] final(self).has_balance(a, cc) == moved_has(
                            old(self).balances_v(),
                            Some(caller@),
                            receiver_id@,
                            token_class_id@,
                            amount,
                            a,
                            cc,
                        )
                    &&& forall|c: Seq<char>|
                        #[trigger] sum_class(final(self).balances_v(), c) == sum_class(
                            old(self).balances_v(),
                            c,
                        )
                    &&& final(self).classes == old(self).classes
                    &&& final(self).approvals == old(self).approvals
                    &&& final(self).owner_id == old(self).owner_id
                    &&& forall|x: Seq<char>|
                        #[trigger] holder_known(final(self).holders_v(), x) <==> holder_known(
                            old(self).holders_v(),
                            x,
                        ) || x == receiver_id@
                    &&& rec@ == (AuditView {
                        kind: EventKind::Transfer,
                        owner_id: caller@,
                        counterparty_id: receiver_id@,
                        token_class_id: token_class_id@,
                        amount,
                        memo: memo.deep_view(),
                        authorized_id: None,
                    })
                },
            },
    {
        let ghost pre = *self;
        if attached != GUARD_DEPOSIT {
            return Err(Error::GuardDepositMismatch);
        }
        if amount == 0 {
            return Err(Error::InvalidArgument);
        }
        if *caller == *receiver_id {
            return Err(Error::SelfTransferRejected);
        }
        let available = balance_amount(&self.balances, caller, token_class_id);
        if available < amount {
            return Err(Error::InsufficientBalance { requested: amount, available });
        }
        let receiver_held = balance_amount(&self.balances, receiver_id, token_class_id);
        if amount > u64::MAX - receiver_held {
            return Err(Error::BalanceOverflow);
        }

        apply_move(
            &mut self.balances,
            &mut self.holders,
            Some(caller),
            receiver_id,
            token_class_id,
            amount,
        );

        proof {
            assert forall|c: Seq<char>| #[trigger]
                sum_class(self.balances_v(), c) == self.supply(c) by {
                assert(sum_class(self.balances_v(), c) == sum_class(pre.balances_v(), c));
            }
        }

        Ok(AuditRecord {
            kind: EventKind::Transfer,
            owner_id: caller.clone(),
            counterparty_id: receiver_id.clone(),
            token_class_id: token_class_id.clone(),
            amount,
            memo,
            authorized_id: None,
        })
    }
}

/// The one reason an approval must be rejected, if any: an owner cannot
/// approve themselves.
pub open spec fn approve_check(caller: Seq<char>, spender: Seq<char>) -> Option<Error> {
    if caller == spender {
        Some(Error::SelfApprovalRejected)
    } else {
        None
    }
}

impl Contract {
    /// Set the caller's allowance for `account_id_to_approve` on
    /// `token_class_id` to exactly `amount` — an overwrite, never an
    /// addition.  An `amount` of zero ensures no entry exists.
    pub fn sft_approve(
        &mut self,
        caller: &String,
        account_id_to_approve: &String,
        token_class_id: &String,
        amount: u64,
    ) -> (r: Result<AuditRecord, Error>)
        requires
            old(self).wf(),
        ensures
            final(self).wf(),
            match r {
                Err(e) => *final(self) == *old(self) && approve_check(
                    caller@,
                    account_id_to_approve@,
                ) == Some(e),
                Ok(rec) => {
                    &&& approve_check(caller@, account_id_to_approve@) is None
                    &&& forall|qo: Seq<char>, qc: Seq<char>, qs: Seq<char>|
                        #[trigger] final(self).allowance(qo, qc, qs) == written_allowance(
                            old(self).approvals_v(),
                            caller@,
                            token_class_id@,
                            account_id_to_approve@,
                            amount,
                            qo,
                            qc,
                            qs,
                        )
                    &&& forall|qo: Seq<char>, qc: Seq<char>, qs: Seq<char>|
                        #[trigger] final(self).has_approval(qo, qc, qs) == (if qo == caller@ && qc
                            == token_class_id@ && qs == account_id_to_approve@ {
                            amount > 0
                        } else {
                            old(self).has_approval(qo, qc, qs)
                        })
                    &&& final(self).classes == old(self).classes
                    &&& final(self).balances == old(self).balances
                    &&& final(self).holders == old(self).holders
                    &&& final(self).owner_id == old(self).owner_id
                    &&& rec@ == (AuditView {
                        kind: EventKind::Approve,
                        owner_id: caller@,
                        counterparty_id: account_id_to_approve@,
                        token_class_id: token_class_id@,
                        amount,
                        memo: None,
                        authorized_id: None,
                    })
                },
            },
    {
        if *caller == *account_id_to_approve {
            return Err(Error::SelfApprovalRejected);
        }
        set_approval(&mut self.approvals, caller, token_class_id, account_id_to_approve, amount);
        Ok(AuditRecord {
            kind: EventKind::Approve,
            owner_id: caller.clone(),
            counterparty_id: account_id_to_approve.clone(),
            token_class_id: token_class_id.clone(),
            amount,
            memo: None,
            authorized_id: None,
        })
    }

    /// Remove the caller's allowance for `account_id_to_revoke` on
    /// `token_class_id`.  Revoking an allowance that does not exist
    /// succeeds, changes nothing, and reports no audit record — the record
    /// is `Some` exactly when an entry existed and was removed.
    pub fn sft_revoke(
        &mut self,
        caller: &String,
        attached: u128,
        account_id_to_revoke: &String,
        token_class_id: &String,
    ) -> (r: Result<Option<AuditRecord>, Error>)
        requires
            old(self).wf(),
        ensures
            final(self).wf(),
            match r {
                Err(e) => *final(self) == *old(self) && attached != GUARD_DEPOSIT && e
                    == Error::GuardDepositMismatch,
                Ok(opt) => {
                    &&& attached == GUARD_DEPOSIT
                    &&& (opt is Some <==> old(self).has_approval(
                        caller@,
                        token_class_id@,
                        account_id_to_revoke@,
                    ))
                    &&& (opt is None ==> *final(self) == *old(self))
                    &&& forall|qo: Seq<char>, qc: Seq<char>, qs: Seq<char>|
                        #[trigger] final(self).allowance(qo, qc, qs) == written_allowance(
                            old(self).approvals_v(),
                            caller@,
                            token_class_id@,
                            account_id_to_revoke@,
                            0,
                            qo,
                            qc,
                            qs,
                        )
                    &&& forall|qo: Seq<char>, qc: Seq<char>, qs: Seq<char>|
                        #[trigger] final(self).has_approval(qo, qc, qs) == (if qo == caller@ && qc
                            == token_class_id@ && qs == account_id_to_revoke@ {
                            false
                        } else {
                            old(self).has_approval(qo, qc, qs)
                        })
                    &&& final(self).classes == old(self).classes
                    &&& final(self).balances == old(self).balances
                    &&& final(self).holders == old(self).holders
                    &&& final(self).owner_id == old(self).owner_id
                    &&& (opt matches Some(rec) ==> rec@ == (AuditView {
                        kind: EventKind::Revoke,
                        owner_id: caller@,
                        counterparty_id: account_id_to_revoke@,
                        token_class_id: token_class_id@,
                        amount: 0,
                        memo: None,
                        authorized_id: None,
                    }))
                },
            },
    {
        if attached != GUARD_DEPOSIT {
            return Err(Error::GuardDepositMismatch);
        }
        let removed = remove_approval(
            &mut self.approvals,
            caller,
            token_class_id,
            account_id_to_revoke,
        );
        if removed {
            Ok(
                Some(
                    AuditRecord {
                        kind: EventKind::Revoke,
                        owner_id: caller.clone(),
                        counterparty_id: account_id_to_revoke.clone(),
                        token_class_id: token_class_id.clone(),
                        amount: 0,
                        memo: None,
                        authorized_id: None,
                    },
                ),
            )
        } else {
            Ok(None)
        }
    }
}

/// The first reason a delegated transfer must be rejected, if any.  The
/// approval is examined strictly before the balances: a call that fails on
/// the approval step reports that failure whatever the balances hold.
pub open spec fn transfer_from_check(
    pre: Contract,
    caller: Seq<char>,
    attached: u128,
    owner: Seq<char>,
    receiver: Seq<char>,
    class_id: Seq<char>,
    amount: u64,
) -> Option<Error> {
    if attached != GUARD_DEPOSIT {
        Some(Error::GuardDepositMismatch)
    } else if amount == 0 {
        Some(Error::InvalidArgument)
    } else if owner == receiver || caller == receiver || owner == caller {
        Some(Error::InvalidParticipants)
    } else if !pre.has_approval(owner, class_id, caller) {
        Some(Error::ApprovalNotFound)
    } else if pre.allowance(owner, class_id, caller) < amount {
        Some(
            Error::InsufficientApproval {
                requested: amount,
                available: pre.allowance(owner, class_id, caller) as u64,
            },
        )
    } else if pre.balance(owner, class_id) < amount {
        Some(
            Error::InsufficientBalance {
                requested: amount,
                available: pre.balance(owner, class_id) as u64,
            },
        )
    } else if pre.balance(receiver, class_id) + amount > u64::MAX {
        Some(Error::BalanceOverflow)
    } else {
        None
    }
}

impl Contract {
    /// Move `amount` copies of `token_class_id` from `owner_id` to
    /// `receiver_id`, driven by the caller, who must hold a sufficient
    /// allowance from the owner.  The allowance is consumed by exactly the
    /// moved amount.  All-or-nothing: on any error — in particular a
    /// failed approval check — neither a balance nor an allowance changes.
    pub fn sft_transfer_from(
        &mut self,
        caller: &String,
        attached: u128,
        owner_id: &String,
        receiver_id: &String,
        token_class_id: &String,
        amount: u64,
        memo: Option<String>,
    ) -> (r: Result<AuditRecord, Error>)
        requires
            old(self).wf(),
        ensures
            final(self).wf(),
            match r {
                Err(e) => *final(self) == *old(self) && transfer_from_check(
                    *old(self),
                    caller@,
                    attached,
                    owner_id@,
                    receiver_id@,
                    token_class_id@,
                    amount,
                ) == Some(e),
                Ok(rec) => {
                    &&& transfer_from_check(
                        *old(self),
                        caller@,
                        attached,
                        owner_id@,
                        receiver_id@,
                        token_class_id@,
                        amount,
                    ) is None
                    &&& forall|a: Seq<char>, cc: Seq<char>|
                        #[trigger] final(self).balance(a, cc) == moved_bal(
                            old(self).balances_v(),
                            Some(owner_id@),
                            receiver_id@,
                            token_class_id@,
                            amount,
                            a,
                            cc,
                        )
                    &&& forall|a: Seq<char>, cc: Seq<char>|
                        #[trigger] final(self).has_balance(a, cc) == moved_has(
                            old(self).balances_v(),
                            Some(owner_id@),
                            receiver_id@,
                            token_class_id@,
                            amount,
                            a,
                            cc,
                        )
                    &&& forall|qo: Seq<char>, qc: Seq<char>, qs: Seq<char>|
                        #[trigger] final(self).allowance(qo, qc, qs) == written_allowance(
                            old(self).approvals_v(),
                            owner_id@,
                            token_class_id@,
                            caller@,
                            (old(self).allowance(owner_id@, token_class_id@, caller@)
                                - amount) as u64,
                            qo,
                            qc,
                            qs,
                        )
                    &&& forall|qo: Seq<char>, qc: Seq<char>, qs: Seq<char>|
                        #[trigger] final(self).has_approval(qo, qc, qs) == (if qo == owner_id@ && qc
                            == token_class_id@ && qs == caller@ {
                            old(self).allowance(owner_id@, token_class_id@, caller@) - amount > 0
                        } else {
                            old(self).has_approval(qo, qc, qs)
                        })
                    &&& forall|c: Seq<char>|
                        #[trigger] sum_class(final(self).balances_v(), c) == sum_class(
                            old(self).balances_v(),
                            c,
                        )
                    &&& final(self).classes == old(self).classes
                    &&& final(self).owner_id == old(self).owner_id
                    &&& forall|x: Seq<char>|
                        #[trigger] holder_known(final(self).holders_v(), x) <==> holder_known(
                            old(self).holders_v(),
                            x,
                        ) || x == receiver_id@
                    &&& rec@ == (AuditView {
                        kind: EventKind::Transfer,
                        owner_id: owner_id@,
                        counterparty_id: receiver_id@,
                        token_class_id: token_class_id@,
                        amount,
                        memo: memo.deep_view(),
                        authorized_id: Some(caller@),
                    })
                },
            },
    {
        let ghost pre = *self;
        if attached != GUARD_DEPOSIT {
            return Err(Error::GuardDepositMismatch);
        }
        if amount == 0 {
            return Err(Error::InvalidArgument);
        }
        if *owner_id == *receiver_id || *caller == *receiver_id || *owner_id == *caller {
            return Err(Error::InvalidParticipants);
        }

        // The approval step comes first; a failure here leaves everything
        // untouched, and nothing after it is examined.
        let granted = allowance_amount(&self.approvals, owner_id, token_class_id, caller);
        proof {
            lemma_appr_positive(pre.approvals_v(), owner_id@, token_class_id@, caller@);
        }
        if granted == 0 {
            return Err(Error::ApprovalNotFound);
        }
        if granted < amount {
            return Err(Error::InsufficientApproval { requested: amount, available: granted });
        }

        let available = balance_amount(&self.balances, owner_id, token_class_id);
        if available < amount {
            return Err(Error::InsufficientBalance { requested: amount, available });
        }
        let receiver_held = balance_amount(&self.balances, receiver_id, token_class_id);
        if amount > u64::MAX - receiver_held {
            return Err(Error::BalanceOverflow);
        }

        // Commit: consume the allowance, then move the copies.
        consume_approval(&mut self.approvals, owner_id, token_class_id, caller, amount);
        apply_move(
            &mut self.balances,
            &mut self.holders,
            Some(owner_id),
            receiver_id,
            token_class_id,
            amount,
        );

        proof {
            assert forall|c: Seq<char>| #[trigger]
                sum_class(self.balances_v(), c) == self.supply(c) by {
                assert(sum_class(self.balances_v(), c) == sum_class(pre.balances_v(), c));
            }
        }

        Ok(AuditRecord {
            kind: EventKind::Transfer,
            owner_id: owner_id.clone(),
            counterparty_id: receiver_id.clone(),
            token_class_id: token_class_id.clone(),
            amount,
            memo,
            authorized_id: Some(caller.clone()),
        })
    }
}

/// The first reason a marketplace purchase must be rejected, if any.  The
/// seller's approval of the marketplace is verified strictly before any
/// payment or token movement.
pub open spec fn market_buy_check(
    pre: Contract,
    buyer: Seq<char>,
    marketplace: Seq<char>,
    attached: u128,
    class_id: Seq<char>,
    seller: Seq<char>,
) -> Option<Error> {
    if buyer == seller {
        Some(Error::SelfTradeRejected)
    } else if !pre.has_class_id(class_id) {
        Some(Error::ClassNotFound)
    } else if attached < pre.class_record(class_id)->0.metadata.price_per_copy {
        Some(
            Error::InsufficientPayment {
                attached,
                required: pre.class_record(class_id)->0.metadata.price_per_copy,
            },
        )
    } else if !pre.has_approval(seller, class_id, marketplace) {
        Some(Error::MarketplaceNotApproved)
    } else if pre.balance(seller, class_id) < 1 {
        Some(
            Error::InsufficientBalance {
                requested: 1,
                available: pre.balance(seller, class_id) as u64,
            },
        )
    } else if pre.balance(buyer, class_id) + 1 > u64::MAX {
        Some(Error::BalanceOverflow)
    } else {
        None
    }
}

impl Contract {
    /// One marketplace purchase: the caller buys exactly one copy of
    /// `token_class_id` from `seller_id`, who must have approved the
    /// marketplace account as a spender.  The attached payment must cover
    /// the class's price; the settlement reports the price owed to the
    /// seller and the excess owed back to the buyer (zero when it is no
    /// more than `dust`).  The host schedules both payments only after the
    /// ledger state is committed.
    pub fn market_buy_sft(
        &mut self,
        buyer: &String,
        marketplace_id: &String,
        attached: u128,
        dust: u128,
        token_class_id: &String,
        seller_id: &String,
    ) -> (r: Result<(MarketSettlement, AuditRecord), Error>)
        requires
            old(self).wf(),
        ensures
            final(self).wf(),
            match r {
                Err(e) => *final(self) == *old(self) && market_buy_check(
                    *old(self),
                    buyer@,
                    marketplace_id@,
                    attached,
                    token_class_id@,
                    seller_id@,
                ) == Some(e),
                Ok((settlement, rec)) => {
                    &&& market_buy_check(
                        *old(self),
                        buyer@,
                        marketplace_id@,
                        attached,
                        token_class_id@,
                        seller_id@,
                    ) is None
                    &&& settlement.pay_seller == old(self).class_record(
                        token_class_id@,
                    )->0.metadata.price_per_copy
                    &&& settlement.refund_buyer as int == crate::meter::refund_amount(
                        attached - settlement.pay_seller,
                        dust,
                    )
                    &&& forall|a: Seq<char>, cc: Seq<char>|
                        #[trigger] final(self).balance(a, cc) == moved_bal(
                            old(self).balances_v(),
                            Some(seller_id@),
                            buyer@,
                            token_class_id@,
                            1,
                            a,
                            cc,
                        )
                    &&& forall|a: Seq<char>, cc: Seq<char>|
                        #[trigger] final(self).has_balance(a, cc) == moved_has(
                            old(self).balances_v(),
                            Some(seller_id@),
                            buyer@,
                            token_class_id@,
                            1,
                            a,
                            cc,
                        )
                    &&& forall|qo: Seq<char>, qc: Seq<char>, qs: Seq<char>|
                        #[trigger] final(self).allowance(qo, qc, qs) == written_allowance(
                            old(self).approvals_v(),
                            seller_id@,
                            token_class_id@,
                            marketplace_id@,
                            (old(self).allowance(seller_id@, token_class_id@, marketplace_id@)
                                - 1) as u64,
                            qo,
                            qc,
                            qs,
                        )
                    &&& forall|qo: Seq<char>, qc: Seq<char>, qs: Seq<char>|
                        #[trigger] final(self).has_approval(qo, qc, qs) == (if qo == seller_id@
                            && qc == token_class_id@ && qs == marketplace_id@ {
                            old(self).allowance(seller_id@, token_class_id@, marketplace_id@) - 1
                                > 0
                        } else {
                            old(self).has_approval(qo, qc, qs)
                        })
                    &&& forall|c: Seq<char>|
                        #[trigger] sum_class(final(self).balances_v(), c) == sum_class(
                            old(self).balances_v(),
                            c,
                        )
                    &&& final(self).classes == old(self).classes
                    &&& final(self).owner_id == old(self).owner_id
                    &&& forall|x: Seq<char>|
                        #[trigger] holder_known(final(self).holders_v(), x) <==> holder_known(
                            old(self).holders_v(),
                            x,
                        ) || x == buyer@
                    &&& rec@ == (AuditView {
                        kind: EventKind::Transfer,
                        owner_id: seller_id@,
                        counterparty_id: buyer@,
                        token_class_id: token_class_id@,
                        amount: 1,
                        memo: Some("Marketplace purchase"@),
                        authorized_id: Some(marketplace_id@),
                    })
                },
            },
    {
        let ghost pre = *self;
        if *buyer == *seller_id {
            return Err(Error::SelfTradeRejected);
        }

        let idx = find_class(&self.classes, token_class_id);
        proof {
            match idx {
                Some(i) => lemma_record_of_index(pre.classes_v(), i as int),
                None => lemma_record_of_absent(pre.classes_v(), token_class_id@),
            }
        }
        let i = match idx {
            Some(i) => i,
            None => {
                return Err(Error::ClassNotFound);
            },
        };
        let price = self.classes[i].metadata.price_per_copy;
        if attached < price {
            return Err(Error::InsufficientPayment { attached, required: price });
        }

        // The approval comes first among the ledgers: a seller who never
        // approved the marketplace loses nothing, whatever else holds.
        let granted = allowance_amount(&self.approvals, seller_id, token_class_id, marketplace_id);
        proof {
            lemma_appr_positive(pre.approvals_v(), seller_id@, token_class_id@, marketplace_id@);
        }
        if granted == 0 {
            return Err(Error::MarketplaceNotApproved);
        }

        let available = balance_amount(&self.balances, seller_id, token_class_id);
        if available < 1 {
            return Err(Error::InsufficientBalance { requested: 1, available });
        }
        let buyer_held = balance_amount(&self.balances, buyer, token_class_id);
        if buyer_held == u64::MAX {
            return Err(Error::BalanceOverflow);
        }

        // Commit: consume the allowance, then move the copy.  The payments
        // in the settlement are scheduled by the host afterwards.
        consume_approval(&mut self.approvals, seller_id, token_class_id, marketplace_id, 1);
        apply_move(
            &mut self.balances,
            &mut self.holders,
            Some(seller_id),
            buyer,
            token_class_id,
            1,
        );

        proof {
            assert forall|c: Seq<char>| #[trigger]
                sum_class(self.balances_v(), c) == self.supply(c) by {
                assert(sum_class(self.balances_v(), c) == sum_class(pre.balances_v(), c));
            }
        }

        let excess = attached - price;
        let refund_buyer: u128 = if excess > dust {
            excess
        } else {
            0
        };

        Ok(
            (
                MarketSettlement { pay_seller: price, refund_buyer },
                AuditRecord {
                    kind: EventKind::Transfer,
                    owner_id: seller_id.clone(),
                    counterparty_id: buyer.clone(),
                    token_class_id: token_class_id.clone(),
                    amount: 1,
                    memo: Some("Marketplace purchase".to_owned()),
                    authorized_id: Some(marketplace_id.clone()),
                },
            ),
        )
    }
}

/// One row of an account's inventory: a class and how many copies the
/// account holds of it.
pub struct InventoryEntry {
    pub token_class_id: String,
    pub amount: u64,
}

/// The mathematical value of an [`InventoryEntry`].
pub ghost struct InventoryEntryView {
    pub token_class_id: Seq<char>,
    pub amount: u64,
}

impl View for InventoryEntry {
    type V = InventoryEntryView;

    open spec fn view(&self) -> InventoryEntryView {
        InventoryEntryView { token_class_id: self.token_class_id@, amount: self.amount }
    }
}

impl DeepView for InventoryEntry {
    type V = InventoryEntryView;

    open spec fn deep_view(&self) -> InventoryEntryView {
        self.view()
    }
}

/// One row of the approved-seller listing: a seller and the allowance it
/// granted the marketplace.
pub struct ApprovedSeller {
    pub seller_id: String,
    pub amount: u64,
}

/// The mathematical value of an [`ApprovedSeller`].
pub ghost struct ApprovedSellerView {
    pub seller_id: Seq<char>,
    pub amount: u64,
}

impl View for ApprovedSeller {
    type V = ApprovedSellerView;

    open spec fn view(&self) -> ApprovedSellerView {
        ApprovedSellerView { seller_id: self.seller_id@, amount: self.amount }
    }
}

impl DeepView for ApprovedSeller {
    type V = ApprovedSellerView;

    open spec fn deep_view(&self) -> ApprovedSellerView {
        self.view()
    }
}

/// Where a listing page starts: the requested offset, clamped to the end.
pub open spec fn page_start(from_index: Option<u64>, len: int) -> int {
    let f = match from_index {
        Some(v) => v as int,
        None => 0,
    };
    if f <= len {
        f
    } else {
        len
    }
}

/// How many rows a listing page holds: the requested limit, clamped to
/// what remains past the start.
pub open spec fn page_count(limit: Option<u64>, len: int, start: int) -> int {
    let l = match limit {
        Some(v) => v as int,
        None => len - start,
    };
    if l <= len - start {
        l
    } else {
        len - start
    }
}

/// How one registry record appears in the class listing.
pub open spec fn listed_class(r: ClassView) -> crate::meta::TokenClassMetadataView {
    crate::meta::TokenClassMetadataView {
        token_class_id: r.class_id,
        metadata: r.metadata,
        creator_id: r.creator_id,
    }
}

impl Contract {
    /// The total supply of a class; zero when the class is unknown.  Never
    /// fails.
    pub fn sft_total_supply(&self, token_class_id: &String) -> (r: u64)
        requires
            self.wf(),
        ensures
            r as int == self.supply(token_class_id@),
    {
        match find_class(&self.classes, token_class_id) {
            Some(i) => {
                proof {
                    lemma_record_of_index(self.classes_v(), i as int);
                }
                self.classes[i].supply
            },
            None => {
                proof {
                    lemma_record_of_absent(self.classes_v(), token_class_id@);
                }
                0
            },
        }
    }

    /// How many copies of a class an account holds; zero when it holds
    /// none.  Never fails.
    pub fn sft_balance_of(&self, account_id: &String, token_class_id: &String) -> (r: u64)
        requires
            self.wf(),
        ensures
            r as int == self.balance(account_id@, token_class_id@),
    {
        balance_amount(&self.balances, account_id, token_class_id)
    }

    /// The metadata of a class, when it is registered.  Never fails.
    pub fn sft_metadata(&self, token_class_id: &String) -> (r: Option<NFTMetadata>)
        requires
            self.wf(),
        ensures
            match r {
                Some(m) => self.has_class_id(token_class_id@) && m@ == self.class_record(
                    token_class_id@,
                )->0.metadata,
                None => !self.has_class_id(token_class_id@),
            },
    {
        match find_class(&self.classes, token_class_id) {
            Some(i) => {
                proof {
                    lemma_record_of_index(self.classes_v(), i as int);
                }
                Some(self.classes[i].metadata.duplicate())
            },
            None => {
                proof {
                    lemma_record_of_absent(self.classes_v(), token_class_id@);
                }
                None
            },
        }
    }

    /// The allowance `owner_id` granted `approved_account_id` for a class;
    /// zero when none exists.  Never fails.
    pub fn sft_is_approved(
        &self,
        owner_id: &String,
        approved_account_id: &String,
        token_class_id: &String,
    ) -> (r: u64)
        requires
            self.wf(),
        ensures
            r as int == self.allowance(owner_id@, token_class_id@, approved_account_id@),
    {
        allowance_amount(&self.approvals, owner_id, token_class_id, approved_account_id)
    }

    /// Every class an account holds copies of, with the quantities: one row
    /// per held class, each quantity positive, and a row for a class
    /// exactly when the account holds an entry for it.  Never fails; an
    /// unknown account yields an empty listing.
    pub fn sft_inventory_of_owner(&self, account_id: &String) -> (r: Vec<InventoryEntry>)
        requires
            self.wf(),
        ensures
            forall|k: int|
                0 <= k < r.deep_view().len() ==> (#[trigger] r.deep_view()[k]).amount > 0
                    && self.balance(account_id@, r.deep_view()[k].token_class_id) == r.deep_view()[k].amount,
            forall|k1: int, k2: int|
                0 <= k1 < k2 < r.deep_view().len() ==> r.deep_view()[k1].token_class_id
                    != r.deep_view()[k2].token_class_id,
            forall|c: Seq<char>|
                #[trigger] self.has_balance(account_id@, c) <==> exists|k: int|
                    0 <= k < r.deep_view().len() && (#[trigger] r.deep_view()[k]).token_class_id
                        == c,
    {
        let ghost bs = self.balances_v();
        let n = self.balances.len();
        let mut out: Vec<InventoryEntry> = Vec::new();
        let mut i: usize = 0;
        while i < n
            invariant
                self.wf(),
                bs == self.balances_v(),
                n == bs.len(),
                i <= n,
                forall|k: int|
                    0 <= k < out.deep_view().len() ==> exists|j: int|
                        0 <= j < i && bs[j] == (BalView {
                            account: account_id@,
                            class_id: (#[trigger] out.deep_view()[k]).token_class_id,
                            amount: out.deep_view()[k].amount,
                        }),
                forall|j: int|
                    0 <= j < i && (#[trigger] bs[j]).account == account_id@ ==> exists|k: int|
                        0 <= k < out.deep_view().len() && (#[trigger] out.deep_view()[k]).token_class_id
                            == bs[j].class_id,
                forall|k1: int, k2: int|
                    0 <= k1 < k2 < out.deep_view().len() ==> (#[trigger] out.deep_view()[k1]).token_class_id
                        != (#[trigger] out.deep_view()[k2]).token_class_id,
            decreases n - i,
        {
            let ghost ov0 = out.deep_view();
            let matched = self.balances[i].account == *account_id;
            if matched {
                out.push(InventoryEntry {
                    token_class_id: self.balances[i].class_id.clone(),
                    amount: self.balances[i].amount,
                });
            }
            proof {
                let ov = out.deep_view();
                let newv = InventoryEntryView {
                    token_class_id: bs[i as int].class_id,
                    amount: bs[i as int].amount,
                };
                if matched {
                    assert(ov =~= ov0.push(newv));
                } else {
                    assert(ov =~= ov0);
                }
                assert forall|k: int|
                    0 <= k < ov.len() implies exists|j: int|
                        0 <= j < i + 1 && bs[j] == (BalView {
                            account: account_id@,
                            class_id: (#[trigger] ov[k]).token_class_id,
                            amount: ov[k].amount,
                        }) by {
                    if k < ov0.len() {
                        assert(ov[k] == ov0[k]);
                        let j = choose|j: int|
                            0 <= j < i && bs[j] == (BalView {
                                account: account_id@,
                                class_id: ov0[k].token_class_id,
                                amount: ov0[k].amount,
                            });
                        assert(bs[j] == (BalView {
                            account: account_id@,
                            class_id: ov[k].token_class_id,
                            amount: ov[k].amount,
                        }));
                    } else {
                        assert(matched && k == ov0.len());
                        assert(ov[k] == newv);
                        assert(bs[i as int] == (BalView {
                            account: account_id@,
                            class_id: ov[k].token_class_id,
                            amount: ov[k].amount,
                        }));
                    }
                }
                assert forall|j: int|
                    0 <= j < i + 1 && (#[trigger] bs[j]).account == account_id@ implies exists|
                    k: int,
                |
                    0 <= k < ov.len() && (#[trigger] ov[k]).token_class_id == bs[j].class_id by {
                    if j < i {
                        let k = choose|k: int|
                            0 <= k < ov0.len() && (#[trigger] ov0[k]).token_class_id
                                == bs[j].class_id;
                        assert(ov[k] == ov0[k]);
                        assert(ov[k].token_class_id == bs[j].class_id);
                    } else {
                        assert(matched);
                        assert(ov[ov.len() - 1] == newv);
                        assert(ov[ov.len() - 1].token_class_id == bs[i as int].class_id);
                    }
                }
                assert forall|k1: int, k2: int|
                    0 <= k1 < k2 < ov.len() implies (#[trigger] ov[k1]).token_class_id != (
                #[trigger] ov[k2]).token_class_id by {
                    if k2 < ov0.len() {
                        assert(ov[k1] == ov0[k1]);
                        assert(ov[k2] == ov0[k2]);
                    } else {
                        // The new row's class comes from entry `i`; an older
                        // row with the same class would have come from an
                        // earlier entry with the same key, which unique keys
                        // forbid.
                        assert(matched && k2 == ov0.len());
                        assert(ov[k1] == ov0[k1]);
                        assert(ov[k2] == newv);
                        let j = choose|j: int|
                            0 <= j < i && bs[j] == (BalView {
                                account: account_id@,
                                class_id: ov0[k1].token_class_id,
                                amount: ov0[k1].amount,
                            });
                        if ov[k1].token_class_id == newv.token_class_id {
                            assert(bs[j].account == bs[i as int].account && bs[j].class_id
                                == bs[i as int].class_id);
                        }
                    }
                }
            }
            i = i + 1;
        }
        proof {
            let ov = out.deep_view();
            assert forall|k: int|
                0 <= k < ov.len() implies (#[trigger] ov[k]).amount > 0 && self.balance(
                account_id@,
                ov[k].token_class_id,
            ) == ov[k].amount by {
                let j = choose|j: int|
                    0 <= j < n && bs[j] == (BalView {
                        account: account_id@,
                        class_id: ov[k].token_class_id,
                        amount: ov[k].amount,
                    });
                lemma_bal_entry_index(bs, j);
            }
            assert forall|c: Seq<char>| #[trigger]
                self.has_balance(account_id@, c) <==> exists|k: int|
                    0 <= k < ov.len() && (#[trigger] ov[k]).token_class_id == c by {
                crate::balances::lemma_bal_entry_props(bs, account_id@, c);
                if self.has_balance(account_id@, c) {
                    let e = crate::balances::bal_entry(bs, account_id@, c)->0;
                    let j = choose|j: int| 0 <= j < bs.len() && bs[j] == e;
                    let k = choose|k: int|
                        0 <= k < ov.len() && (#[trigger] ov[k]).token_class_id == bs[j].class_id;
                    assert(ov[k].token_class_id == c);
                }
                if exists|k: int| 0 <= k < ov.len() && (#[trigger] ov[k]).token_class_id == c {
                    let k = choose|k: int|
                        0 <= k < ov.len() && (#[trigger] ov[k]).token_class_id == c;
                    let j = choose|j: int|
                        0 <= j < n && bs[j] == (BalView {
                            account: account_id@,
                            class_id: ov[k].token_class_id,
                            amount: ov[k].amount,
                        });
                    lemma_bal_entry_index(bs, j);
                }
            }
        }
        out
    }

    /// One page of the holder enumeration: the accounts that ever received
    /// copies, in the order they first did, from `from_index` (default the
    /// start) and at most `limit` rows (default all).  Never fails.
    pub fn sft_get_owners(&self, from_index: Option<u64>, limit: Option<u64>) -> (r: Vec<String>)
        requires
            self.wf(),
        ensures
            r.deep_view() == self.holders_v().subrange(
                page_start(from_index, self.holders_v().len() as int),
                page_start(from_index, self.holders_v().len() as int) + page_count(
                    limit,
                    self.holders_v().len() as int,
                    page_start(from_index, self.holders_v().len() as int),
                ),
            ),
    {
        let n = self.holders.len();
        let start: usize = match from_index {
            None => 0,
            Some(v) => if v >= n as u64 {
                n
            } else {
                v as usize
            },
        };
        let count: usize = match limit {
            None => n - start,
            Some(v) => if v >= (n - start) as u64 {
                n - start
            } else {
                v as usize
            },
        };
        let mut out: Vec<String> = Vec::new();
        let mut i: usize = 0;
        while i < count
            invariant
                n == self.holders_v().len(),
                start + count <= n,
                i <= count,
                out.deep_view() =~= self.holders_v().subrange(
                    start as int,
                    start as int + i as int,
                ),
            decreases count - i,
        {
            let ghost ov0 = out.deep_view();
            let item = self.holders[start + i].clone();
            proof {
                assert(item@ == self.holders_v()[start as int + i as int]);
            }
            out.push(item);
            proof {
                assert(out.deep_view() =~= ov0.push(item@));
                assert(out.deep_view() =~= self.holders_v().subrange(
                    start as int,
                    start as int + i as int + 1,
                ));
            }
            i = i + 1;
        }
        proof {
            assert(start as int == page_start(from_index, n as int));
            assert(count as int == page_count(limit, n as int, start as int));
        }
        out
    }

    /// One page of the class listing: every registered class with its
    /// metadata and creator, in registration order, from `from_index`
    /// (default the start) and at most `limit` rows (default all).  Never
    /// fails.
    pub fn sft_get_all_metadata(&self, from_index: Option<u64>, limit: Option<u64>) -> (r: Vec<
        TokenClassMetadata,
    >)
        requires
            self.wf(),
        ensures
            r.deep_view() == Seq::new(
                page_count(
                    limit,
                    self.classes_v().len() as int,
                    page_start(from_index, self.classes_v().len() as int),
                ) as nat,
                |k: int|
                    listed_class(
                        self.classes_v()[page_start(from_index, self.classes_v().len() as int) + k],
                    ),
            ),
    {
        let n = self.classes.len();
        let start: usize = match from_index {
            None => 0,
            Some(v) => if v >= n as u64 {
                n
            } else {
                v as usize
            },
        };
        let count: usize = match limit {
            None => n - start,
            Some(v) => if v >= (n - start) as u64 {
                n - start
            } else {
                v as usize
            },
        };
        let mut out: Vec<TokenClassMetadata> = Vec::new();
        let mut i: usize = 0;
        while i < count
            invariant
                n == self.classes_v().len(),
                start + count <= n,
                i <= count,
                out.deep_view() =~= Seq::new(
                    i as nat,
                    |k: int| listed_class(self.classes_v()[start as int + k]),
                ),
            decreases count - i,
        {
            let ghost ov0 = out.deep_view();
            let rec = &self.classes[start + i];
            let item = TokenClassMetadata {
                token_class_id: rec.class_id.clone(),
                metadata: rec.metadata.duplicate(),
                creator_id: rec.creator_id.clone(),
            };
            proof {
                assert(item@ == listed_class(self.classes_v()[start as int + i as int]));
            }
            out.push(item);
            proof {
                assert(out.deep_view() =~= ov0.push(
                    listed_class(self.classes_v()[start as int + i as int]),
                ));
                assert(out.deep_view() =~= Seq::new(
                    (i + 1) as nat,
                    |k: int| listed_class(self.classes_v()[start as int + k]),
                ));
            }
            i = i + 1;
        }
        proof {
            assert(start as int == page_start(from_index, n as int));
            assert(count as int == page_count(limit, n as int, start as int));
            assert(out.deep_view() =~= Seq::new(
                page_count(limit, n as int, page_start(from_index, n as int)) as nat,
                |k: int| listed_class(self.classes_v()[page_start(from_index, n as int) + k]),
            ));
        }
        out
    }

    /// Which of the candidate sellers have granted the marketplace a
    /// positive allowance for a class, with the allowance each granted:
    /// one row per such seller, no duplicates, and a row for a candidate
    /// exactly when its allowance is positive.  Never fails.
    #[verifier::rlimit(60)]
    pub fn get_market_approved_sellers(
        &self,
        token_class_id: &String,
        seller_ids: Vec<String>,
        marketplace_id: &String,
    ) -> (r: Vec<ApprovedSeller>)
        requires
            self.wf(),
        ensures
            forall|k: int|
                0 <= k < r.deep_view().len() ==> (#[trigger] r.deep_view()[k]).amount > 0
                    && self.allowance(
                    r.deep_view()[k].seller_id,
                    token_class_id@,
                    marketplace_id@,
                ) == r.deep_view()[k].amount && (exists|j: int|
                    0 <= j < seller_ids.deep_view().len() && seller_ids.deep_view()[j]
                        == r.deep_view()[k].seller_id),
            forall|k1: int, k2: int|
                0 <= k1 < k2 < r.deep_view().len() ==> r.deep_view()[k1].seller_id
                    != r.deep_view()[k2].seller_id,
            forall|j: int|
                0 <= j < seller_ids.deep_view().len() && self.allowance(
                    #[trigger] seller_ids.deep_view()[j],
                    token_class_id@,
                    marketplace_id@,
                ) > 0 ==> exists|k: int|
                    0 <= k < r.deep_view().len() && (#[trigger] r.deep_view()[k]).seller_id
                        == seller_ids.deep_view()[j],
    {
        let n = seller_ids.len();
        let mut out: Vec<ApprovedSeller> = Vec::new();
        let mut i: usize = 0;
        while i < n
            invariant
                appr_wf(self.approvals_v()),
                n == seller_ids.deep_view().len(),
                i <= n,
                forall|k: int|
                    0 <= k < out.deep_view().len() ==> (#[trigger] out.deep_view()[k]).amount > 0
                        && self.allowance(
                        out.deep_view()[k].seller_id,
                        token_class_id@,
                        marketplace_id@,
                    ) == out.deep_view()[k].amount && (exists|j: int|
                        0 <= j < i && seller_ids.deep_view()[j] == out.deep_view()[k].seller_id),
                forall|k1: int, k2: int|
                    0 <= k1 < k2 < out.deep_view().len() ==> out.deep_view()[k1].seller_id
                        != out.deep_view()[k2].seller_id,
                forall|j: int|
                    0 <= j < i && self.allowance(
                        #[trigger] seller_ids.deep_view()[j],
                        token_class_id@,
                        marketplace_id@,
                    ) > 0 ==> exists|k: int|
                        0 <= k < out.deep_view().len() && (#[trigger] out.deep_view()[k]).seller_id
                            == seller_ids.deep_view()[j],
            decreases n - i,
        {
            let ghost ov0 = out.deep_view();
            let s = &seller_ids[i];
            let amt = allowance_amount(&self.approvals, s, token_class_id, marketplace_id);
            let pushed = amt > 0 && !contains_seller(&out, s);
            if pushed {
                out.push(ApprovedSeller { seller_id: s.clone(), amount: amt });
            }
            proof {
                let ov = out.deep_view();
                let newv = ApprovedSellerView { seller_id: s@, amount: amt };
                if pushed {
                    assert(ov =~= ov0.push(newv));
                } else {
                    assert(ov =~= ov0);
                }
                assert(seller_ids.deep_view()[i as int] == s@);
                assert forall|k: int|
                    0 <= k < ov.len() implies (#[trigger] ov[k]).amount > 0 && self.allowance(
                    ov[k].seller_id,
                    token_class_id@,
                    marketplace_id@,
                ) == ov[k].amount && (exists|j: int|
                    0 <= j < i + 1 && seller_ids.deep_view()[j] == ov[k].seller_id) by {
                    if k < ov0.len() {
                        assert(ov[k] == ov0[k]);
                        let j = choose|j: int|
                            0 <= j < i && seller_ids.deep_view()[j] == ov0[k].seller_id;
                        assert(seller_ids.deep_view()[j] == ov[k].seller_id);
                    } else {
                        assert(ov[k] == newv);
                        assert(seller_ids.deep_view()[i as int] == ov[k].seller_id);
                    }
                }
                assert forall|k1: int, k2: int|
                    0 <= k1 < k2 < ov.len() implies ov[k1].seller_id != ov[k2].seller_id by {
                    if k2 < ov0.len() {
                        assert(ov[k1] == ov0[k1]);
                        assert(ov[k2] == ov0[k2]);
                    } else {
                        assert(ov[k1] == ov0[k1]);
                        assert(ov[k2] == newv);
                    }
                }
                assert forall|j: int|
                    0 <= j < i + 1 && self.allowance(
                        #[trigger] seller_ids.deep_view()[j],
                        token_class_id@,
                        marketplace_id@,
                    ) > 0 implies exists|k: int|
                    0 <= k < ov.len() && (#[trigger] ov[k]).seller_id
                        == seller_ids.deep_view()[j] by {
                    if j < i {
                        let k = choose|k: int|
                            0 <= k < ov0.len() && (#[trigger] ov0[k]).seller_id
                                == seller_ids.deep_view()[j];
                        assert(ov[k] == ov0[k]);
                        assert(ov[k].seller_id == seller_ids.deep_view()[j]);
                    } else {
                        if pushed {
                            assert(ov[ov.len() - 1] == newv);
                            assert(ov[ov.len() - 1].seller_id == s@);
                        } else {
                            // Not pushed though the allowance is positive:
                            // the seller was already listed.
                            let k = choose|k: int|
                                0 <= k < ov0.len() && (#[trigger] ov0[k]).seller_id == s@;
                            assert(ov[k] == ov0[k]);
                            assert(ov[k].seller_id == s@);
                        }
                    }
                }
            }
            i = i + 1;
        }
        out
    }
}

/// Is this seller already listed?
fn contains_seller(v: &Vec<ApprovedSeller>, seller_id: &String) -> (r: bool)
    ensures
        r == exists|k: int|
            0 <= k < v.deep_view().len() && (#[trigger] v.deep_view()[k]).seller_id == seller_id@,
{
    let n = v.len();
    let mut i: usize = 0;
    while i < n
        invariant
            n == v.deep_view().len(),
            i <= n,
            forall|k: int| 0 <= k < i ==> (#[trigger] v.deep_view()[k]).seller_id != seller_id@,
        decreases n - i,
    {
        if v[i].seller_id == *seller_id {
            proof {
                assert(v.deep_view()[i as int].seller_id == seller_id@);
            }
            return true;
        }
        i = i + 1;
    }
    false
}

} // verus!
