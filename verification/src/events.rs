//! Audit records: what a successful mutating call reports for logging.
//!
//! The ledger itself performs no I/O.  Each mutating operation returns a
//! structured record of what happened; the surrounding host code serializes
//! and emits it.  The `authorized_id` field is populated only when an agent
//! other than the owner drove the movement — a delegated transfer or a
//! marketplace purchase.

use vstd::prelude::*;

verus! {

/// What kind of mutation a record describes.
#[derive(Clone, Copy, Debug, PartialEq, Eq, Structural)]
pub enum EventKind {
    Mint,
    Transfer,
    Approve,
    Revoke,
}

/// One audit record, emitted after a successful mutating call.
pub struct AuditRecord {
    pub kind: EventKind,
    pub owner_id: String,
    pub counterparty_id: String,
    pub token_class_id: String,
    pub amount: u64,
    pub memo: Option<String>,
    pub authorized_id: Option<String>,
}

/// The mathematical value of an [`AuditRecord`].
pub ghost struct AuditView {
    pub kind: EventKind,
    pub owner_id: Seq<char>,
    pub counterparty_id: Seq<char>,
    pub token_class_id: Seq<char>,
    pub amount: u64,
    pub memo: Option<Seq<char>>,
    pub authorized_id: Option<Seq<char>>,
}

impl View for AuditRecord {
    type V = AuditView;

    open spec fn view(&self) -> AuditView {
        AuditView {
            kind: self.kind,
            owner_id: self.owner_id@,
            counterparty_id: self.counterparty_id@,
            token_class_id: self.token_class_id@,
            amount: self.amount,
            memo: self.memo.deep_view(),
            authorized_id: self.authorized_id.deep_view(),
        }
    }
}

impl DeepView for AuditRecord {
    type V = AuditView;

    open spec fn deep_view(&self) -> AuditView {
        self.view()
    }
}

/// What a marketplace purchase owes in payments once the ledger has
/// committed: the price to forward to the seller, and the excess to send
/// back to the buyer (zero when it was dust).  The host schedules both
/// only after the state change is final.
#[derive(Clone, Copy, Debug, PartialEq, Eq, Structural)]
pub struct MarketSettlement {
    pub pay_seller: u128,
    pub refund_buyer: u128,
}

} // verus!
