//! One test per reachable error, each with an input that provokes it and a
//! check that the failed call changed nothing.

use nft_contract::contract::{Contract, GUARD_DEPOSIT};
use nft_contract::errors::Error;
use nft_contract::events::AuditRecord;
use nft_contract::meta::{NFTMetadata, SftMintArgs};

fn meta(price: u128) -> NFTMetadata {
    NFTMetadata {
        title: String::from("t"),
        description: String::from("d"),
        media: String::from("m"),
        media_hash: String::from("h"),
        price_per_copy: price,
        cover_photo: String::from("c"),
    }
}

fn mint_args(class: &str, amount: u64, receiver: &str, metadata: Option<NFTMetadata>) -> SftMintArgs {
    SftMintArgs {
        token_class_id: String::from(class),
        amount,
        receiver_id: String::from(receiver),
        metadata,
    }
}

fn ok(r: Result<AuditRecord, Error>) -> AuditRecord {
    match r {
        Ok(rec) => rec,
        Err(e) => panic!("expected success, got {:?}", e),
    }
}

fn err(r: Result<AuditRecord, Error>) -> Error {
    match r {
        Ok(_) => panic!("expected an error"),
        Err(e) => e,
    }
}

#[test]
fn mint_rejects_empty_class_id_and_zero_amount() {
    let mut c = Contract::new(String::from("owner"));
    let alice = String::from("alice");
    let e = err(c.sft_mint(&alice, mint_args("", 5, "alice", Some(meta(1)))));
    assert_eq!(e, Error::InvalidArgument);
    let e = err(c.sft_mint(&alice, mint_args("album-1", 0, "alice", Some(meta(1)))));
    assert_eq!(e, Error::InvalidArgument);
}

#[test]
fn mint_without_metadata_needs_existing_class() {
    let mut c = Contract::new(String::from("owner"));
    let alice = String::from("alice");
    let e = err(c.sft_mint(&alice, mint_args("album-1", 5, "alice", None)));
    assert_eq!(e, Error::ClassNotFound);
}

#[test]
fn mint_rejects_supply_overflow() {
    let mut c = Contract::new(String::from("owner"));
    let alice = String::from("alice");
    let album = String::from("album-1");
    ok(c.sft_mint(&alice, mint_args("album-1", u64::MAX, "alice", Some(meta(1)))));
    let e = err(c.sft_mint(&alice, mint_args("album-1", 1, "alice", None)));
    assert_eq!(e, Error::SupplyOverflow);
    assert_eq!(c.sft_total_supply(&album), u64::MAX);
}

#[test]
fn transfer_guards() {
    let mut c = Contract::new(String::from("owner"));
    let alice = String::from("alice");
    let bob = String::from("bob");
    let album = String::from("album-1");
    ok(c.sft_mint(&alice, mint_args("album-1", 10, "alice", Some(meta(1)))));

    let e = err(c.sft_transfer(&alice, 0, &bob, &album, 1, None));
    assert_eq!(e, Error::GuardDepositMismatch);
    let e = err(c.sft_transfer(&alice, 2, &bob, &album, 1, None));
    assert_eq!(e, Error::GuardDepositMismatch);
    let e = err(c.sft_transfer(&alice, GUARD_DEPOSIT, &bob, &album, 0, None));
    assert_eq!(e, Error::InvalidArgument);
    let e = err(c.sft_transfer(&alice, GUARD_DEPOSIT, &alice, &album, 1, None));
    assert_eq!(e, Error::SelfTransferRejected);
    let e = err(c.sft_transfer(&alice, GUARD_DEPOSIT, &bob, &album, 11, None));
    assert_eq!(e, Error::InsufficientBalance { requested: 11, available: 10 });
    assert_eq!(c.sft_balance_of(&alice, &album), 10);
    assert_eq!(c.sft_balance_of(&bob, &album), 0);
}

#[test]
fn approve_rejects_self_approval() {
    let mut c = Contract::new(String::from("owner"));
    let alice = String::from("alice");
    let album = String::from("album-1");
    let e = err(c.sft_approve(&alice, &alice, &album, 5));
    assert_eq!(e, Error::SelfApprovalRejected);
}

#[test]
fn revoke_requires_guard_deposit() {
    let mut c = Contract::new(String::from("owner"));
    let alice = String::from("alice");
    let bob = String::from("bob");
    let album = String::from("album-1");
    match c.sft_revoke(&alice, 0, &bob, &album) {
        Err(Error::GuardDepositMismatch) => {},
        _ => panic!("expected a guard mismatch"),
    }
    match c.sft_revoke(&alice, 5, &bob, &album) {
        Err(Error::GuardDepositMismatch) => {},
        _ => panic!("expected a guard mismatch"),
    }
}

#[test]
fn transfer_from_participant_and_amount_guards() {
    let mut c = Contract::new(String::from("owner"));
    let alice = String::from("alice");
    let bob = String::from("bob");
    let carol = String::from("carol");
    let album = String::from("album-1");
    ok(c.sft_mint(&alice, mint_args("album-1", 10, "alice", Some(meta(1)))));
    ok(c.sft_approve(&alice, &bob, &album, 5));

    let e = err(c.sft_transfer_from(&bob, 0, &alice, &carol, &album, 1, None));
    assert_eq!(e, Error::GuardDepositMismatch);
    let e = err(c.sft_transfer_from(&bob, GUARD_DEPOSIT, &alice, &carol, &album, 0, None));
    assert_eq!(e, Error::InvalidArgument);
    // Owner as receiver, spender as receiver, owner as spender: all rejected.
    let e = err(c.sft_transfer_from(&bob, GUARD_DEPOSIT, &alice, &alice, &album, 1, None));
    assert_eq!(e, Error::InvalidParticipants);
    let e = err(c.sft_transfer_from(&bob, GUARD_DEPOSIT, &alice, &bob, &album, 1, None));
    assert_eq!(e, Error::InvalidParticipants);
    let e = err(c.sft_transfer_from(&alice, GUARD_DEPOSIT, &alice, &carol, &album, 1, None));
    assert_eq!(e, Error::InvalidParticipants);
}

#[test]
fn transfer_from_insufficiencies() {
    let mut c = Contract::new(String::from("owner"));
    let alice = String::from("alice");
    let bob = String::from("bob");
    let carol = String::from("carol");
    let album = String::from("album-1");
    ok(c.sft_mint(&alice, mint_args("album-1", 3, "alice", Some(meta(1)))));
    ok(c.sft_approve(&alice, &bob, &album, 5));

    // The allowance is examined before the balance.
    let e = err(c.sft_transfer_from(&bob, GUARD_DEPOSIT, &alice, &carol, &album, 6, None));
    assert_eq!(e, Error::InsufficientApproval { requested: 6, available: 5 });
    // Allowance covers it, the balance does not.
    let e = err(c.sft_transfer_from(&bob, GUARD_DEPOSIT, &alice, &carol, &album, 4, None));
    assert_eq!(e, Error::InsufficientBalance { requested: 4, available: 3 });
    // The failed attempts consumed nothing.
    assert_eq!(c.sft_is_approved(&alice, &bob, &album), 5);
    assert_eq!(c.sft_balance_of(&alice, &album), 3);
    assert_eq!(c.sft_balance_of(&carol, &album), 0);
}

#[test]
fn market_buy_rejections() {
    let mut c = Contract::new(String::from("owner"));
    let alice = String::from("alice");
    let carol = String::from("carol");
    let market = String::from("marketplace");
    let album = String::from("album-1");
    ok(c.sft_mint(&alice, mint_args("album-1", 2, "alice", Some(meta(10)))));

    match c.market_buy_sft(&carol, &market, 10, 0, &carol, &carol) {
        Err(Error::SelfTradeRejected) => {},
        _ => panic!("expected self-trade rejection"),
    }
    match c.market_buy_sft(&carol, &market, 10, 0, &String::from("nope"), &alice) {
        Err(Error::ClassNotFound) => {},
        _ => panic!("expected class-not-found"),
    }
    match c.market_buy_sft(&carol, &market, 9, 0, &album, &alice) {
        Err(Error::InsufficientPayment { attached: 9, required: 10 }) => {},
        _ => panic!("expected insufficient payment"),
    }
    match c.market_buy_sft(&carol, &market, 10, 0, &album, &alice) {
        Err(Error::MarketplaceNotApproved) => {},
        _ => panic!("expected marketplace-not-approved"),
    }
    // Nothing moved in any of the failures.
    assert_eq!(c.sft_balance_of(&alice, &album), 2);
    assert_eq!(c.sft_balance_of(&carol, &album), 0);

    // The seller's own balance is checked once the approval stands.
    ok(c.sft_approve(&alice, &market, &album, 5));
    ok(c.sft_transfer(&alice, GUARD_DEPOSIT, &carol, &album, 2, None));
    match c.market_buy_sft(&carol, &market, 10, 0, &album, &alice) {
        Err(Error::InsufficientBalance { requested: 1, available: 0 }) => {},
        _ => panic!("expected insufficient balance"),
    }
}
