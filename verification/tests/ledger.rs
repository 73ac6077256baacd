//! Scenario tests for the ledger core: minting, transfers, approvals, and
//! marketplace settlement, with the bookkeeping each one promises.

use nft_contract::contract::{Contract, GUARD_DEPOSIT};
use nft_contract::errors::Error;
use nft_contract::events::{AuditRecord, EventKind};
use nft_contract::meta::{NFTMetadata, SftMintArgs};

fn meta(price: u128) -> NFTMetadata {
    NFTMetadata {
        title: String::from("City Song"),
        description: String::from("A song about a city"),
        media: String::from("https://example.test/song.mp3"),
        media_hash: String::from("abc123"),
        price_per_copy: price,
        cover_photo: String::from("https://example.test/cover.png"),
    }
}

fn mint_args(class: &str, amount: u64, receiver: &str, metadata: Option<NFTMetadata>) -> SftMintArgs {
    SftMintArgs {
        token_class_id: String::from(class),
        amount,
        receiver_id: String::from(receiver),
        metadata,
    }
}

fn ok(r: Result<AuditRecord, Error>) -> AuditRecord {
    match r {
        Ok(rec) => rec,
        Err(e) => panic!("expected success, got {:?}", e),
    }
}

fn err(r: Result<AuditRecord, Error>) -> Error {
    match r {
        Ok(_) => panic!("expected an error"),
        Err(e) => e,
    }
}

#[test]
fn mint_new_class_records_everything() {
    let mut c = Contract::new(String::from("owner"));
    let alice = String::from("alice");
    let album = String::from("album-1");
    let rec = ok(c.sft_mint(&alice, mint_args("album-1", 100, "alice", Some(meta(7)))));

    assert_eq!(c.sft_total_supply(&album), 100);
    assert_eq!(c.sft_balance_of(&alice, &album), 100);
    let listing = c.sft_get_all_metadata(None, None);
    assert_eq!(listing.len(), 1);
    assert_eq!(listing[0].token_class_id, "album-1");
    assert_eq!(listing[0].creator_id, "alice");
    assert_eq!(listing[0].metadata.title, "City Song");
    assert_eq!(listing[0].metadata.price_per_copy, 7);

    assert!(matches!(rec.kind, EventKind::Mint));
    assert_eq!(rec.owner_id, "alice");
    assert_eq!(rec.counterparty_id, "alice");
    assert_eq!(rec.token_class_id, "album-1");
    assert_eq!(rec.amount, 100);
}

#[test]
fn mint_existing_class_grows_supply() {
    let mut c = Contract::new(String::from("owner"));
    let alice = String::from("alice");
    let bob = String::from("bob");
    let album = String::from("album-1");
    ok(c.sft_mint(&alice, mint_args("album-1", 100, "alice", Some(meta(7)))));
    ok(c.sft_mint(&bob, mint_args("album-1", 50, "bob", None)));

    assert_eq!(c.sft_total_supply(&album), 150);
    assert_eq!(c.sft_balance_of(&bob, &album), 50);

    // Minting again with metadata for the same class must fail and change
    // nothing.
    let e = err(c.sft_mint(&alice, mint_args("album-1", 50, "alice", Some(meta(7)))));
    assert_eq!(e, Error::ClassAlreadyExists);
    assert_eq!(c.sft_total_supply(&album), 150);
    assert_eq!(c.sft_balance_of(&alice, &album), 100);
    assert_eq!(c.sft_balance_of(&bob, &album), 50);
}

#[test]
fn market_buy_settles_one_copy() {
    let mut c = Contract::new(String::from("owner"));
    let alice = String::from("alice");
    let carol = String::from("carol");
    let market = String::from("marketplace");
    let album = String::from("album-1");
    ok(c.sft_mint(&alice, mint_args("album-1", 100, "alice", Some(meta(10)))));
    ok(c.sft_approve(&alice, &market, &album, 10));

    let (settlement, rec) = c
        .market_buy_sft(&carol, &market, 25, 0, &album, &alice)
        .unwrap_or_else(|e| panic!("buy failed: {:?}", e));

    assert_eq!(c.sft_is_approved(&alice, &market, &album), 9);
    assert_eq!(c.sft_balance_of(&alice, &album), 99);
    assert_eq!(c.sft_balance_of(&carol, &album), 1);
    assert_eq!(settlement.pay_seller, 10);
    assert_eq!(settlement.refund_buyer, 15);

    assert!(matches!(rec.kind, EventKind::Transfer));
    assert_eq!(rec.owner_id, "alice");
    assert_eq!(rec.counterparty_id, "carol");
    assert_eq!(rec.amount, 1);
    assert_eq!(rec.memo.as_deref(), Some("Marketplace purchase"));
    assert_eq!(rec.authorized_id.as_deref(), Some("marketplace"));
}

#[test]
fn transfer_of_whole_balance_removes_entry() {
    let mut c = Contract::new(String::from("owner"));
    let alice = String::from("alice");
    let dave = String::from("dave");
    let album = String::from("album-1");
    ok(c.sft_mint(&alice, mint_args("album-1", 100, "alice", Some(meta(7)))));

    let rec = ok(c.sft_transfer(&alice, GUARD_DEPOSIT, &dave, &album, 100, None));
    assert_eq!(rec.owner_id, "alice");
    assert_eq!(rec.counterparty_id, "dave");
    assert_eq!(rec.amount, 100);
    assert!(rec.authorized_id.is_none());

    assert_eq!(c.sft_balance_of(&alice, &album), 0);
    assert_eq!(c.sft_balance_of(&dave, &album), 100);
    // The entry is removed entirely, not kept at zero.
    assert!(c.sft_inventory_of_owner(&alice).is_empty());

    // A further transfer by alice fails and leaves all balances unchanged.
    let e = err(c.sft_transfer(&alice, GUARD_DEPOSIT, &dave, &album, 1, None));
    assert_eq!(e, Error::InsufficientBalance { requested: 1, available: 0 });
    assert_eq!(c.sft_balance_of(&alice, &album), 0);
    assert_eq!(c.sft_balance_of(&dave, &album), 100);
}

#[test]
fn transfer_from_without_approval_changes_nothing() {
    let mut c = Contract::new(String::from("owner"));
    let alice = String::from("alice");
    let bob = String::from("bob");
    let eve = String::from("eve");
    let album = String::from("album-1");
    ok(c.sft_mint(&alice, mint_args("album-1", 100, "alice", Some(meta(7)))));

    let e = err(c.sft_transfer_from(&eve, GUARD_DEPOSIT, &alice, &bob, &album, 5, None));
    assert_eq!(e, Error::ApprovalNotFound);
    assert_eq!(c.sft_balance_of(&alice, &album), 100);
    assert_eq!(c.sft_balance_of(&bob, &album), 0);
}

#[test]
fn transfer_from_consumes_allowance() {
    let mut c = Contract::new(String::from("owner"));
    let alice = String::from("alice");
    let bob = String::from("bob");
    let carol = String::from("carol");
    let album = String::from("album-1");
    ok(c.sft_mint(&alice, mint_args("album-1", 100, "alice", Some(meta(7)))));
    ok(c.sft_approve(&alice, &bob, &album, 30));

    let rec = ok(c.sft_transfer_from(&bob, GUARD_DEPOSIT, &alice, &carol, &album, 30, None));
    assert_eq!(rec.owner_id, "alice");
    assert_eq!(rec.counterparty_id, "carol");
    assert_eq!(rec.authorized_id.as_deref(), Some("bob"));

    assert_eq!(c.sft_balance_of(&alice, &album), 70);
    assert_eq!(c.sft_balance_of(&carol, &album), 30);
    // Spent to zero: the allowance entry is gone, so a further delegated
    // transfer reports a missing approval, not an insufficient one.
    assert_eq!(c.sft_is_approved(&alice, &bob, &album), 0);
    let e = err(c.sft_transfer_from(&bob, GUARD_DEPOSIT, &alice, &carol, &album, 1, None));
    assert_eq!(e, Error::ApprovalNotFound);
}

#[test]
fn approve_overwrites_rather_than_adds() {
    let mut c = Contract::new(String::from("owner"));
    let alice = String::from("alice");
    let bob = String::from("bob");
    let album = String::from("album-1");
    ok(c.sft_approve(&alice, &bob, &album, 10));
    ok(c.sft_approve(&alice, &bob, &album, 7));
    assert_eq!(c.sft_is_approved(&alice, &bob, &album), 7);

    // Approving zero is equivalent to ensuring no entry exists.
    ok(c.sft_approve(&alice, &bob, &album, 0));
    assert_eq!(c.sft_is_approved(&alice, &bob, &album), 0);
    let sellers =
        c.get_market_approved_sellers(&album, vec![String::from("alice")], &String::from("bob"));
    assert!(sellers.is_empty());
}

#[test]
fn revoke_missing_approval_is_silent_no_op() {
    let mut c = Contract::new(String::from("owner"));
    let alice = String::from("alice");
    let bob = String::from("bob");
    let album = String::from("album-1");

    // No approval exists: success, no audit record, nothing changed.
    let r = c.sft_revoke(&alice, GUARD_DEPOSIT, &bob, &album);
    assert!(matches!(r, Ok(None)));

    // With an approval in place, revoking removes it and reports a record.
    ok(c.sft_approve(&alice, &bob, &album, 5));
    let r = c.sft_revoke(&alice, GUARD_DEPOSIT, &bob, &album);
    match r {
        Ok(Some(rec)) => {
            assert!(matches!(rec.kind, EventKind::Revoke));
            assert_eq!(rec.owner_id, "alice");
            assert_eq!(rec.counterparty_id, "bob");
        },
        _ => panic!("expected a revoke record"),
    }
    assert_eq!(c.sft_is_approved(&alice, &bob, &album), 0);
}

#[test]
fn conservation_holds_across_operations() {
    let mut c = Contract::new(String::from("owner"));
    let alice = String::from("alice");
    let bob = String::from("bob");
    let carol = String::from("carol");
    let album = String::from("album-1");
    let single = String::from("single-1");
    ok(c.sft_mint(&alice, mint_args("album-1", 100, "alice", Some(meta(7)))));
    ok(c.sft_mint(&alice, mint_args("single-1", 40, "bob", Some(meta(3)))));
    ok(c.sft_mint(&bob, mint_args("album-1", 50, "bob", None)));
    ok(c.sft_transfer(&alice, GUARD_DEPOSIT, &carol, &album, 30, None));
    ok(c.sft_approve(&bob, &alice, &album, 20));
    ok(c.sft_transfer_from(&alice, GUARD_DEPOSIT, &bob, &carol, &album, 20, None));

    // The sum over every holder equals the supply, class by class.
    let holders = [&alice, &bob, &carol];
    let album_sum: u64 = holders.iter().map(|h| c.sft_balance_of(h, &album)).sum();
    let single_sum: u64 = holders.iter().map(|h| c.sft_balance_of(h, &single)).sum();
    assert_eq!(album_sum, c.sft_total_supply(&album));
    assert_eq!(single_sum, c.sft_total_supply(&single));
    assert_eq!(c.sft_total_supply(&album), 150);
    assert_eq!(c.sft_total_supply(&single), 40);

    // Only mint changed the sums; every inventory row is positive.
    for h in holders {
        for row in c.sft_inventory_of_owner(h) {
            assert!(row.amount > 0);
        }
    }
}

#[test]
fn new_ledger_is_empty() {
    let c = Contract::new(String::from("owner"));
    assert_eq!(c.sft_total_supply(&String::from("anything")), 0);
    assert_eq!(
        c.sft_balance_of(&String::from("alice"), &String::from("anything")),
        0
    );
    assert!(c.sft_metadata(&String::from("anything")).is_none());
    assert!(c.sft_get_owners(None, None).is_empty());
    assert!(c.sft_get_all_metadata(None, None).is_empty());
}
