//! Tests of the read-only views (pagination, inventory, approved-seller
//! listing) and of the storage-deposit meter's exact arithmetic.

use nft_contract::contract::{Contract, GUARD_DEPOSIT};
use nft_contract::errors::Error;
use nft_contract::events::AuditRecord;
use nft_contract::meta::{NFTMetadata, SftMintArgs};
use nft_contract::meter::settle_storage_deposit;

fn meta(price: u128) -> NFTMetadata {
    NFTMetadata {
        title: String::from("t"),
        description: String::from("d"),
        media: String::from("m"),
        media_hash: String::from("h"),
        price_per_copy: price,
        cover_photo: String::from("c"),
    }
}

fn mint_args(class: &str, amount: u64, receiver: &str, metadata: Option<NFTMetadata>) -> SftMintArgs {
    SftMintArgs {
        token_class_id: String::from(class),
        amount,
        receiver_id: String::from(receiver),
        metadata,
    }
}

fn ok(r: Result<AuditRecord, Error>) -> AuditRecord {
    match r {
        Ok(rec) => rec,
        Err(e) => panic!("expected success, got {:?}", e),
    }
}

#[test]
fn owners_listing_pages_in_order() {
    let mut c = Contract::new(String::from("owner"));
    let minter = String::from("minter");
    ok(c.sft_mint(&minter, mint_args("cls", 10, "alice", Some(meta(1)))));
    ok(c.sft_mint(&minter, mint_args("cls", 10, "bob", None)));
    ok(c.sft_mint(&minter, mint_args("cls", 10, "carol", None)));
    // A repeat receiver is not listed twice.
    ok(c.sft_mint(&minter, mint_args("cls", 10, "alice", None)));

    assert_eq!(c.sft_get_owners(None, None), vec!["alice", "bob", "carol"]);
    assert_eq!(c.sft_get_owners(Some(1), None), vec!["bob", "carol"]);
    assert_eq!(c.sft_get_owners(Some(1), Some(1)), vec!["bob"]);
    assert_eq!(c.sft_get_owners(Some(5), None), Vec::<String>::new());
    assert_eq!(c.sft_get_owners(None, Some(0)), Vec::<String>::new());
}

#[test]
fn metadata_listing_pages_in_registration_order() {
    let mut c = Contract::new(String::from("owner"));
    let minter = String::from("minter");
    ok(c.sft_mint(&minter, mint_args("a", 1, "alice", Some(meta(1)))));
    ok(c.sft_mint(&minter, mint_args("b", 1, "alice", Some(meta(2)))));
    ok(c.sft_mint(&minter, mint_args("c", 1, "alice", Some(meta(3)))));

    let all = c.sft_get_all_metadata(None, None);
    let ids: Vec<&str> = all.iter().map(|t| t.token_class_id.as_str()).collect();
    assert_eq!(ids, vec!["a", "b", "c"]);
    assert!(all.iter().all(|t| t.creator_id == "minter"));

    let page = c.sft_get_all_metadata(Some(1), Some(1));
    assert_eq!(page.len(), 1);
    assert_eq!(page[0].token_class_id, "b");
    assert_eq!(page[0].metadata.price_per_copy, 2);
}

#[test]
fn single_class_metadata_lookup() {
    let mut c = Contract::new(String::from("owner"));
    let minter = String::from("minter");
    ok(c.sft_mint(&minter, mint_args("a", 1, "alice", Some(meta(9)))));
    let m = c.sft_metadata(&String::from("a")).expect("class exists");
    assert_eq!(m.price_per_copy, 9);
    assert_eq!(m.title, "t");
    assert!(c.sft_metadata(&String::from("b")).is_none());
}

#[test]
fn inventory_lists_each_held_class_once() {
    let mut c = Contract::new(String::from("owner"));
    let minter = String::from("minter");
    let alice = String::from("alice");
    ok(c.sft_mint(&minter, mint_args("a", 5, "alice", Some(meta(1)))));
    ok(c.sft_mint(&minter, mint_args("b", 7, "alice", Some(meta(1)))));
    ok(c.sft_mint(&minter, mint_args("a", 2, "alice", None)));

    let mut inv: Vec<(String, u64)> = c
        .sft_inventory_of_owner(&alice)
        .into_iter()
        .map(|e| (e.token_class_id, e.amount))
        .collect();
    inv.sort();
    assert_eq!(inv, vec![(String::from("a"), 7), (String::from("b"), 7)]);
    assert!(c.sft_inventory_of_owner(&String::from("nobody")).is_empty());
}

#[test]
fn approved_sellers_listing_filters_and_dedupes() {
    let mut c = Contract::new(String::from("owner"));
    let alice = String::from("alice");
    let bob = String::from("bob");
    let carol = String::from("carol");
    let market = String::from("marketplace");
    let album = String::from("album-1");
    ok(c.sft_approve(&alice, &market, &album, 4));
    ok(c.sft_approve(&bob, &market, &album, 0));
    ok(c.sft_approve(&carol, &String::from("someone-else"), &album, 9));

    let candidates = vec![
        String::from("alice"),
        String::from("bob"),
        String::from("carol"),
        String::from("alice"),
    ];
    let sellers = c.get_market_approved_sellers(&album, candidates, &market);
    assert_eq!(sellers.len(), 1);
    assert_eq!(sellers[0].seller_id, "alice");
    assert_eq!(sellers[0].amount, 4);
}

#[test]
fn meter_charges_for_bytes_added() {
    // 50 bytes added at 3 a byte, 200 attached: cost 150, excess 50 paid
    // back.
    assert_eq!(settle_storage_deposit(100, 150, 3, 200, 1), Ok(50));
    // Exact cover: nothing back.
    assert_eq!(settle_storage_deposit(100, 150, 3, 150, 1), Ok(0));
    // Shortfall of one unit.
    assert_eq!(
        settle_storage_deposit(100, 150, 3, 149, 1),
        Err(Error::InsufficientStorageDeposit { attached: 149, required: 150 })
    );
}

#[test]
fn meter_skips_dust_refunds() {
    // The excess equals the dust threshold: kept, not paid back.
    assert_eq!(settle_storage_deposit(0, 10, 1, 11, 1), Ok(0));
    // One past the threshold: paid back in full.
    assert_eq!(settle_storage_deposit(0, 10, 1, 12, 1), Ok(2));
}

#[test]
fn meter_clamps_decreased_usage_to_zero_cost() {
    // Usage went down: zero bytes added, everything above dust refunded.
    assert_eq!(settle_storage_deposit(150, 100, 3, 40, 1), Ok(40));
    assert_eq!(settle_storage_deposit(150, 100, 3, 0, 1), Ok(0));
}

#[test]
fn meter_saturates_unrepresentable_cost() {
    // The true cost exceeds u128: no attachable deposit can cover it.
    assert_eq!(
        settle_storage_deposit(0, u64::MAX, u128::MAX, u128::MAX, 1),
        Err(Error::InsufficientStorageDeposit { attached: u128::MAX, required: u128::MAX })
    );
}
