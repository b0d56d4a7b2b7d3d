//! Bucket minting, registry bookkeeping, transfer and purchase flows.

use c2fc::ledger::Ledger;
use c2fc::state::Module;
use c2fc::types::{Error, Event};

const A: u64 = 1;
const B: u64 = 2;
const D: u64 = 4;

#[test]
fn mint_buckets_counts_and_indices() {
    let mut m = Module::new();
    assert_eq!(m.all_buckets_count(), 0);
    assert_eq!(m.nonce(), 0);
    let ev = m.create_bucket(A, 100).unwrap();
    assert_eq!(ev, vec![Event::BucketCreated(A, 100)]);
    let ev = m.create_bucket(A, 101).unwrap();
    assert_eq!(ev, vec![Event::BucketCreated(A, 101)]);
    m.create_bucket(B, 102).unwrap();
    assert_eq!(m.all_buckets_count(), 3);
    assert_eq!(m.nonce(), 3);
    assert_eq!(m.bucket_by_index(0), Some(100));
    assert_eq!(m.bucket_by_index(1), Some(101));
    assert_eq!(m.bucket_by_index(2), Some(102));
    assert_eq!(m.bucket_by_index(3), None);
    assert_eq!(m.owner_of(100), Some(A));
    assert_eq!(m.owner_of(102), Some(B));
    assert_eq!(m.owner_of(999), None);
    assert_eq!(m.owned_bucket_count(A), 2);
    assert_eq!(m.owned_bucket_count(B), 1);
    let b = m.bucket(100).unwrap();
    assert_eq!(b.id, 100);
    assert_eq!(b.price, 0);
    assert!(b.promise.is_none());
}

#[test]
fn mint_duplicate_id_rejected() {
    let mut m = Module::new();
    m.create_bucket(A, 100).unwrap();
    assert_eq!(m.create_bucket(B, 100), Err(Error::AlreadyExists));
    // the failed mint changed nothing, and did not bump the nonce
    assert_eq!(m.all_buckets_count(), 1);
    assert_eq!(m.owner_of(100), Some(A));
    assert_eq!(m.nonce(), 1);
}

#[test]
fn transfer_moves_ownership_exactly_once() {
    let mut m = Module::new();
    m.create_bucket(A, 100).unwrap();
    m.create_bucket(A, 101).unwrap();
    m.create_bucket(A, 102).unwrap();
    let ev = m.transfer(A, B, 101).unwrap();
    assert_eq!(ev, vec![Event::Transferred(A, B, 101)]);
    assert_eq!(m.owner_of(101), Some(B));
    assert_eq!(m.owned_bucket_count(A), 2);
    assert_eq!(m.owned_bucket_count(B), 1);
    assert_eq!(m.bucket_of_owner_by_index(B, 0), Some(101));
    // 101 appears nowhere in A's array
    assert_eq!(m.bucket_of_owner_by_index(A, 0), Some(100));
    assert_eq!(m.bucket_of_owner_by_index(A, 1), Some(102));
    assert_eq!(m.bucket_of_owner_by_index(A, 2), None);
    // the global enumeration keeps registration order
    assert_eq!(m.bucket_by_index(1), Some(101));
}

#[test]
fn swap_remove_relocates_only_the_last() {
    let mut m = Module::new();
    m.create_bucket(A, 100).unwrap();
    m.create_bucket(A, 101).unwrap();
    m.create_bucket(A, 102).unwrap();
    m.create_bucket(A, 103).unwrap();
    m.transfer(A, B, 101).unwrap();
    // slot 1 now holds the formerly-last id; slots 0 and 2 are untouched
    assert_eq!(m.bucket_of_owner_by_index(A, 0), Some(100));
    assert_eq!(m.bucket_of_owner_by_index(A, 1), Some(103));
    assert_eq!(m.bucket_of_owner_by_index(A, 2), Some(102));
    assert_eq!(m.owned_bucket_count(A), 3);
}

#[test]
fn transfer_to_oneself_keeps_the_registry_consistent() {
    let mut m = Module::new();
    m.create_bucket(A, 100).unwrap();
    m.create_bucket(A, 101).unwrap();
    m.transfer(A, A, 100).unwrap();
    assert_eq!(m.owner_of(100), Some(A));
    assert_eq!(m.owned_bucket_count(A), 2);
    // the id moved to the end of its own array, nothing was lost
    assert_eq!(m.bucket_of_owner_by_index(A, 0), Some(101));
    assert_eq!(m.bucket_of_owner_by_index(A, 1), Some(100));
}

#[test]
fn transfer_errors() {
    let mut m = Module::new();
    m.create_bucket(A, 100).unwrap();
    assert_eq!(m.transfer(B, D, 100), Err(Error::NotOwner));
    assert_eq!(m.transfer(A, D, 999), Err(Error::NotFound));
    assert_eq!(m.owner_of(100), Some(A));
}

#[test]
fn set_price_and_not_owner() {
    let mut m = Module::new();
    m.create_bucket(A, 100).unwrap();
    let ev = m.set_price(A, 100, 40).unwrap();
    assert_eq!(ev, vec![Event::PriceSet(A, 100, 40)]);
    assert_eq!(m.bucket(100).unwrap().price, 40);
    assert_eq!(m.set_price(B, 100, 7), Err(Error::NotOwner));
    assert_eq!(m.set_price(A, 999, 7), Err(Error::NotFound));
    assert_eq!(m.bucket(100).unwrap().price, 40);
}

#[test]
fn buy_bucket_pays_moves_and_resets_price() {
    let mut m = Module::new();
    let mut l = Ledger::new();
    l.set_balance(B, 60);
    m.create_bucket(A, 100).unwrap();
    m.set_price(A, 100, 40).unwrap();
    let ev = m.buy_bucket(&mut l, B, 100, 50).unwrap();
    assert_eq!(
        ev,
        vec![Event::Transferred(A, B, 100), Event::Bought(B, A, 100, 40)]
    );
    assert_eq!(m.owner_of(100), Some(B));
    assert_eq!(m.bucket(100).unwrap().price, 0);
    assert_eq!(l.balance_of(A), 40);
    assert_eq!(l.balance_of(B), 20);
}

#[test]
fn buy_bucket_guards() {
    let mut m = Module::new();
    let mut l = Ledger::new();
    l.set_balance(B, 10);
    l.set_balance(D, 1000);
    m.create_bucket(A, 100).unwrap();
    // not for sale
    assert_eq!(m.buy_bucket(&mut l, D, 100, 50), Err(Error::InvalidState));
    m.set_price(A, 100, 40).unwrap();
    // own bucket
    assert_eq!(m.buy_bucket(&mut l, A, 100, 50), Err(Error::InvalidState));
    // ceiling below price
    assert_eq!(m.buy_bucket(&mut l, D, 100, 39), Err(Error::InvalidState));
    // cannot pay
    assert_eq!(
        m.buy_bucket(&mut l, B, 100, 50),
        Err(Error::InsufficientBalance)
    );
    // nothing moved
    assert_eq!(m.owner_of(100), Some(A));
    assert_eq!(l.balance_of(A), 0);
    assert_eq!(l.balance_of(B), 10);
    assert_eq!(m.buy_bucket(&mut l, D, 999, 50), Err(Error::NotFound));
}

#[test]
fn ledger_transfer_unit() {
    let mut l = Ledger::new();
    l.set_balance(A, 30);
    assert_eq!(l.transfer(A, B, 31), Err(Error::InsufficientBalance));
    l.transfer(A, B, 12).unwrap();
    assert_eq!(l.balance_of(A), 18);
    assert_eq!(l.balance_of(B), 12);
    // transfer to oneself keeps the balance
    l.transfer(A, A, 18).unwrap();
    assert_eq!(l.balance_of(A), 18);
    // an unfunded account holds zero and can send zero
    assert_eq!(l.balance_of(D), 0);
    l.transfer(D, B, 0).unwrap();
    assert_eq!(l.balance_of(B), 12);
}
