//! Promise creation, editing, acceptance and filling.

use c2fc::ledger::Ledger;
use c2fc::state::Module;
use c2fc::types::{Error, Event};

const A: u64 = 1;
const B: u64 = 2;
const C: u64 = 3;

const S: u64 = 100;
const P: u64 = 200;

#[test]
fn create_and_edit_promise() {
    let mut m = Module::new();
    let ev = m.create_promise_until(B, P, 100, 10, Some(50)).unwrap();
    assert_eq!(ev, vec![Event::PromiseCreated(B, P)]);
    let fp = m.promise(P).unwrap();
    assert_eq!((fp.id, fp.value, fp.period, fp.until), (P, 100, 10, Some(50)));
    assert_eq!(m.owner_of_promise(P), Some(B));
    assert_eq!(m.free_promises_count(), 1);
    assert_eq!(m.free_promise_by_index(0), Some(P));
    assert_eq!(m.owned_promise_count(B), 1);
    assert_eq!(m.nonce(), 1);
    let ev = m.edit_promise(B, P, 80, 5).unwrap();
    assert_eq!(ev, vec![Event::PromiseChanged(P)]);
    let fp = m.promise(P).unwrap();
    assert_eq!((fp.value, fp.period, fp.until), (80, 5, Some(50)));
    assert_eq!(m.edit_promise(A, P, 1, 1), Err(Error::NotOwner));
    assert_eq!(m.edit_promise(B, 999, 1, 1), Err(Error::NotFound));
}

#[test]
fn create_promise_defaults_to_unbounded() {
    let mut m = Module::new();
    m.create_promise(B, P, 100, 10).unwrap();
    assert_eq!(m.promise(P).unwrap().until, None);
    assert_eq!(m.create_promise(B, P, 1, 1), Err(Error::AlreadyExists));
}

#[test]
fn accept_promise_embeds_a_stamped_copy() {
    let mut m = Module::new();
    m.create_bucket(A, S).unwrap();
    m.create_promise_until(B, P, 100, 10, None).unwrap();
    let ev = m.accept_promise(5, A, P, S).unwrap();
    assert_eq!(ev, vec![Event::PromiseAccepted(P, S)]);
    let pr = m.bucket(S).unwrap().promise.unwrap();
    assert_eq!(pr.id, P);
    assert_eq!(pr.owner, B);
    assert_eq!(pr.value, 100);
    assert_eq!(pr.period, 10);
    assert_eq!(pr.until, None);
    assert_eq!(pr.filled, 0);
    assert_eq!(pr.acception_dt, 5);
    assert_eq!(m.is_promise_accepted(P), Ok(true));
    assert_eq!(m.is_promise_accepted(999), Err(Error::NotFound));
    assert_eq!(m.bucket_by_promise(P), Some(S));
    assert_eq!(m.contributor_of(S), Some(B));
    assert_eq!(m.accepted_promises_count(), 1);
    assert_eq!(m.accepted_promise_by_index(0), Some(P));
    // the stale free record stays behind
    assert_eq!(m.promise(P).unwrap().id, P);
}

#[test]
fn accept_twice_rejected_and_state_unchanged() {
    let mut m = Module::new();
    m.create_bucket(A, S).unwrap();
    m.create_bucket(A, 101).unwrap();
    m.create_promise_until(B, P, 100, 10, None).unwrap();
    m.accept_promise(5, A, P, S).unwrap();
    let nonce = m.nonce();
    // the same promise again, into either bucket
    assert_eq!(m.accept_promise(6, A, P, 101), Err(Error::InvalidState));
    assert_eq!(m.accept_promise(6, A, P, S), Err(Error::InvalidState));
    assert_eq!(m.accepted_promises_count(), 1);
    assert_eq!(m.bucket_by_promise(P), Some(S));
    assert_eq!(m.nonce(), nonce);
    assert!(m.bucket(101).unwrap().promise.is_none());
}

#[test]
fn accept_into_occupied_bucket_rejected() {
    let mut m = Module::new();
    m.create_bucket(A, S).unwrap();
    m.create_promise_until(B, P, 100, 10, None).unwrap();
    m.create_promise_until(B, 201, 30, 5, None).unwrap();
    m.accept_promise(5, A, P, S).unwrap();
    assert_eq!(m.accept_promise(6, A, 201, S), Err(Error::InvalidState));
    assert_eq!(m.is_promise_accepted(201), Ok(false));
}

#[test]
fn self_acceptance_rejected() {
    let mut m = Module::new();
    m.create_bucket(A, S).unwrap();
    m.create_promise_until(A, P, 100, 10, None).unwrap();
    assert_eq!(m.accept_promise(5, A, P, S), Err(Error::InvalidState));
    assert_eq!(m.is_promise_accepted(P), Ok(false));
}

#[test]
fn accept_guards() {
    let mut m = Module::new();
    m.create_bucket(A, S).unwrap();
    m.create_promise_until(B, P, 100, 10, None).unwrap();
    assert_eq!(m.accept_promise(5, B, P, S), Err(Error::NotOwner));
    assert_eq!(m.accept_promise(5, A, 999, S), Err(Error::NotFound));
    assert_eq!(m.accept_promise(5, A, P, 999), Err(Error::NotFound));
}

#[test]
fn fill_accumulates_and_fulfils_exactly_once() {
    let mut m = Module::new();
    let mut l = Ledger::new();
    l.set_balance(C, 1000);
    m.create_bucket(A, S).unwrap();
    m.create_promise_until(B, P, 100, 10, None).unwrap();
    m.accept_promise(5, A, P, S).unwrap();
    let ev = m.fill_bucket(&mut l, C, S, 30).unwrap();
    assert_eq!(ev, vec![Event::PromiseFilled(S, P, 30)]);
    let ev = m.fill_bucket(&mut l, C, S, 30).unwrap();
    assert_eq!(ev, vec![Event::PromiseFilled(S, P, 30)]);
    // the fill that reaches `value` carries the one fulfilment event
    let ev = m.fill_bucket(&mut l, C, S, 40).unwrap();
    assert_eq!(
        ev,
        vec![Event::PromiseFilled(S, P, 40), Event::PromiseFulfilled(S, P)]
    );
    assert_eq!(m.bucket(S).unwrap().promise.unwrap().filled, 100);
    // once `filled` reached `value`, further fills are rejected
    assert_eq!(m.fill_bucket(&mut l, C, S, 1), Err(Error::InvalidState));
    // the money went to the bucket's owner
    assert_eq!(l.balance_of(A), 100);
    assert_eq!(l.balance_of(C), 900);
}

#[test]
fn fill_guards() {
    let mut m = Module::new();
    let mut l = Ledger::new();
    l.set_balance(C, 10);
    m.create_bucket(A, S).unwrap();
    // no promise in the bucket
    assert_eq!(m.fill_bucket(&mut l, C, S, 5), Err(Error::InvalidState));
    m.create_promise_until(B, P, 100, 10, None).unwrap();
    m.accept_promise(5, A, P, S).unwrap();
    // the owner cannot fill their own bucket
    assert_eq!(m.fill_bucket(&mut l, A, S, 5), Err(Error::InvalidState));
    // a poor filler is rejected by the ledger, with nothing changed
    assert_eq!(m.fill_bucket(&mut l, C, S, 11), Err(Error::InsufficientBalance));
    assert_eq!(m.bucket(S).unwrap().promise.unwrap().filled, 0);
    assert_eq!(m.fill_bucket(&mut l, C, 999, 5), Err(Error::NotFound));
}

#[test]
fn fill_zero_value_promise_rejected() {
    let mut m = Module::new();
    let mut l = Ledger::new();
    l.set_balance(C, 10);
    m.create_bucket(A, S).unwrap();
    m.create_promise_until(B, P, 0, 10, None).unwrap();
    m.accept_promise(5, A, P, S).unwrap();
    assert_eq!(m.fill_bucket(&mut l, C, S, 5), Err(Error::InvalidState));
}

#[test]
fn fill_overflow_checked() {
    let mut m = Module::new();
    let mut l = Ledger::new();
    l.set_balance(C, u64::MAX);
    m.create_bucket(A, S).unwrap();
    m.create_promise_until(B, P, 100, 10, None).unwrap();
    m.accept_promise(5, A, P, S).unwrap();
    m.fill_bucket(&mut l, C, S, 60).unwrap();
    assert_eq!(
        m.fill_bucket(&mut l, C, S, u64::MAX - 59),
        Err(Error::ArithmeticOverflow)
    );
    assert_eq!(m.bucket(S).unwrap().promise.unwrap().filled, 60);
}

#[test]
fn fullfill_surfaces_the_reversed_operands() {
    let mut m = Module::new();
    let mut l = Ledger::new();
    l.set_balance(C, 1000);
    m.create_bucket(A, S).unwrap();
    m.create_promise_until(B, P, 100, 10, None).unwrap();
    m.accept_promise(5, A, P, S).unwrap();
    // underpaid: `filled - value` underflows and is surfaced, not wrapped
    assert_eq!(m.fullfill_bucket(&mut l, C, S), Err(Error::ArithmeticUnderflow));
    m.fill_bucket(&mut l, C, S, 100).unwrap();
    // at `value`, the computed deposit is zero but the fill itself rejects
    assert_eq!(m.fullfill_bucket(&mut l, C, S), Err(Error::InvalidState));
    assert_eq!(m.fullfill_bucket(&mut l, C, 999), Err(Error::NotFound));
    let mut m2 = Module::new();
    m2.create_bucket(A, S).unwrap();
    assert_eq!(m2.fullfill_bucket(&mut l, C, S), Err(Error::InvalidState));
}

#[test]
fn editing_a_stale_free_record_leaves_the_accepted_copy() {
    let mut m = Module::new();
    m.create_bucket(A, S).unwrap();
    m.create_promise_until(B, P, 100, 10, None).unwrap();
    m.accept_promise(5, A, P, S).unwrap();
    // the edit path has no acceptance guard: the free record changes,
    // the copy embedded in the bucket does not
    m.edit_promise(B, P, 7, 3).unwrap();
    assert_eq!(m.promise(P).unwrap().value, 7);
    let pr = m.bucket(S).unwrap().promise.unwrap();
    assert_eq!((pr.value, pr.period), (100, 10));
}
