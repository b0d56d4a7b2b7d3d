//! Staking, withdrawal and the per-tick breach scanner, with the
//! end-to-end scenarios.

use c2fc::ledger::Ledger;
use c2fc::staking::get_lock;
use c2fc::state::Module;
use c2fc::types::{Error, Event};

const A: u64 = 1;
const B: u64 = 2;
const C: u64 = 3;
const D: u64 = 4;

const S: u64 = 100;
const P: u64 = 200;

#[test]
fn stake_creates_one_lock_then_extends_it() {
    let mut m = Module::new();
    let mut l = Ledger::new();
    m.create_promise_until(B, P, 100, 10, Some(50)).unwrap();
    assert_eq!(m.next_free_lock_identifier(), Some(1));
    let ev = m.stake_to_promise(&mut l, B, P, 50).unwrap();
    assert_eq!(ev, vec![Event::Stake(P, B, 50)]);
    assert_eq!(m.locks_count(), 1);
    assert_eq!(m.lock_for_promise(P), Some(1));
    let lock = get_lock(&l, B, 1).unwrap();
    assert_eq!((lock.id, lock.amount, lock.until), (1, 50, Some(50)));
    // a second stake extends the same lock, it creates no second one
    let ev = m.stake_to_promise(&mut l, B, P, 25).unwrap();
    assert_eq!(ev, vec![Event::Stake(P, B, 25)]);
    assert_eq!(m.locks_count(), 1);
    assert_eq!(m.lock_for_promise(P), Some(1));
    let lock = get_lock(&l, B, 1).unwrap();
    assert_eq!((lock.id, lock.amount, lock.until), (1, 75, Some(50)));
}

#[test]
fn stake_guards() {
    let mut m = Module::new();
    let mut l = Ledger::new();
    m.create_promise_until(B, P, 100, 10, None).unwrap();
    assert_eq!(m.stake_to_promise(&mut l, A, P, 10), Err(Error::NotOwner));
    assert_eq!(m.stake_to_promise(&mut l, B, 999, 10), Err(Error::NotFound));
    // extending past the balance type's range is checked
    m.stake_to_promise(&mut l, B, P, u64::MAX).unwrap();
    assert_eq!(
        m.stake_to_promise(&mut l, B, P, 1),
        Err(Error::ArithmeticOverflow)
    );
}

#[test]
fn stake_after_acceptance_uses_the_accepted_expiry() {
    let mut m = Module::new();
    let mut l = Ledger::new();
    m.create_bucket(A, S).unwrap();
    m.create_promise_until(B, P, 100, 10, Some(40)).unwrap();
    m.accept_promise(5, A, P, S).unwrap();
    // the free record is edited after acceptance, but the lock expiry
    // comes from the accepted copy
    m.edit_promise(B, P, 100, 10).unwrap();
    m.stake_to_promise(&mut l, B, P, 30).unwrap();
    let lock = get_lock(&l, B, 1).unwrap();
    assert_eq!(lock.until, Some(40));
}

#[test]
fn withdraw_enforces_attachment_and_maturity() {
    let mut m = Module::new();
    let mut l = Ledger::new();
    m.create_bucket(A, S).unwrap();
    m.create_promise_until(B, P, 100, 10, Some(20)).unwrap();
    m.stake_to_promise(&mut l, B, P, 50).unwrap();
    // not yet mature
    assert_eq!(
        m.withdraw_staken(&mut l, 10, B, P),
        Err(Error::LockNotMature)
    );
    m.accept_promise(5, A, P, S).unwrap();
    // accepted: the stake backs the promise and cannot leave
    assert_eq!(
        m.withdraw_staken(&mut l, 30, B, P),
        Err(Error::StillAttached)
    );
    assert!(get_lock(&l, B, 1).is_some());
}

#[test]
fn withdraw_frees_exactly_the_locked_amount() {
    let mut m = Module::new();
    let mut l = Ledger::new();
    m.create_promise_until(B, P, 100, 10, Some(20)).unwrap();
    m.stake_to_promise(&mut l, B, P, 50).unwrap();
    let ev = m.withdraw_staken(&mut l, 20, B, P).unwrap();
    assert_eq!(ev, vec![Event::Withdraw(P, B, 50)]);
    assert!(get_lock(&l, B, 1).is_none());
    // the recorded identifier stays; a later stake finds no ledger lock
    assert_eq!(m.lock_for_promise(P), Some(1));
    assert_eq!(
        m.stake_to_promise(&mut l, B, P, 10),
        Err(Error::LockLookupInconsistent)
    );
    // a second withdrawal reports zero freed
    let ev = m.withdraw_staken(&mut l, 21, B, P).unwrap();
    assert_eq!(ev, vec![Event::Withdraw(P, B, 0)]);
}

#[test]
fn withdraw_without_any_stake_is_a_quiet_success() {
    let mut m = Module::new();
    let mut l = Ledger::new();
    m.create_promise_until(B, P, 100, 10, None).unwrap();
    let ev = m.withdraw_staken(&mut l, 5, B, P).unwrap();
    assert_eq!(ev, vec![]);
    assert_eq!(m.withdraw_staken(&mut l, 5, A, P), Err(Error::NotOwner));
    assert_eq!(m.withdraw_staken(&mut l, 5, B, 999), Err(Error::NotFound));
}

#[test]
fn unbounded_lock_never_matures() {
    let mut m = Module::new();
    let mut l = Ledger::new();
    m.create_promise_until(B, P, 100, 10, None).unwrap();
    m.stake_to_promise(&mut l, B, P, 50).unwrap();
    assert_eq!(get_lock(&l, B, 1).unwrap().until, None);
    assert_eq!(
        m.withdraw_staken(&mut l, u64::MAX, B, P),
        Err(Error::LockNotMature)
    );
}

#[test]
fn scanner_flags_only_period_boundaries_with_positive_excess() {
    let mut m = Module::new();
    let mut l = Ledger::new();
    l.set_balance(C, 1000);
    m.create_bucket(A, S).unwrap();
    m.create_promise_until(B, P, 100, 10, None).unwrap();
    m.accept_promise(5, A, P, S).unwrap();
    // one oversized fill leaves `filled` above `value`
    m.fill_bucket(&mut l, C, S, 150).unwrap();
    // a whole period after acceptance: flagged with the excess
    assert_eq!(m.on_finalise(15), vec![Event::PromiseBreached(S, P, 50)]);
    // each scan fires at most once per promise
    assert_eq!(m.on_finalise(15), vec![Event::PromiseBreached(S, P, 50)]);
    // off the boundary: never
    assert_eq!(m.on_finalise(16), vec![]);
    assert_eq!(m.on_finalise(24), vec![]);
    assert_eq!(m.on_finalise(25), vec![Event::PromiseBreached(S, P, 50)]);
    // the scan mutated nothing
    assert_eq!(m.bucket(S).unwrap().promise.unwrap().filled, 150);
}

#[test]
fn scanner_zero_lifetime_is_a_boundary() {
    let mut m = Module::new();
    let mut l = Ledger::new();
    l.set_balance(C, 1000);
    m.create_bucket(A, S).unwrap();
    m.create_promise_until(B, P, 100, 10, None).unwrap();
    m.accept_promise(5, A, P, S).unwrap();
    m.fill_bucket(&mut l, C, S, 101).unwrap();
    assert_eq!(m.on_finalise(5), vec![Event::PromiseBreached(S, P, 1)]);
    // before acceptance, and with an empty registry, nothing fires
    assert_eq!(m.on_finalise(4), vec![]);
    assert_eq!(Module::new().on_finalise(5), vec![]);
}

#[test]
fn scanner_skips_a_zero_period() {
    let mut m = Module::new();
    let mut l = Ledger::new();
    l.set_balance(C, 1000);
    m.create_bucket(A, S).unwrap();
    // a zero period has no boundary, so even an overfilled promise is
    // never flagged
    m.create_promise_until(B, P, 100, 0, None).unwrap();
    m.accept_promise(5, A, P, S).unwrap();
    m.fill_bucket(&mut l, C, S, 150).unwrap();
    assert_eq!(m.on_finalise(15), vec![]);
}

#[test]
fn end_to_end_underpaid_commitment_is_not_flagged() {
    // Mint S by A; mint P by B over value 100 each 10 ticks, unbounded;
    // A accepts at tick 5.  A whole period later the breach comparison
    // asks whether `filled` exceeds `value`; a hundred short, the
    // underpaid promise is not what this sign convention flags.
    let mut m = Module::new();
    m.create_bucket(A, S).unwrap();
    m.create_promise_until(B, P, 100, 10, None).unwrap();
    m.accept_promise(5, A, P, S).unwrap();
    let pr = m.bucket(S).unwrap().promise.unwrap();
    assert_eq!(pr.acception_dt, 5);
    assert_eq!(pr.filled, 0);
    assert_eq!(m.on_finalise(15), vec![]);
}

#[test]
fn end_to_end_bucket_off_sale_cannot_be_bought() {
    let mut m = Module::new();
    let mut l = Ledger::new();
    l.set_balance(D, 1000);
    m.create_bucket(A, S).unwrap();
    m.create_promise_until(B, P, 100, 10, None).unwrap();
    m.accept_promise(5, A, P, S).unwrap();
    // price was never set: the bucket is not for sale
    assert_eq!(m.buy_bucket(&mut l, D, S, 500), Err(Error::InvalidState));
    assert_eq!(m.owner_of(S), Some(A));
    assert_eq!(l.balance_of(D), 1000);
}
