//! Collateral staking: one ledger lock per promise, created lazily on the
//! first stake and extended by later ones, withdrawable once the promise is
//! unaccepted and the lock has matured.

use vstd::prelude::*;
use crate::types::{AccountId, Balance, EntityId, Error, Event, LockIdentifier, Tick};
use crate::ledger::{self, BalanceLock, Ledger, LedgerV};
use crate::state::{Module, ModuleV};

verus! {

/// A lock matures at its expiry tick; an unbounded lock never does.
pub open spec fn lock_matured(until: Option<Tick>, now: Tick) -> bool {
    match until {
        Some(u) => u <= now,
        None => false,
    }
}

/// The lock expiry a stake asks of the ledger: the accepted copy's `until`
/// for an accepted promise, the free record's otherwise; `None` asks for an
/// unbounded lock.
pub open spec fn stake_until(s: ModuleV, promise_id: EntityId) -> Result<Option<Tick>, Error> {
    if s.is_accepted(promise_id) {
        match s.buckets[s.accepted_bucket[promise_id]].promise {
            Some(pr) => Ok(pr.until),
            None => Err(Error::InvalidState),
        }
    } else {
        Ok(s.promises[promise_id].until)
    }
}

/// What a stake does.  Without a recorded lock: a fresh identifier comes
/// from the counter, the ledger locks `amount`, and the identifier is
/// recorded for the promise.  With one: the same lock is looked up on the
/// ledger — failing if the ledger does not report exactly one entry under
/// it; the ledger's own invariant excludes a duplicate, so the failure
/// means the lock is gone, as after a withdrawal — and extended to the
/// checked sum of the held and the new amount.  The recorded identifier
/// never changes, so a promise keeps one lock through its life.
pub open spec fn stake_to_promise_tr(
    s: ModuleV,
    l: LedgerV,
    sender: AccountId,
    promise_id: EntityId,
    amount: Balance,
) -> Result<(ModuleV, LedgerV, Seq<Event>), Error> {
    if !s.has_promise(promise_id) {
        Err(Error::NotFound)
    } else if s.promise_owner(promise_id) != sender {
        Err(Error::NotOwner)
    } else {
        match stake_until(s, promise_id) {
            Err(e) => Err(e),
            Ok(until) => {
                if s.lock_for_promise.dom().contains(promise_id) {
                    let lock_id = s.lock_for_promise[promise_id];
                    if !l.has_lock(sender, lock_id) {
                        Err(Error::LockLookupInconsistent)
                    } else {
                        let lock = l.lock_of(sender, lock_id);
                        if lock.amount + amount > u64::MAX {
                            Err(Error::ArithmeticOverflow)
                        } else {
                            Ok(
                                (
                                    s,
                                    ledger::set_lock_tr(
                                        l,
                                        lock_id,
                                        sender,
                                        (lock.amount + amount) as u64,
                                        until,
                                    ),
                                    seq![Event::Stake(promise_id, sender, amount)],
                                ),
                            )
                        }
                    }
                } else {
                    if s.locks_count == u64::MAX {
                        Err(Error::ArithmeticOverflow)
                    } else {
                        let lock_id = (s.locks_count + 1) as u64;
                        Ok(
                            (
                                ModuleV {
                                    locks_count: lock_id,
                                    lock_for_promise: s.lock_for_promise.insert(
                                        promise_id,
                                        lock_id,
                                    ),
                                    ..s
                                },
                                ledger::set_lock_tr(l, lock_id, sender, amount, until),
                                seq![Event::Stake(promise_id, sender, amount)],
                            ),
                        )
                    }
                }
            },
        }
    }
}

/// What a withdrawal does.  Without a recorded lock it succeeds with no
/// effect and no event.  With one, and the lock on the ledger: it fails
/// while the promise is accepted or the lock has not matured, and
/// otherwise removes the lock, freeing its full amount.  A recorded lock
/// the ledger no longer reports frees zero.  The recorded identifier stays
/// either way.
pub open spec fn withdraw_staken_tr(
    s: ModuleV,
    l: LedgerV,
    now: Tick,
    sender: AccountId,
    promise_id: EntityId,
) -> Result<(ModuleV, LedgerV, Seq<Event>), Error> {
    if !s.has_promise(promise_id) {
        Err(Error::NotFound)
    } else if s.promise_owner(promise_id) != sender {
        Err(Error::NotOwner)
    } else if !s.lock_for_promise.dom().contains(promise_id) {
        Ok((s, l, Seq::empty()))
    } else {
        let lock_id = s.lock_for_promise[promise_id];
        if l.has_lock(sender, lock_id) {
            let lock = l.lock_of(sender, lock_id);
            if s.is_accepted(promise_id) {
                Err(Error::StillAttached)
            } else if !lock_matured(lock.until, now) {
                Err(Error::LockNotMature)
            } else {
                Ok(
                    (
                        s,
                        ledger::remove_lock_tr(l, lock_id, sender),
                        seq![Event::Withdraw(promise_id, sender, lock.amount)],
                    ),
                )
            }
        } else {
            Ok(
                (
                    s,
                    ledger::remove_lock_tr(l, lock_id, sender),
                    seq![Event::Withdraw(promise_id, sender, 0)],
                ),
            )
        }
    }
}

/// The lock `who` holds on the ledger under `lock_id`, if any.
pub fn get_lock(ledger: &Ledger, who: AccountId, lock_id: LockIdentifier) -> (r: Option<
    BalanceLock,
>)
    requires
        ledger@.wf(),
    ensures
        r == if ledger@.has_lock(who, lock_id) {
            Some(ledger@.lock_of(who, lock_id))
        } else {
            None::<BalanceLock>
        },
{
    ledger.find_lock(who, lock_id)
}

impl Module {
    /// The identifier the next fresh lock would get: the counter plus one.
    pub fn next_free_lock_identifier(&self) -> (r: Option<LockIdentifier>)
        ensures
            r == if self@.locks_count < u64::MAX {
                Some((self@.locks_count + 1) as u64)
            } else {
                None::<LockIdentifier>
            },
    {
        if self.locks_count < u64::MAX {
            Some(self.locks_count + 1)
        } else {
            None
        }
    }

    /// Stakes `amount` of the promise owner's balance behind the promise;
    /// see [`stake_to_promise_tr`].
    pub fn stake_to_promise(
        &mut self,
        ledger: &mut Ledger,
        sender: AccountId,
        promise_id: EntityId,
        amount: Balance,
    ) -> (r: Result<Vec<Event>, Error>)
        requires
            old(self)@.wf(),
            old(ledger)@.wf(),
        ensures
            final(self)@.wf(),
            final(ledger)@.wf(),
            final(ledger)@.balances == old(ledger)@.balances,
            match r {
                Ok(ev) => stake_to_promise_tr(
                    old(self)@,
                    old(ledger)@,
                    sender,
                    promise_id,
                    amount,
                ) == Ok::<(ModuleV, LedgerV, Seq<Event>), Error>(
                    (final(self)@, final(ledger)@, ev@),
                ),
                Err(e) => stake_to_promise_tr(
                    old(self)@,
                    old(ledger)@,
                    sender,
                    promise_id,
                    amount,
                ) == Err::<(ModuleV, LedgerV, Seq<Event>), Error>(e) && final(self)@ == old(self)@
                    && final(ledger)@ == old(ledger)@,
            },
    {
        let ghost pre = self@;
        if !self.promises.contains_key(&promise_id) {
            return Err(Error::NotFound);
        }
        let owner = self.promise_reg.owner_of(promise_id).unwrap();
        if owner != sender {
            return Err(Error::NotOwner);
        }
        let until = match self.bucket_by_promise(promise_id) {
            Some(bucket_id) => {
                let bucket = self.bucket(bucket_id).unwrap();
                match bucket.promise {
                    Some(pr) => pr.until,
                    None => {
                        return Err(Error::InvalidState);
                    },
                }
            },
            None => self.promise(promise_id).unwrap().until,
        };
        match self.lock_for_promise(promise_id) {
            Some(lock_id) => {
                let lock = match ledger.find_lock(sender, lock_id) {
                    Some(lock) => lock,
                    None => {
                        return Err(Error::LockLookupInconsistent);
                    },
                };
                if amount > u64::MAX - lock.amount {
                    return Err(Error::ArithmeticOverflow);
                }
                ledger.extend_lock(lock_id, sender, lock.amount + amount, until);
            },
            None => {
                let lock_id = match self.next_free_lock_identifier() {
                    Some(lock_id) => lock_id,
                    None => {
                        return Err(Error::ArithmeticOverflow);
                    },
                };
                ledger.set_lock(lock_id, sender, amount, until);
                self.lock_for_promise.insert(promise_id, lock_id);
                self.locks_count = lock_id;
                proof {
                    let (s1, l1, e1) = stake_to_promise_tr(
                        pre,
                        old(ledger)@,
                        sender,
                        promise_id,
                        amount,
                    )->Ok_0;
                    assert(self@ =~~= s1);
                    assert forall|p1: EntityId, p2: EntityId|
                        self@.lock_for_promise.dom().contains(p1)
                            && self@.lock_for_promise.dom().contains(p2) && p1 != p2 implies
                    #[trigger] self@.lock_for_promise[p1] != #[trigger] self@.lock_for_promise[p2]
                        by {
                        if p1 != promise_id && p2 != promise_id {
                            assert(pre.lock_for_promise[p1] != pre.lock_for_promise[p2]);
                        }
                    }
                    assert(self@.wf());
                }
            },
        }
        let mut ev: Vec<Event> = Vec::new();
        ev.push(Event::Stake(promise_id, sender, amount));
        proof {
            let (s1, l1, e1) = stake_to_promise_tr(pre, old(ledger)@, sender, promise_id, amount)
                ->Ok_0;
            assert(self@ =~~= s1);
            assert(ev@ =~= e1);
        }
        Ok(ev)
    }

    /// Withdraws the stake behind an unaccepted promise once its lock has
    /// matured; see [`withdraw_staken_tr`].
    pub fn withdraw_staken(
        &mut self,
        ledger: &mut Ledger,
        now: Tick,
        sender: AccountId,
        promise_id: EntityId,
    ) -> (r: Result<Vec<Event>, Error>)
        requires
            old(self)@.wf(),
            old(ledger)@.wf(),
        ensures
            final(self)@.wf(),
            final(ledger)@.wf(),
            final(self)@ == old(self)@,
            final(ledger)@.balances == old(ledger)@.balances,
            match r {
                Ok(ev) => withdraw_staken_tr(old(self)@, old(ledger)@, now, sender, promise_id)
                    == Ok::<(ModuleV, LedgerV, Seq<Event>), Error>(
                    (final(self)@, final(ledger)@, ev@),
                ),
                Err(e) => withdraw_staken_tr(old(self)@, old(ledger)@, now, sender, promise_id)
                    == Err::<(ModuleV, LedgerV, Seq<Event>), Error>(e) && final(ledger)@ == old(
                    ledger,
                )@,
            },
    {
        if !self.promises.contains_key(&promise_id) {
            return Err(Error::NotFound);
        }
        let owner = self.promise_reg.owner_of(promise_id).unwrap();
        if owner != sender {
            return Err(Error::NotOwner);
        }
        let lock_id = match self.lock_for_promise(promise_id) {
            Some(lock_id) => lock_id,
            None => {
                return Ok(Vec::new());
            },
        };
        let free = match ledger.find_lock(sender, lock_id) {
            Some(lock) => {
                if self.accepted_bucket.contains_key(&promise_id) {
                    return Err(Error::StillAttached);
                }
                let matured = match lock.until {
                    Some(u) => u <= now,
                    None => false,
                };
                if !matured {
                    return Err(Error::LockNotMature);
                }
                lock.amount
            },
            None => 0,
        };
        ledger.remove_lock(lock_id, sender);
        let mut ev: Vec<Event> = Vec::new();
        ev.push(Event::Withdraw(promise_id, sender, free));
        proof {
            let (s1, l1, e1) = withdraw_staken_tr(
                old(self)@,
                old(ledger)@,
                now,
                sender,
                promise_id,
            )->Ok_0;
            assert(self@ =~~= s1);
            assert(ev@ =~= e1);
        }
        Ok(ev)
    }
}

} // verus!
