//! The balance ledger, at exactly the interface the core consumes: account
//! balances with an unconditional atomic transfer, and named holds
//! ("locks") on an account's balance, at most one per identifier per
//! account.

use vstd::prelude::*;
use std::collections::HashMap;
use crate::types::{AccountId, Balance, Error, LockIdentifier, Tick};

verus! {

broadcast use vstd::std_specs::hash::group_hash_axioms;

/// One hold on an account's balance.  `until == None` never expires.
#[derive(Clone, Copy, PartialEq, Eq, Debug)]
pub struct BalanceLock {
    pub id: LockIdentifier,
    pub amount: Balance,
    pub until: Option<Tick>,
}

/// Ghost model of the ledger.
#[verifier::ext_equal]
pub ghost struct LedgerV {
    pub balances: Map<AccountId, Balance>,
    pub locks: Map<AccountId, Seq<BalanceLock>>,
}

impl LedgerV {
    /// Accounts never funded hold zero.
    pub open spec fn balance_of(self, who: AccountId) -> Balance {
        if self.balances.dom().contains(who) {
            self.balances[who]
        } else {
            0
        }
    }

    pub open spec fn locks_of(self, who: AccountId) -> Seq<BalanceLock> {
        if self.locks.dom().contains(who) {
            self.locks[who]
        } else {
            Seq::empty()
        }
    }

    /// At most one lock per identifier per account.
    pub open spec fn wf(self) -> bool {
        forall|w: AccountId, i: int, j: int|
            self.locks.dom().contains(w) && 0 <= i < j < self.locks[w].len()
                ==> (#[trigger] self.locks[w][i]).id != (#[trigger] self.locks[w][j]).id
    }

    pub open spec fn has_lock(self, who: AccountId, id: LockIdentifier) -> bool {
        exists|k: int| 0 <= k < self.locks_of(who).len() && self.locks_of(who)[k].id == id
    }

    /// The position of `who`'s lock `id`; meaningful only when `has_lock`.
    pub open spec fn lock_at(self, who: AccountId, id: LockIdentifier) -> int {
        choose|k: int| 0 <= k < self.locks_of(who).len() && self.locks_of(who)[k].id == id
    }

    pub open spec fn lock_of(self, who: AccountId, id: LockIdentifier) -> BalanceLock {
        self.locks_of(who)[self.lock_at(who, id)]
    }

    pub open spec fn empty() -> LedgerV {
        LedgerV { balances: Map::empty(), locks: Map::empty() }
    }
}

/// What a transfer does: moves `amount` from `from` to `to` atomically, or
/// fails with the payer's balance and the payee's headroom untouched.
pub open spec fn transfer_tr(
    l: LedgerV,
    from: AccountId,
    to: AccountId,
    amount: Balance,
) -> Result<LedgerV, Error> {
    if amount > l.balance_of(from) {
        Err(Error::InsufficientBalance)
    } else if from == to {
        Ok(l)
    } else if l.balance_of(to) + amount > u64::MAX {
        Err(Error::ArithmeticOverflow)
    } else {
        Ok(
            LedgerV {
                balances: l.balances.insert(from, (l.balance_of(from) - amount) as u64).insert(
                    to,
                    (l.balance_of(to) + amount) as u64,
                ),
                ..l
            },
        )
    }
}

/// What setting a lock does: the lock under `id` is created with, or
/// replaced by, exactly `{id, amount, until}`; every other lock keeps its
/// place.
pub open spec fn set_lock_tr(
    l: LedgerV,
    id: LockIdentifier,
    who: AccountId,
    amount: Balance,
    until: Option<Tick>,
) -> LedgerV {
    let s = l.locks_of(who);
    let nl = BalanceLock { id, amount, until };
    let ns = if l.has_lock(who, id) {
        s.update(l.lock_at(who, id), nl)
    } else {
        s.push(nl)
    };
    LedgerV { locks: l.locks.insert(who, ns), ..l }
}

/// What removing a lock does: the lock under `id` leaves `who`'s list, the
/// others close ranks in order; without such a lock nothing changes.
pub open spec fn remove_lock_tr(l: LedgerV, id: LockIdentifier, who: AccountId) -> LedgerV {
    if l.has_lock(who, id) {
        LedgerV { locks: l.locks.insert(who, l.locks_of(who).remove(l.lock_at(who, id))), ..l }
    } else {
        l
    }
}

/// First position of a lock named `id` in `arr`.
fn lock_position(arr: &Vec<BalanceLock>, id: LockIdentifier) -> (r: Option<usize>)
    ensures
        match r {
            Some(k) => k < arr@.len() && arr@[k as int].id == id && forall|j: int|
                0 <= j < k ==> arr@[j].id != id,
            None => forall|j: int| 0 <= j < arr@.len() ==> arr@[j].id != id,
        },
{
    let mut k: usize = 0;
    while k < arr.len()
        invariant
            k <= arr@.len(),
            forall|j: int| 0 <= j < k ==> arr@[j].id != id,
        decreases arr@.len() - k,
    {
        if arr[k].id == id {
            return Some(k);
        }
        k += 1;
    }
    None
}

/// The balance ledger.
pub struct Ledger {
    pub balances: HashMap<AccountId, Balance>,
    pub locks: HashMap<AccountId, Vec<BalanceLock>>,
}

impl View for Ledger {
    type V = LedgerV;

    open spec fn view(&self) -> LedgerV {
        LedgerV {
            balances: self.balances@,
            locks: self.locks@.map_values(|v: Vec<BalanceLock>| v@),
        }
    }
}

impl Ledger {
    pub fn new() -> (r: Ledger)
        ensures
            r@ == LedgerV::empty(),
            r@.wf(),
    {
        let r = Ledger { balances: HashMap::new(), locks: HashMap::new() };
        proof {
            assert(r@ =~~= LedgerV::empty());
        }
        r
    }

    pub fn balance_of(&self, who: AccountId) -> (b: Balance)
        ensures
            b == self@.balance_of(who),
    {
        match self.balances.get(&who) {
            Some(b) => *b,
            None => 0,
        }
    }

    /// Provisions an account: the host funds balances before the core runs.
    pub fn set_balance(&mut self, who: AccountId, amount: Balance)
        ensures
            final(self)@ == (LedgerV {
                balances: old(self)@.balances.insert(who, amount),
                ..old(self)@
            }),
    {
        self.balances.insert(who, amount);
        proof {
            assert(self@ =~~= (LedgerV {
                balances: old(self)@.balances.insert(who, amount),
                ..old(self)@
            }));
        }
    }

    /// Unconditional atomic transfer; see [`transfer_tr`].
    pub fn transfer(&mut self, from: AccountId, to: AccountId, amount: Balance) -> (r: Result<
        (),
        Error,
    >)
        ensures
            final(self)@.locks == old(self)@.locks,
            match r {
                Ok(()) => transfer_tr(old(self)@, from, to, amount) == Ok::<LedgerV, Error>(
                    final(self)@,
                ),
                Err(e) => transfer_tr(old(self)@, from, to, amount) == Err::<LedgerV, Error>(e)
                    && final(self)@ == old(self)@,
            },
    {
        let bf = self.balance_of(from);
        if amount > bf {
            return Err(Error::InsufficientBalance);
        }
        if from == to {
            return Ok(());
        }
        let bt = self.balance_of(to);
        if bt > u64::MAX - amount {
            return Err(Error::ArithmeticOverflow);
        }
        self.balances.insert(from, bf - amount);
        self.balances.insert(to, bt + amount);
        proof {
            assert(self@ =~~= transfer_tr(old(self)@, from, to, amount)->Ok_0);
        }
        Ok(())
    }

    /// The lock `who` holds under `id`, if any.
    pub fn find_lock(&self, who: AccountId, id: LockIdentifier) -> (r: Option<BalanceLock>)
        requires
            self@.wf(),
        ensures
            r == if self@.has_lock(who, id) {
                Some(self@.lock_of(who, id))
            } else {
                None::<BalanceLock>
            },
    {
        let arr = match self.locks.get(&who) {
            Some(a) => a,
            None => {
                return None;
            },
        };
        match lock_position(arr, id) {
            Some(k) => {
                proof {
                    assert(self@.has_lock(who, id));
                    assert(self@.lock_at(who, id) == k as int);
                }
                Some(arr[k])
            },
            None => None,
        }
    }

    /// Creates or replaces the lock under `id`; see [`set_lock_tr`].
    /// Relied on to hold `amount` of `who`'s balance until `until`.
    pub fn set_lock(
        &mut self,
        id: LockIdentifier,
        who: AccountId,
        amount: Balance,
        until: Option<Tick>,
    )
        requires
            old(self)@.wf(),
        ensures
            final(self)@ == set_lock_tr(old(self)@, id, who, amount, until),
            final(self)@.wf(),
    {
        let ghost pre = self@;
        let mut arr = match self.locks.remove(&who) {
            Some(a) => a,
            None => Vec::new(),
        };
        let nl = BalanceLock { id, amount, until };
        match lock_position(&arr, id) {
            Some(k) => {
                proof {
                    assert(pre.has_lock(who, id));
                    assert(pre.lock_at(who, id) == k as int);
                }
                arr.remove(k);
                arr.insert(k, nl);
                proof {
                    assert(arr@ =~= pre.locks_of(who).update(k as int, nl));
                }
            },
            None => {
                arr.push(nl);
            },
        }
        self.locks.insert(who, arr);
        proof {
            assert(self@ =~~= set_lock_tr(pre, id, who, amount, until));
            let s = set_lock_tr(pre, id, who, amount, until);
            assert forall|w: AccountId, i: int, j: int|
                s.locks.dom().contains(w) && 0 <= i < j < s.locks[w].len() implies (
            #[trigger] s.locks[w][i]).id != (#[trigger] s.locks[w][j]).id by {
                if w == who {
                    if pre.has_lock(who, id) {
                        let k = pre.lock_at(who, id);
                        assert(pre.locks_of(who)[k].id == id);
                        if i != k {
                            assert(s.locks[w][i] == pre.locks_of(who)[i]);
                        }
                        if j != k {
                            assert(s.locks[w][j] == pre.locks_of(who)[j]);
                        }
                    } else {
                        if j < s.locks[w].len() - 1 {
                            assert(s.locks[w][i] == pre.locks_of(who)[i]);
                            assert(s.locks[w][j] == pre.locks_of(who)[j]);
                        } else {
                            assert(s.locks[w][j].id == id);
                            assert(s.locks[w][i] == pre.locks_of(who)[i]);
                        }
                    }
                } else {
                    assert(s.locks[w] == pre.locks_of(w));
                    assert(pre.locks.dom().contains(w));
                }
            }
        }
    }

    /// Extends the lock under `id` to the new total `amount`; the caller
    /// supplies the total, so this replaces the held amount and expiry.
    pub fn extend_lock(
        &mut self,
        id: LockIdentifier,
        who: AccountId,
        amount: Balance,
        until: Option<Tick>,
    )
        requires
            old(self)@.wf(),
        ensures
            final(self)@ == set_lock_tr(old(self)@, id, who, amount, until),
            final(self)@.wf(),
    {
        self.set_lock(id, who, amount, until)
    }

    /// Drops the lock under `id`, freeing the held amount; see
    /// [`remove_lock_tr`].
    pub fn remove_lock(&mut self, id: LockIdentifier, who: AccountId)
        requires
            old(self)@.wf(),
        ensures
            final(self)@ == remove_lock_tr(old(self)@, id, who),
            final(self)@.wf(),
    {
        let ghost pre = self@;
        let mut arr = match self.locks.remove(&who) {
            Some(a) => a,
            None => {
                proof {
                    assert(self@ =~~= pre);
                    assert(self@ =~~= remove_lock_tr(pre, id, who));
                }
                return ;
            },
        };
        match lock_position(&arr, id) {
            Some(k) => {
                proof {
                    assert(pre.has_lock(who, id));
                    assert(pre.lock_at(who, id) == k as int);
                }
                arr.remove(k);
            },
            None => {},
        }
        self.locks.insert(who, arr);
        proof {
            assert(self@ =~~= remove_lock_tr(pre, id, who));
            let s = remove_lock_tr(pre, id, who);
            assert forall|w: AccountId, i: int, j: int|
                s.locks.dom().contains(w) && 0 <= i < j < s.locks[w].len() implies (
            #[trigger] s.locks[w][i]).id != (#[trigger] s.locks[w][j]).id by {
                if w == who && pre.has_lock(who, id) {
                    let k = pre.lock_at(who, id);
                    let olds = pre.locks_of(who);
                    assert(s.locks[w] == olds.remove(k));
                    assert(s.locks[w][i] == if i < k {
                        olds[i]
                    } else {
                        olds[i + 1]
                    });
                    assert(s.locks[w][j] == if j < k {
                        olds[j]
                    } else {
                        olds[j + 1]
                    });
                } else {
                    assert(s.locks[w] == pre.locks_of(w));
                    assert(pre.locks.dom().contains(w));
                }
            }
        }
    }
}

} // verus!
