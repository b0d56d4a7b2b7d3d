//! Depositing currency against a bucket's accepted promise.

use vstd::prelude::*;
use crate::types::{AccountId, Balance, Bucket, EntityId, Error, Event, Promise};
use crate::ledger::{self, Ledger, LedgerV};
use crate::state::{Module, ModuleV};

verus! {

/// What a fill does: anyone but the bucket's owner moves `deposit` to the
/// owner through the ledger and `filled` grows by `deposit`.  It is
/// rejected once `filled` has reached `value`, so the fulfilment event
/// fires on exactly one fill: the one that crosses `value`.
pub open spec fn fill_bucket_tr(
    s: ModuleV,
    l: LedgerV,
    sender: AccountId,
    bucket_id: EntityId,
    deposit: Balance,
) -> Result<(ModuleV, LedgerV, Seq<Event>), Error> {
    if !s.has_bucket(bucket_id) {
        Err(Error::NotFound)
    } else if s.bucket_owner(bucket_id) == sender {
        Err(Error::InvalidState)
    } else {
        match s.buckets[bucket_id].promise {
            None => Err(Error::InvalidState),
            Some(pr) => {
                if pr.value == 0 {
                    Err(Error::InvalidState)
                } else if pr.filled >= pr.value {
                    Err(Error::InvalidState)
                } else if pr.filled + deposit > u64::MAX {
                    Err(Error::ArithmeticOverflow)
                } else {
                    match ledger::transfer_tr(l, sender, s.bucket_owner(bucket_id), deposit) {
                        Err(e) => Err(e),
                        Ok(l1) => {
                            let nf = (pr.filled + deposit) as u64;
                            let npr = Promise { filled: nf, ..pr };
                            let evs = if nf >= pr.value {
                                seq![
                                    Event::PromiseFilled(bucket_id, pr.id, deposit),
                                    Event::PromiseFulfilled(bucket_id, pr.id),
                                ]
                            } else {
                                seq![Event::PromiseFilled(bucket_id, pr.id, deposit)]
                            };
                            Ok(
                                (
                                    ModuleV {
                                        buckets: s.buckets.insert(
                                            bucket_id,
                                            Bucket { promise: Some(npr), ..s.buckets[bucket_id] },
                                        ),
                                        ..s
                                    },
                                    l1,
                                    evs,
                                ),
                            )
                        },
                    }
                }
            },
        }
    }
}

/// What the fulfil shortcut does: it computes a deposit as the checked
/// difference `filled - value` — the excess over the promised value, not
/// the outstanding remainder — and hands it to the fill.  With `filled`
/// below `value` the subtraction fails; at or above `value` the fill
/// itself rejects.
pub open spec fn fullfill_bucket_tr(
    s: ModuleV,
    l: LedgerV,
    sender: AccountId,
    bucket_id: EntityId,
) -> Result<(ModuleV, LedgerV, Seq<Event>), Error> {
    if !s.has_bucket(bucket_id) {
        Err(Error::NotFound)
    } else {
        match s.buckets[bucket_id].promise {
            None => Err(Error::InvalidState),
            Some(pr) => {
                if pr.filled < pr.value {
                    Err(Error::ArithmeticUnderflow)
                } else {
                    fill_bucket_tr(s, l, sender, bucket_id, (pr.filled - pr.value) as u64)
                }
            },
        }
    }
}

impl Module {
    /// Deposits `deposit` against the promise in `bucket_id`, paying the
    /// bucket's owner; see [`fill_bucket_tr`].
    pub fn fill_bucket(
        &mut self,
        ledger: &mut Ledger,
        sender: AccountId,
        bucket_id: EntityId,
        deposit: Balance,
    ) -> (r: Result<Vec<Event>, Error>)
        requires
            old(self)@.wf(),
        ensures
            final(self)@.wf(),
            final(ledger)@.locks == old(ledger)@.locks,
            match r {
                Ok(ev) => fill_bucket_tr(old(self)@, old(ledger)@, sender, bucket_id, deposit)
                    == Ok::<(ModuleV, LedgerV, Seq<Event>), Error>(
                    (final(self)@, final(ledger)@, ev@),
                ),
                Err(e) => fill_bucket_tr(old(self)@, old(ledger)@, sender, bucket_id, deposit)
                    == Err::<(ModuleV, LedgerV, Seq<Event>), Error>(e) && final(self)@ == old(self)@
                    && final(ledger)@ == old(ledger)@,
            },
    {
        let ghost pre = self@;
        let bucket = match self.buckets.get(&bucket_id) {
            Some(b) => *b,
            None => {
                return Err(Error::NotFound);
            },
        };
        let owner = self.bucket_reg.owner_of(bucket_id).unwrap();
        if owner == sender {
            return Err(Error::InvalidState);
        }
        let pr = match bucket.promise {
            Some(p) => p,
            None => {
                return Err(Error::InvalidState);
            },
        };
        if pr.value == 0 {
            return Err(Error::InvalidState);
        }
        if pr.filled >= pr.value {
            return Err(Error::InvalidState);
        }
        if deposit > u64::MAX - pr.filled {
            return Err(Error::ArithmeticOverflow);
        }
        ledger.transfer(sender, owner, deposit)?;
        let nf = pr.filled + deposit;
        let npr = Promise { filled: nf, ..pr };
        self.buckets.insert(bucket_id, Bucket { promise: Some(npr), ..bucket });
        let mut ev: Vec<Event> = Vec::new();
        ev.push(Event::PromiseFilled(bucket_id, pr.id, deposit));
        if nf >= pr.value {
            ev.push(Event::PromiseFulfilled(bucket_id, pr.id));
        }
        proof {
            let (s1, l1, e1) = fill_bucket_tr(pre, old(ledger)@, sender, bucket_id, deposit)
                ->Ok_0;
            assert(self@ =~~= s1);
            assert(ev@ =~= e1);
            assert forall|b: EntityId| #[trigger] self@.buckets.dom().contains(b) implies {
                &&& self@.buckets[b].id == b
                &&& match self@.buckets[b].promise {
                    Some(p) => {
                        &&& self@.accepted_bucket.dom().contains(p.id)
                        &&& self@.accepted_bucket[p.id] == b
                        &&& self@.promises.dom().contains(p.id)
                    },
                    None => true,
                }
            } by {
                assert(pre.buckets.dom().contains(b));
                if b != bucket_id {
                    assert(self@.buckets[b] == pre.buckets[b]);
                }
            }
            assert(self@.wf());
        }
        Ok(ev)
    }

    /// The fulfil shortcut; see [`fullfill_bucket_tr`].
    pub fn fullfill_bucket(
        &mut self,
        ledger: &mut Ledger,
        sender: AccountId,
        bucket_id: EntityId,
    ) -> (r: Result<Vec<Event>, Error>)
        requires
            old(self)@.wf(),
        ensures
            final(self)@.wf(),
            final(ledger)@.locks == old(ledger)@.locks,
            match r {
                Ok(ev) => fullfill_bucket_tr(old(self)@, old(ledger)@, sender, bucket_id) == Ok::<
                    (ModuleV, LedgerV, Seq<Event>),
                    Error,
                >((final(self)@, final(ledger)@, ev@)),
                Err(e) => fullfill_bucket_tr(old(self)@, old(ledger)@, sender, bucket_id) == Err::<
                    (ModuleV, LedgerV, Seq<Event>),
                    Error,
                >(e) && final(self)@ == old(self)@ && final(ledger)@ == old(ledger)@,
            },
    {
        let bucket = match self.buckets.get(&bucket_id) {
            Some(b) => *b,
            None => {
                return Err(Error::NotFound);
            },
        };
        let pr = match bucket.promise {
            Some(p) => p,
            None => {
                return Err(Error::InvalidState);
            },
        };
        if pr.filled < pr.value {
            return Err(Error::ArithmeticUnderflow);
        }
        let deposit = pr.filled - pr.value;
        self.fill_bucket(ledger, sender, bucket_id, deposit)
    }
}

} // verus!
