//! Free-promise creation and editing, and acceptance of a promise into a
//! bucket.

use vstd::prelude::*;
use crate::types::{AccountId, Balance, EntityId, Error, Event, FreePromise, Promise, Bucket, Tick};
use crate::registry;
use crate::state::{Module, ModuleV};

verus! {

/// What minting a free promise does: register `promise_id` under `to` and
/// store the record.
pub open spec fn mint_promise_tr(
    s: ModuleV,
    to: AccountId,
    promise_id: EntityId,
    value: Balance,
    period: Tick,
    until: Option<Tick>,
) -> Result<(ModuleV, Seq<Event>), Error> {
    match registry::insert_tr(s.promise_reg, to, promise_id) {
        Err(e) => Err(e),
        Ok(reg) => Ok(
            (
                ModuleV {
                    promises: s.promises.insert(
                        promise_id,
                        FreePromise { id: promise_id, value, period, until },
                    ),
                    promise_reg: reg,
                    ..s
                },
                seq![Event::PromiseCreated(to, promise_id)],
            ),
        ),
    }
}

/// Minting through the public entry also bumps the id-derivation nonce.
pub open spec fn create_promise_until_tr(
    s: ModuleV,
    sender: AccountId,
    promise_id: EntityId,
    value: Balance,
    period: Tick,
    until: Option<Tick>,
) -> Result<(ModuleV, Seq<Event>), Error> {
    match mint_promise_tr(s, sender, promise_id, value, period, until) {
        Err(e) => Err(e),
        Ok((s1, ev)) => if s.nonce == u64::MAX {
            Err(Error::ArithmeticOverflow)
        } else {
            Ok((ModuleV { nonce: (s.nonce + 1) as u64, ..s1 }, ev))
        },
    }
}

/// What editing does: `value` and `period` of the free record change in
/// place.  No guard keeps an accepted promise's stale free record from
/// being edited; the accepted copy inside the bucket is unaffected either
/// way.
pub open spec fn edit_promise_tr(
    s: ModuleV,
    sender: AccountId,
    promise_id: EntityId,
    value: Balance,
    period: Tick,
) -> Result<(ModuleV, Seq<Event>), Error> {
    if !s.has_promise(promise_id) {
        Err(Error::NotFound)
    } else if s.promise_owner(promise_id) != sender {
        Err(Error::NotOwner)
    } else {
        Ok(
            (
                ModuleV {
                    promises: s.promises.insert(
                        promise_id,
                        FreePromise { value, period, ..s.promises[promise_id] },
                    ),
                    ..s
                },
                seq![Event::PromiseChanged(promise_id)],
            ),
        )
    }
}

/// What acceptance does: the bucket owner takes someone else's free
/// promise; a copy of the record, stamped with the current tick and
/// `filled == 0`, is embedded in the bucket, the reverse map and the
/// accepted enumeration gain the promise, the promise's author becomes the
/// bucket's contributor, and the nonce is bumped.  The free record stays.
pub open spec fn accept_promise_tr(
    s: ModuleV,
    now: Tick,
    sender: AccountId,
    promise_id: EntityId,
    bucket_id: EntityId,
) -> Result<(ModuleV, Seq<Event>), Error> {
    if !s.has_bucket(bucket_id) {
        Err(Error::NotFound)
    } else if !s.has_promise(promise_id) {
        Err(Error::NotFound)
    } else if s.is_accepted(promise_id) {
        Err(Error::InvalidState)
    } else if s.bucket_owner(bucket_id) != sender {
        Err(Error::NotOwner)
    } else if s.promise_owner(promise_id) == sender {
        Err(Error::InvalidState)
    } else if s.buckets[bucket_id].promise is Some {
        Err(Error::InvalidState)
    } else {
        let powner = s.promise_owner(promise_id);
        match registry::insert_tr(s.accepted_reg, powner, promise_id) {
            Err(e) => Err(e),
            Ok(areg) => if s.nonce == u64::MAX {
                Err(Error::ArithmeticOverflow)
            } else {
                let fp = s.promises[promise_id];
                let pr = Promise {
                    id: promise_id,
                    owner: powner,
                    value: fp.value,
                    period: fp.period,
                    until: fp.until,
                    filled: 0,
                    acception_dt: now,
                };
                Ok(
                    (
                        ModuleV {
                            buckets: s.buckets.insert(
                                bucket_id,
                                Bucket { promise: Some(pr), ..s.buckets[bucket_id] },
                            ),
                            accepted_bucket: s.accepted_bucket.insert(promise_id, bucket_id),
                            bucket_contributor: s.bucket_contributor.insert(bucket_id, powner),
                            accepted_reg: areg,
                            nonce: (s.nonce + 1) as u64,
                            ..s
                        },
                        seq![Event::PromiseAccepted(promise_id, bucket_id)],
                    ),
                )
            },
        }
    }
}

impl Module {
    /// Registers a fresh free promise for `to`; see [`mint_promise_tr`].
    fn mint_promise(
        &mut self,
        to: AccountId,
        promise_id: EntityId,
        value: Balance,
        period: Tick,
        until: Option<Tick>,
    ) -> (r: Result<Vec<Event>, Error>)
        requires
            old(self)@.wf(),
        ensures
            final(self)@.wf(),
            match r {
                Ok(ev) => mint_promise_tr(old(self)@, to, promise_id, value, period, until) == Ok::<
                    (ModuleV, Seq<Event>),
                    Error,
                >((final(self)@, ev@)),
                Err(e) => mint_promise_tr(old(self)@, to, promise_id, value, period, until)
                    == Err::<(ModuleV, Seq<Event>), Error>(e) && final(self)@ == old(self)@,
            },
    {
        let ghost pre = self@;
        match self.promise_reg.insert(to, promise_id) {
            Err(e) => {
                proof {
                    assert(self@ =~~= pre);
                }
                Err(e)
            },
            Ok(()) => {
                proof {
                    registry::lemma_insert_tr(pre.promise_reg, to, promise_id);
                }
                self.promises.insert(
                    promise_id,
                    FreePromise { id: promise_id, value, period, until },
                );
                let mut ev: Vec<Event> = Vec::new();
                ev.push(Event::PromiseCreated(to, promise_id));
                proof {
                    let (s1, e1) = mint_promise_tr(pre, to, promise_id, value, period, until)
                        ->Ok_0;
                    assert(self@ =~~= s1);
                    assert(ev@ =~= e1);
                }
                Ok(ev)
            },
        }
    }

    /// Creates a free promise over `value` per `period`, expiring at
    /// `until` (`None` = unbounded), and bumps the nonce; see
    /// [`create_promise_until_tr`].
    pub fn create_promise_until(
        &mut self,
        sender: AccountId,
        promise_id: EntityId,
        value: Balance,
        period: Tick,
        until: Option<Tick>,
    ) -> (r: Result<Vec<Event>, Error>)
        requires
            old(self)@.wf(),
        ensures
            final(self)@.wf(),
            match r {
                Ok(ev) => create_promise_until_tr(
                    old(self)@,
                    sender,
                    promise_id,
                    value,
                    period,
                    until,
                ) == Ok::<(ModuleV, Seq<Event>), Error>((final(self)@, ev@)),
                Err(e) => create_promise_until_tr(
                    old(self)@,
                    sender,
                    promise_id,
                    value,
                    period,
                    until,
                ) == Err::<(ModuleV, Seq<Event>), Error>(e) && final(self)@ == old(self)@,
            },
    {
        if self.promise_reg.is_registered(promise_id) {
            return Err(Error::AlreadyExists);
        }
        if self.nonce == u64::MAX {
            return Err(Error::ArithmeticOverflow);
        }
        let new_nonce = self.nonce + 1;
        let ev = self.mint_promise(sender, promise_id, value, period, until)?;
        self.nonce = new_nonce;
        proof {
            let (s1, e1) = create_promise_until_tr(
                old(self)@,
                sender,
                promise_id,
                value,
                period,
                until,
            )->Ok_0;
            assert(self@ =~~= s1);
        }
        Ok(ev)
    }

    /// Creates an unbounded free promise; [`create_promise_until_tr`] with
    /// no expiry.
    pub fn create_promise(
        &mut self,
        sender: AccountId,
        promise_id: EntityId,
        value: Balance,
        period: Tick,
    ) -> (r: Result<Vec<Event>, Error>)
        requires
            old(self)@.wf(),
        ensures
            final(self)@.wf(),
            match r {
                Ok(ev) => create_promise_until_tr(
                    old(self)@,
                    sender,
                    promise_id,
                    value,
                    period,
                    None,
                ) == Ok::<(ModuleV, Seq<Event>), Error>((final(self)@, ev@)),
                Err(e) => create_promise_until_tr(
                    old(self)@,
                    sender,
                    promise_id,
                    value,
                    period,
                    None,
                ) == Err::<(ModuleV, Seq<Event>), Error>(e) && final(self)@ == old(self)@,
            },
    {
        self.create_promise_until(sender, promise_id, value, period, None)
    }

    /// Rewrites `value` and `period` of a free promise the sender owns; see
    /// [`edit_promise_tr`].
    pub fn edit_promise(
        &mut self,
        sender: AccountId,
        promise_id: EntityId,
        value: Balance,
        period: Tick,
    ) -> (r: Result<Vec<Event>, Error>)
        requires
            old(self)@.wf(),
        ensures
            final(self)@.wf(),
            match r {
                Ok(ev) => edit_promise_tr(old(self)@, sender, promise_id, value, period) == Ok::<
                    (ModuleV, Seq<Event>),
                    Error,
                >((final(self)@, ev@)),
                Err(e) => edit_promise_tr(old(self)@, sender, promise_id, value, period) == Err::<
                    (ModuleV, Seq<Event>),
                    Error,
                >(e) && final(self)@ == old(self)@,
            },
    {
        let fp = match self.promises.get(&promise_id) {
            Some(p) => *p,
            None => {
                return Err(Error::NotFound);
            },
        };
        let owner = self.promise_reg.owner_of(promise_id).unwrap();
        if owner != sender {
            return Err(Error::NotOwner);
        }
        self.promises.insert(promise_id, FreePromise { value, period, ..fp });
        let mut ev: Vec<Event> = Vec::new();
        ev.push(Event::PromiseChanged(promise_id));
        proof {
            let (s1, e1) = edit_promise_tr(old(self)@, sender, promise_id, value, period)->Ok_0;
            assert(self@ =~~= s1);
            assert(ev@ =~= e1);
        }
        Ok(ev)
    }

    /// Accepts a free promise into a bucket the sender owns; see
    /// [`accept_promise_tr`].
    pub fn accept_promise(
        &mut self,
        now: Tick,
        sender: AccountId,
        promise_id: EntityId,
        bucket_id: EntityId,
    ) -> (r: Result<Vec<Event>, Error>)
        requires
            old(self)@.wf(),
        ensures
            final(self)@.wf(),
            match r {
                Ok(ev) => accept_promise_tr(old(self)@, now, sender, promise_id, bucket_id) == Ok::<
                    (ModuleV, Seq<Event>),
                    Error,
                >((final(self)@, ev@)),
                Err(e) => accept_promise_tr(old(self)@, now, sender, promise_id, bucket_id)
                    == Err::<(ModuleV, Seq<Event>), Error>(e) && final(self)@ == old(self)@,
            },
    {
        let ghost pre = self@;
        let bucket = match self.buckets.get(&bucket_id) {
            Some(b) => *b,
            None => {
                return Err(Error::NotFound);
            },
        };
        let fp = match self.promises.get(&promise_id) {
            Some(p) => *p,
            None => {
                return Err(Error::NotFound);
            },
        };
        if self.accepted_bucket.contains_key(&promise_id) {
            return Err(Error::InvalidState);
        }
        let bucket_owner = self.bucket_reg.owner_of(bucket_id).unwrap();
        if bucket_owner != sender {
            return Err(Error::NotOwner);
        }
        let promise_owner = self.promise_reg.owner_of(promise_id).unwrap();
        if promise_owner == sender {
            return Err(Error::InvalidState);
        }
        if bucket.promise.is_some() {
            return Err(Error::InvalidState);
        }
        if self.nonce == u64::MAX {
            // A failing nonce bump must abort before the registry moves;
            // the registry's own failure here could only be the same error.
            proof {
                assert(!pre.accepted_reg.registered(promise_id));
            }
            return Err(Error::ArithmeticOverflow);
        }
        let new_nonce = self.nonce + 1;
        match self.accepted_reg.insert(promise_owner, promise_id) {
            Err(e) => {
                proof {
                    assert(self@ =~~= pre);
                }
                Err(e)
            },
            Ok(()) => {
                proof {
                    registry::lemma_insert_tr(pre.accepted_reg, promise_owner, promise_id);
                }
                let pr = Promise {
                    id: promise_id,
                    owner: promise_owner,
                    value: fp.value,
                    period: fp.period,
                    until: fp.until,
                    filled: 0,
                    acception_dt: now,
                };
                self.buckets.insert(bucket_id, Bucket { promise: Some(pr), ..bucket });
                self.accepted_bucket.insert(promise_id, bucket_id);
                self.bucket_contributor.insert(bucket_id, promise_owner);
                self.nonce = new_nonce;
                let mut ev: Vec<Event> = Vec::new();
                ev.push(Event::PromiseAccepted(promise_id, bucket_id));
                proof {
                    let (s1, e1) = accept_promise_tr(pre, now, sender, promise_id, bucket_id)
                        ->Ok_0;
                    assert(self@ =~~= s1);
                    assert(ev@ =~= e1);
                    assert(self@.accepted_bucket.dom() =~= self@.accepted_reg.owner.dom());
                    assert forall|p: EntityId| #[trigger]
                        self@.accepted_bucket.dom().contains(p) implies {
                        &&& self@.buckets.dom().contains(self@.accepted_bucket[p])
                        &&& self@.buckets[self@.accepted_bucket[p]].promise is Some
                        &&& self@.buckets[self@.accepted_bucket[p]].promise->Some_0.id == p
                        &&& self@.promises.dom().contains(p)
                    } by {
                        if p != promise_id {
                            assert(pre.accepted_bucket.dom().contains(p));
                            if pre.accepted_bucket[p] == bucket_id {
                                assert(pre.buckets[bucket_id].promise is Some);
                                assert(false);
                            }
                        }
                    }
                    assert(self@.wf());
                }
                Ok(ev)
            },
        }
    }
}

} // verus!
