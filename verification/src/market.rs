//! Bucket minting, pricing, transfer and purchase.

use vstd::prelude::*;
use crate::types::{AccountId, Balance, Bucket, EntityId, Error, Event};
use crate::registry;
use crate::ledger::{self, Ledger, LedgerV};
use crate::state::{Module, ModuleV};

verus! {

/// What minting a bucket does: register `bucket_id` under `to` and store a
/// fresh record with no promise and price zero.
pub open spec fn mint_bucket_tr(s: ModuleV, to: AccountId, bucket_id: EntityId) -> Result<
    (ModuleV, Seq<Event>),
    Error,
> {
    match registry::insert_tr(s.bucket_reg, to, bucket_id) {
        Err(e) => Err(e),
        Ok(reg) => Ok(
            (
                ModuleV {
                    buckets: s.buckets.insert(
                        bucket_id,
                        Bucket { id: bucket_id, promise: None, price: 0 },
                    ),
                    bucket_reg: reg,
                    ..s
                },
                seq![Event::BucketCreated(to, bucket_id)],
            ),
        ),
    }
}

/// Minting through the public entry also bumps the id-derivation nonce.
pub open spec fn create_bucket_tr(s: ModuleV, sender: AccountId, bucket_id: EntityId) -> Result<
    (ModuleV, Seq<Event>),
    Error,
> {
    match mint_bucket_tr(s, sender, bucket_id) {
        Err(e) => Err(e),
        Ok((s1, ev)) => if s.nonce == u64::MAX {
            Err(Error::ArithmeticOverflow)
        } else {
            Ok((ModuleV { nonce: (s.nonce + 1) as u64, ..s1 }, ev))
        },
    }
}

/// What setting a price does; a price of zero takes the bucket off sale.
pub open spec fn set_price_tr(
    s: ModuleV,
    sender: AccountId,
    bucket_id: EntityId,
    new_price: Balance,
) -> Result<(ModuleV, Seq<Event>), Error> {
    if !s.has_bucket(bucket_id) {
        Err(Error::NotFound)
    } else if s.bucket_owner(bucket_id) != sender {
        Err(Error::NotOwner)
    } else {
        Ok(
            (
                ModuleV {
                    buckets: s.buckets.insert(
                        bucket_id,
                        Bucket { price: new_price, ..s.buckets[bucket_id] },
                    ),
                    ..s
                },
                seq![Event::PriceSet(sender, bucket_id, new_price)],
            ),
        )
    }
}

/// What an ownership transfer does: exactly the registry transfer; bucket
/// records, promises and the global enumeration stay put.
pub open spec fn transfer_from_tr(
    s: ModuleV,
    from: AccountId,
    to: AccountId,
    bucket_id: EntityId,
) -> Result<(ModuleV, Seq<Event>), Error> {
    match registry::transfer_tr(s.bucket_reg, bucket_id, from, to) {
        Err(e) => Err(e),
        Ok(reg) => Ok(
            (ModuleV { bucket_reg: reg, ..s }, seq![Event::Transferred(from, to, bucket_id)]),
        ),
    }
}

/// What a purchase does: the price moves from buyer to owner on the ledger,
/// the bucket moves to the buyer, and its price resets to zero.
pub open spec fn buy_bucket_tr(
    s: ModuleV,
    l: LedgerV,
    sender: AccountId,
    bucket_id: EntityId,
    max_price: Balance,
) -> Result<(ModuleV, LedgerV, Seq<Event>), Error> {
    if !s.has_bucket(bucket_id) {
        Err(Error::NotFound)
    } else {
        let owner = s.bucket_owner(bucket_id);
        let price = s.buckets[bucket_id].price;
        if owner == sender {
            Err(Error::InvalidState)
        } else if price == 0 {
            Err(Error::InvalidState)
        } else if price > max_price {
            Err(Error::InvalidState)
        } else if s.bucket_reg.owned_seq(sender).len() >= usize::MAX {
            Err(Error::ArithmeticOverflow)
        } else {
            match ledger::transfer_tr(l, sender, owner, price) {
                Err(e) => Err(e),
                Ok(l1) => match transfer_from_tr(s, owner, sender, bucket_id) {
                    Err(e) => Err(e),
                    Ok((s1, ev)) => Ok(
                        (
                            ModuleV {
                                buckets: s1.buckets.insert(
                                    bucket_id,
                                    Bucket { price: 0, ..s1.buckets[bucket_id] },
                                ),
                                ..s1
                            },
                            l1,
                            ev.push(Event::Bought(sender, owner, bucket_id, price)),
                        ),
                    ),
                },
            }
        }
    }
}

impl Module {
    /// Registers a fresh bucket for `to`; see [`mint_bucket_tr`].
    fn mint_bucket(&mut self, to: AccountId, bucket_id: EntityId) -> (r: Result<Vec<Event>, Error>)
        requires
            old(self)@.wf(),
        ensures
            final(self)@.wf(),
            match r {
                Ok(ev) => mint_bucket_tr(old(self)@, to, bucket_id) == Ok::<
                    (ModuleV, Seq<Event>),
                    Error,
                >((final(self)@, ev@)),
                Err(e) => mint_bucket_tr(old(self)@, to, bucket_id) == Err::<
                    (ModuleV, Seq<Event>),
                    Error,
                >(e) && final(self)@ == old(self)@,
            },
    {
        let ghost pre = self@;
        match self.bucket_reg.insert(to, bucket_id) {
            Err(e) => {
                proof {
                    assert(self@ =~~= pre);
                }
                Err(e)
            },
            Ok(()) => {
                proof {
                    registry::lemma_insert_tr(pre.bucket_reg, to, bucket_id);
                }
                self.buckets.insert(bucket_id, Bucket { id: bucket_id, promise: None, price: 0 });
                let mut ev: Vec<Event> = Vec::new();
                ev.push(Event::BucketCreated(to, bucket_id));
                proof {
                    let (s1, e1) = mint_bucket_tr(pre, to, bucket_id)->Ok_0;
                    assert(self@ =~~= s1);
                    assert(ev@ =~= e1);
                    assert(self@.wf());
                }
                Ok(ev)
            },
        }
    }

    /// Mints a bucket under the host-derived `bucket_id` for `sender` and
    /// bumps the nonce; see [`create_bucket_tr`].
    pub fn create_bucket(&mut self, sender: AccountId, bucket_id: EntityId) -> (r: Result<
        Vec<Event>,
        Error,
    >)
        requires
            old(self)@.wf(),
        ensures
            final(self)@.wf(),
            match r {
                Ok(ev) => create_bucket_tr(old(self)@, sender, bucket_id) == Ok::<
                    (ModuleV, Seq<Event>),
                    Error,
                >((final(self)@, ev@)),
                Err(e) => create_bucket_tr(old(self)@, sender, bucket_id) == Err::<
                    (ModuleV, Seq<Event>),
                    Error,
                >(e) && final(self)@ == old(self)@,
            },
    {
        if self.bucket_reg.is_registered(bucket_id) {
            return Err(Error::AlreadyExists);
        }
        if self.nonce == u64::MAX {
            return Err(Error::ArithmeticOverflow);
        }
        let new_nonce = self.nonce + 1;
        let ev = self.mint_bucket(sender, bucket_id)?;
        self.nonce = new_nonce;
        proof {
            let (s1, e1) = create_bucket_tr(old(self)@, sender, bucket_id)->Ok_0;
            assert(self@ =~~= s1);
        }
        Ok(ev)
    }

    /// Sets the sale price of a bucket the sender owns; see
    /// [`set_price_tr`].
    pub fn set_price(&mut self, sender: AccountId, bucket_id: EntityId, new_price: Balance) -> (r:
        Result<Vec<Event>, Error>)
        requires
            old(self)@.wf(),
        ensures
            final(self)@.wf(),
            match r {
                Ok(ev) => set_price_tr(old(self)@, sender, bucket_id, new_price) == Ok::<
                    (ModuleV, Seq<Event>),
                    Error,
                >((final(self)@, ev@)),
                Err(e) => set_price_tr(old(self)@, sender, bucket_id, new_price) == Err::<
                    (ModuleV, Seq<Event>),
                    Error,
                >(e) && final(self)@ == old(self)@,
            },
    {
        let bucket = match self.buckets.get(&bucket_id) {
            Some(b) => *b,
            None => {
                return Err(Error::NotFound);
            },
        };
        let owner = self.bucket_reg.owner_of(bucket_id).unwrap();
        if owner != sender {
            return Err(Error::NotOwner);
        }
        self.buckets.insert(bucket_id, Bucket { price: new_price, ..bucket });
        let mut ev: Vec<Event> = Vec::new();
        ev.push(Event::PriceSet(sender, bucket_id, new_price));
        proof {
            let (s1, e1) = set_price_tr(old(self)@, sender, bucket_id, new_price)->Ok_0;
            assert(self@ =~~= s1);
            assert(ev@ =~= e1);
        }
        Ok(ev)
    }

    /// Moves bucket ownership from `from` to `to`; see
    /// [`transfer_from_tr`].
    pub fn transfer_from(&mut self, from: AccountId, to: AccountId, bucket_id: EntityId) -> (r:
        Result<Vec<Event>, Error>)
        requires
            old(self)@.wf(),
        ensures
            final(self)@.wf(),
            match r {
                Ok(ev) => transfer_from_tr(old(self)@, from, to, bucket_id) == Ok::<
                    (ModuleV, Seq<Event>),
                    Error,
                >((final(self)@, ev@)),
                Err(e) => transfer_from_tr(old(self)@, from, to, bucket_id) == Err::<
                    (ModuleV, Seq<Event>),
                    Error,
                >(e) && final(self)@ == old(self)@,
            },
    {
        let ghost pre = self@;
        match self.bucket_reg.transfer(bucket_id, from, to) {
            Err(e) => {
                proof {
                    assert(self@ =~~= pre);
                }
                Err(e)
            },
            Ok(()) => {
                proof {
                    registry::lemma_transfer_tr(pre.bucket_reg, bucket_id, from, to);
                }
                let mut ev: Vec<Event> = Vec::new();
                ev.push(Event::Transferred(from, to, bucket_id));
                proof {
                    let (s1, e1) = transfer_from_tr(pre, from, to, bucket_id)->Ok_0;
                    assert(self@ =~~= s1);
                    assert(ev@ =~= e1);
                    assert(self@.buckets.dom() =~= self@.bucket_reg.owner.dom());
                }
                Ok(ev)
            },
        }
    }

    /// Transfers a bucket the sender owns; same checks and effect as
    /// [`transfer_from_tr`] with the sender as `from`.
    pub fn transfer(&mut self, sender: AccountId, to: AccountId, bucket_id: EntityId) -> (r: Result<
        Vec<Event>,
        Error,
    >)
        requires
            old(self)@.wf(),
        ensures
            final(self)@.wf(),
            match r {
                Ok(ev) => transfer_from_tr(old(self)@, sender, to, bucket_id) == Ok::<
                    (ModuleV, Seq<Event>),
                    Error,
                >((final(self)@, ev@)),
                Err(e) => transfer_from_tr(old(self)@, sender, to, bucket_id) == Err::<
                    (ModuleV, Seq<Event>),
                    Error,
                >(e) && final(self)@ == old(self)@,
            },
    {
        self.transfer_from(sender, to, bucket_id)
    }

    /// Buys a bucket offered for sale, paying its price through the ledger;
    /// see [`buy_bucket_tr`].
    pub fn buy_bucket(
        &mut self,
        ledger: &mut Ledger,
        sender: AccountId,
        bucket_id: EntityId,
        max_price: Balance,
    ) -> (r: Result<Vec<Event>, Error>)
        requires
            old(self)@.wf(),
        ensures
            final(self)@.wf(),
            final(ledger)@.locks == old(ledger)@.locks,
            match r {
                Ok(ev) => buy_bucket_tr(old(self)@, old(ledger)@, sender, bucket_id, max_price)
                    == Ok::<(ModuleV, LedgerV, Seq<Event>), Error>(
                    (final(self)@, final(ledger)@, ev@),
                ),
                Err(e) => buy_bucket_tr(old(self)@, old(ledger)@, sender, bucket_id, max_price)
                    == Err::<(ModuleV, LedgerV, Seq<Event>), Error>(e) && final(self)@ == old(self)@
                    && final(ledger)@ == old(ledger)@,
            },
    {
        let ghost pre = self@;
        let bucket = match self.buckets.get(&bucket_id) {
            Some(b) => *b,
            None => {
                return Err(Error::NotFound);
            },
        };
        let owner = self.bucket_reg.owner_of(bucket_id).unwrap();
        if owner == sender {
            return Err(Error::InvalidState);
        }
        let price = bucket.price;
        if price == 0 {
            return Err(Error::InvalidState);
        }
        if price > max_price {
            return Err(Error::InvalidState);
        }
        if self.bucket_reg.owned_count(sender) >= usize::MAX {
            return Err(Error::ArithmeticOverflow);
        }
        ledger.transfer(sender, owner, price)?;
        let mut ev = self.transfer_from(owner, sender, bucket_id)?;
        self.buckets.insert(bucket_id, Bucket { price: 0, ..bucket });
        ev.push(Event::Bought(sender, owner, bucket_id, price));
        proof {
            let (s1, l1, e1) = buy_bucket_tr(pre, old(ledger)@, sender, bucket_id, max_price)
                ->Ok_0;
            assert(self@ =~~= s1);
            assert(ev@ =~= e1);
            assert(self@.buckets.dom() =~= self@.bucket_reg.owner.dom());
        }
        Ok(ev)
    }
}

} // verus!
