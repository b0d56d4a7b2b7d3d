//! The top-level state object: every registry, record map and counter the
//! core owns, with the invariant that ties them together.

use vstd::prelude::*;
use std::collections::HashMap;
use crate::types::{AccountId, Bucket, EntityId, FreePromise, LockIdentifier};
use crate::registry::{Registry, RegistryV};

verus! {

broadcast use vstd::std_specs::hash::group_hash_axioms;

/// Ghost model of the whole core state.
#[verifier::ext_equal]
pub ghost struct ModuleV {
    /// Bucket records by id.
    pub buckets: Map<EntityId, Bucket>,
    /// Ownership registry of buckets.
    pub bucket_reg: RegistryV,
    /// For a bucket with an accepted promise, the promise's author.
    pub bucket_contributor: Map<EntityId, AccountId>,
    /// Free promise records by id; kept even after acceptance.
    pub promises: Map<EntityId, FreePromise>,
    /// Ownership registry of free promises.
    pub promise_reg: RegistryV,
    /// Enumeration registry of accepted promises, for the tick scanner.
    pub accepted_reg: RegistryV,
    /// Bucket holding each accepted promise.
    pub accepted_bucket: Map<EntityId, EntityId>,
    /// How many lock identifiers have been handed out.
    pub locks_count: u64,
    /// Ledger lock identifier recorded for a staked promise.
    pub lock_for_promise: Map<EntityId, LockIdentifier>,
    /// Bumped after every minting operation, for the host's id derivation.
    pub nonce: u64,
}

impl ModuleV {
    pub open spec fn has_bucket(self, b: EntityId) -> bool {
        self.buckets.dom().contains(b)
    }

    pub open spec fn bucket_owner(self, b: EntityId) -> AccountId {
        self.bucket_reg.owner[b]
    }

    pub open spec fn has_promise(self, p: EntityId) -> bool {
        self.promises.dom().contains(p)
    }

    pub open spec fn promise_owner(self, p: EntityId) -> AccountId {
        self.promise_reg.owner[p]
    }

    /// A promise is accepted exactly when the reverse map knows its bucket.
    pub open spec fn is_accepted(self, p: EntityId) -> bool {
        self.accepted_bucket.dom().contains(p)
    }

    pub open spec fn wf(self) -> bool {
        &&& self.bucket_reg.wf()
        &&& self.promise_reg.wf()
        &&& self.accepted_reg.wf()
        &&& self.buckets.dom() =~= self.bucket_reg.owner.dom()
        &&& self.promises.dom() =~= self.promise_reg.owner.dom()
        &&& self.accepted_bucket.dom() =~= self.accepted_reg.owner.dom()
        &&& forall|b: EntityId| #[trigger] self.buckets.dom().contains(b) ==> {
            &&& self.buckets[b].id == b
            &&& match self.buckets[b].promise {
                Some(p) => {
                    &&& self.accepted_bucket.dom().contains(p.id)
                    &&& self.accepted_bucket[p.id] == b
                    &&& self.promises.dom().contains(p.id)
                },
                None => true,
            }
        }
        &&& forall|p: EntityId| #[trigger] self.promises.dom().contains(p)
            ==> self.promises[p].id == p
        &&& forall|p: EntityId| #[trigger] self.accepted_bucket.dom().contains(p) ==> {
            &&& self.buckets.dom().contains(self.accepted_bucket[p])
            &&& self.buckets[self.accepted_bucket[p]].promise is Some
            &&& self.buckets[self.accepted_bucket[p]].promise->Some_0.id == p
            &&& self.promises.dom().contains(p)
        }
        &&& forall|p: EntityId| #[trigger] self.lock_for_promise.dom().contains(p) ==> {
            &&& 1 <= self.lock_for_promise[p] <= self.locks_count
            &&& self.promises.dom().contains(p)
        }
        &&& forall|p1: EntityId, p2: EntityId|
            self.lock_for_promise.dom().contains(p1) && self.lock_for_promise.dom().contains(p2)
                && p1 != p2 ==> #[trigger] self.lock_for_promise[p1]
                != #[trigger] self.lock_for_promise[p2]
    }

    pub open spec fn empty() -> ModuleV {
        ModuleV {
            buckets: Map::empty(),
            bucket_reg: RegistryV::empty(),
            bucket_contributor: Map::empty(),
            promises: Map::empty(),
            promise_reg: RegistryV::empty(),
            accepted_reg: RegistryV::empty(),
            accepted_bucket: Map::empty(),
            locks_count: 0,
            lock_for_promise: Map::empty(),
            nonce: 0,
        }
    }
}

/// The core's state: three registry instances, the record maps and the two
/// process-wide counters, threaded explicitly rather than held as ambient
/// global state.
pub struct Module {
    pub buckets: HashMap<EntityId, Bucket>,
    pub bucket_reg: Registry,
    pub bucket_contributor: HashMap<EntityId, AccountId>,
    pub promises: HashMap<EntityId, FreePromise>,
    pub promise_reg: Registry,
    pub accepted_reg: Registry,
    pub accepted_bucket: HashMap<EntityId, EntityId>,
    pub locks_count: u64,
    pub lock_for_promise: HashMap<EntityId, LockIdentifier>,
    pub nonce: u64,
}

impl View for Module {
    type V = ModuleV;

    open spec fn view(&self) -> ModuleV {
        ModuleV {
            buckets: self.buckets@,
            bucket_reg: self.bucket_reg@,
            bucket_contributor: self.bucket_contributor@,
            promises: self.promises@,
            promise_reg: self.promise_reg@,
            accepted_reg: self.accepted_reg@,
            accepted_bucket: self.accepted_bucket@,
            locks_count: self.locks_count,
            lock_for_promise: self.lock_for_promise@,
            nonce: self.nonce,
        }
    }
}

impl Module {
    pub fn new() -> (r: Module)
        ensures
            r@ == ModuleV::empty(),
            r@.wf(),
    {
        let r = Module {
            buckets: HashMap::new(),
            bucket_reg: Registry::new(),
            bucket_contributor: HashMap::new(),
            promises: HashMap::new(),
            promise_reg: Registry::new(),
            accepted_reg: Registry::new(),
            accepted_bucket: HashMap::new(),
            locks_count: 0,
            lock_for_promise: HashMap::new(),
            nonce: 0,
        };
        proof {
            assert(r@ =~~= ModuleV::empty());
        }
        r
    }

    /// The bucket record under `id`.
    pub fn bucket(&self, id: EntityId) -> (r: Option<Bucket>)
        ensures
            r == if self@.has_bucket(id) {
                Some(self@.buckets[id])
            } else {
                None::<Bucket>
            },
    {
        match self.buckets.get(&id) {
            Some(b) => Some(*b),
            None => None,
        }
    }

    /// The current owner of bucket `id`.
    pub fn owner_of(&self, id: EntityId) -> (r: Option<AccountId>)
        ensures
            r == if self@.bucket_reg.registered(id) {
                Some(self@.bucket_owner(id))
            } else {
                None::<AccountId>
            },
    {
        self.bucket_reg.owner_of(id)
    }

    /// The author of the promise accepted into bucket `id`.
    pub fn contributor_of(&self, id: EntityId) -> (r: Option<AccountId>)
        ensures
            r == if self@.bucket_contributor.dom().contains(id) {
                Some(self@.bucket_contributor[id])
            } else {
                None::<AccountId>
            },
    {
        match self.bucket_contributor.get(&id) {
            Some(o) => Some(*o),
            None => None,
        }
    }

    pub fn all_buckets_count(&self) -> (n: usize)
        ensures
            n == self@.bucket_reg.all.len(),
    {
        self.bucket_reg.count()
    }

    pub fn bucket_by_index(&self, i: usize) -> (r: Option<EntityId>)
        ensures
            r == if i < self@.bucket_reg.all.len() {
                Some(self@.bucket_reg.all[i as int])
            } else {
                None::<EntityId>
            },
    {
        self.bucket_reg.by_index(i)
    }

    pub fn owned_bucket_count(&self, o: AccountId) -> (n: usize)
        ensures
            n == self@.bucket_reg.owned_seq(o).len(),
    {
        self.bucket_reg.owned_count(o)
    }

    pub fn bucket_of_owner_by_index(&self, o: AccountId, i: usize) -> (r: Option<EntityId>)
        ensures
            r == if i < self@.bucket_reg.owned_seq(o).len() {
                Some(self@.bucket_reg.owned_seq(o)[i as int])
            } else {
                None::<EntityId>
            },
    {
        self.bucket_reg.owned_by_index(o, i)
    }

    /// The free-promise record under `id`; after acceptance this is the
    /// stale free record, not the live accepted copy inside the bucket.
    pub fn promise(&self, id: EntityId) -> (r: Option<FreePromise>)
        ensures
            r == if self@.has_promise(id) {
                Some(self@.promises[id])
            } else {
                None::<FreePromise>
            },
    {
        match self.promises.get(&id) {
            Some(p) => Some(*p),
            None => None,
        }
    }

    pub fn owner_of_promise(&self, id: EntityId) -> (r: Option<AccountId>)
        ensures
            r == if self@.promise_reg.registered(id) {
                Some(self@.promise_owner(id))
            } else {
                None::<AccountId>
            },
    {
        self.promise_reg.owner_of(id)
    }

    pub fn free_promises_count(&self) -> (n: usize)
        ensures
            n == self@.promise_reg.all.len(),
    {
        self.promise_reg.count()
    }

    pub fn free_promise_by_index(&self, i: usize) -> (r: Option<EntityId>)
        ensures
            r == if i < self@.promise_reg.all.len() {
                Some(self@.promise_reg.all[i as int])
            } else {
                None::<EntityId>
            },
    {
        self.promise_reg.by_index(i)
    }

    pub fn owned_promise_count(&self, o: AccountId) -> (n: usize)
        ensures
            n == self@.promise_reg.owned_seq(o).len(),
    {
        self.promise_reg.owned_count(o)
    }

    pub fn promise_of_owner_by_index(&self, o: AccountId, i: usize) -> (r: Option<EntityId>)
        ensures
            r == if i < self@.promise_reg.owned_seq(o).len() {
                Some(self@.promise_reg.owned_seq(o)[i as int])
            } else {
                None::<EntityId>
            },
    {
        self.promise_reg.owned_by_index(o, i)
    }

    pub fn accepted_promises_count(&self) -> (n: usize)
        ensures
            n == self@.accepted_reg.all.len(),
    {
        self.accepted_reg.count()
    }

    pub fn accepted_promise_by_index(&self, i: usize) -> (r: Option<EntityId>)
        ensures
            r == if i < self@.accepted_reg.all.len() {
                Some(self@.accepted_reg.all[i as int])
            } else {
                None::<EntityId>
            },
    {
        self.accepted_reg.by_index(i)
    }

    /// The bucket an accepted promise lives in.
    pub fn bucket_by_promise(&self, promise_id: EntityId) -> (r: Option<EntityId>)
        ensures
            r == if self@.is_accepted(promise_id) {
                Some(self@.accepted_bucket[promise_id])
            } else {
                None::<EntityId>
            },
    {
        match self.accepted_bucket.get(&promise_id) {
            Some(b) => Some(*b),
            None => None,
        }
    }

    pub fn locks_count(&self) -> (n: u64)
        ensures
            n == self@.locks_count,
    {
        self.locks_count
    }

    pub fn lock_for_promise(&self, promise_id: EntityId) -> (r: Option<LockIdentifier>)
        ensures
            r == if self@.lock_for_promise.dom().contains(promise_id) {
                Some(self@.lock_for_promise[promise_id])
            } else {
                None::<LockIdentifier>
            },
    {
        match self.lock_for_promise.get(&promise_id) {
            Some(l) => Some(*l),
            None => None,
        }
    }

    pub fn nonce(&self) -> (n: u64)
        ensures
            n == self@.nonce,
    {
        self.nonce
    }

    /// Whether `promise_id` has been accepted into some bucket.
    pub fn is_promise_accepted(&self, promise_id: EntityId) -> (r: Result<bool, crate::types::Error>)
        ensures
            match r {
                Ok(b) => self@.has_promise(promise_id) && b == self@.is_accepted(promise_id),
                Err(e) => !self@.has_promise(promise_id) && e == crate::types::Error::NotFound,
            },
    {
        if !self.promises.contains_key(&promise_id) {
            return Err(crate::types::Error::NotFound);
        }
        Ok(self.accepted_bucket.contains_key(&promise_id))
    }
}

} // verus!
