//! Plain data carried through the core: entities, domain events and the
//! error taxonomy.

use vstd::prelude::*;

verus! {

/// Identity of an account, resolved by the host before any operation runs.
pub type AccountId = u64;

/// Identifier of a bucket or promise, derived outside the core by a
/// domain-separated hash; the core only checks it for collisions.
pub type EntityId = u64;

/// An amount of currency on the balance ledger.
pub type Balance = u64;

/// The discrete time unit advanced by the host driver.
pub type Tick = u64;

/// Identifier of a balance lock, allocated from the core's own counter.
pub type LockIdentifier = u64;

/// A tradable ownership token.  It may carry one accepted promise and a sale
/// price; `price == 0` means it is not for sale.  Buckets are never destroyed
/// once minted.
#[derive(Clone, Copy, PartialEq, Eq, Debug)]
pub struct Bucket {
    pub id: EntityId,
    pub promise: Option<Promise>,
    pub price: Balance,
}

/// An accepted promise, embedded in exactly one bucket: the obligation to
/// deposit `value` every `period` ticks, from acceptance until `until`
/// (`None` = unbounded).  `filled` accumulates the deposits made so far.
#[derive(Clone, Copy, PartialEq, Eq, Debug)]
pub struct Promise {
    pub id: EntityId,
    /// The account that created the promise.
    pub owner: AccountId,
    pub value: Balance,
    pub period: Tick,
    pub until: Option<Tick>,
    pub filled: Balance,
    /// The tick at which the promise was accepted.
    pub acception_dt: Tick,
}

/// A promise not yet accepted into any bucket.  The record stays in storage
/// after acceptance; the accepted copy inside the bucket is then the live
/// one.
#[derive(Clone, Copy, PartialEq, Eq, Debug)]
pub struct FreePromise {
    pub id: EntityId,
    pub value: Balance,
    pub period: Tick,
    pub until: Option<Tick>,
}

/// The error taxonomy.  Every operation detects its error before any write
/// lands, so a failed call leaves all state untouched.
#[derive(Clone, Copy, PartialEq, Eq, Structural, Debug)]
pub enum Error {
    /// A referenced bucket, promise or lock does not exist.
    NotFound,
    /// The caller lacks the required ownership.
    NotOwner,
    /// Identifier collision on mint.
    AlreadyExists,
    /// A state rule rejects the call: self-acceptance, an already accepted
    /// promise, an occupied bucket, a zero-value promise, a fulfilled
    /// promise, not for sale, price above the ceiling, or filling or buying
    /// one's own bucket.
    InvalidState,
    /// Checked counter or balance arithmetic would overflow.
    ArithmeticOverflow,
    /// Checked balance arithmetic would underflow.
    ArithmeticUnderflow,
    /// The payer's balance does not cover the transfer.
    InsufficientBalance,
    /// The ledger does not report exactly one lock under the recorded
    /// identifier.
    LockLookupInconsistent,
    /// The promise is accepted, so its stake cannot be withdrawn.
    StillAttached,
    /// The lock's expiry is still in the future.
    LockNotMature,
}

/// Domain events, handed back to the host's event sink in emission order.
#[derive(Clone, Copy, PartialEq, Eq, Structural, Debug)]
pub enum Event {
    /// (owner, bucket)
    BucketCreated(AccountId, EntityId),
    /// (owner, bucket, new price)
    PriceSet(AccountId, EntityId, Balance),
    /// (from, to, bucket)
    Transferred(AccountId, AccountId, EntityId),
    /// (buyer, seller, bucket, price paid)
    Bought(AccountId, AccountId, EntityId, Balance),
    /// (owner, promise)
    PromiseCreated(AccountId, EntityId),
    /// (promise)
    PromiseChanged(EntityId),
    /// (promise, bucket)
    PromiseAccepted(EntityId, EntityId),
    /// (bucket, promise, deposit)
    PromiseFilled(EntityId, EntityId, Balance),
    /// (bucket, promise)
    PromiseFulfilled(EntityId, EntityId),
    /// (bucket, promise, excess of `filled` over `value`)
    PromiseBreached(EntityId, EntityId, Balance),
    /// (promise, staker, amount added)
    Stake(EntityId, AccountId, Balance),
    /// (promise, staker, amount freed)
    Withdraw(EntityId, AccountId, Balance),
}

} // verus!
