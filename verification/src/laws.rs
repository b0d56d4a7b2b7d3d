//! System-wide laws, proved over the transition functions that every
//! operation is specified by.

use vstd::prelude::*;
use crate::types::{AccountId, Balance, EntityId, Error, Event, Tick};
use crate::registry::{insert_tr, lemma_insert_tr, lemma_transfer_tr, transfer_tr, RegistryV};
use crate::ledger::{set_lock_tr, LedgerV};
use crate::promises::accept_promise_tr;
use crate::filling::fill_bucket_tr;
use crate::staking::{lock_matured, stake_to_promise_tr, stake_until, withdraw_staken_tr};
use crate::state::ModuleV;

verus! {

/// A sequence of registry inserts, applied left to right; a failing insert
/// leaves the registry as it was.
pub open spec fn apply_inserts(r: RegistryV, ops: Seq<(AccountId, EntityId)>) -> RegistryV
    decreases ops.len(),
{
    if ops.len() == 0 {
        r
    } else {
        let r1 = apply_inserts(r, ops.drop_last());
        match insert_tr(r1, ops.last().0, ops.last().1) {
            Ok(r2) => r2,
            Err(_) => r1,
        }
    }
}

/// How many of the inserts in `ops` succeed.
pub open spec fn successful_inserts(r: RegistryV, ops: Seq<(AccountId, EntityId)>) -> int
    decreases ops.len(),
{
    if ops.len() == 0 {
        0
    } else {
        successful_inserts(r, ops.drop_last()) + (if insert_tr(
            apply_inserts(r, ops.drop_last()),
            ops.last().0,
            ops.last().1,
        ) is Ok {
            1int
        } else {
            0int
        })
    }
}

/// After any sequence of mints, the global count has grown by exactly the
/// number of successful mints, and the reverse index inverts the global
/// array: `all[all_index[id]] == id` for every registered id.
pub proof fn lemma_mint_sequence_count(r: RegistryV, ops: Seq<(AccountId, EntityId)>)
    requires
        r.wf(),
    ensures
        ({
            let s = apply_inserts(r, ops);
            &&& s.wf()
            &&& s.all.len() == r.all.len() + successful_inserts(r, ops)
            &&& forall|id: EntityId| #[trigger] s.registered(id) ==> s.all[s.all_index[id] as int]
                == id
        }),
    decreases ops.len(),
{
    if ops.len() > 0 {
        lemma_mint_sequence_count(r, ops.drop_last());
        let r1 = apply_inserts(r, ops.drop_last());
        if insert_tr(r1, ops.last().0, ops.last().1) is Ok {
            lemma_insert_tr(r1, ops.last().0, ops.last().1);
        }
    }
}

/// Transfer is a bijection on ownership: after `transfer(id, a, b)`
/// succeeds, `b` owns `id`, `id` sits in `b`'s array exactly once, and not
/// at all in `a`'s.
pub proof fn lemma_transfer_is_bijection_on_ownership(
    r: RegistryV,
    id: EntityId,
    a: AccountId,
    b: AccountId,
)
    requires
        r.wf(),
        a != b,
        transfer_tr(r, id, a, b) is Ok,
    ensures
        ({
            let s = transfer_tr(r, id, a, b)->Ok_0;
            &&& s.owner[id] == b
            &&& s.owned_seq(b)[s.owned_index[id] as int] == id
            &&& forall|k: int|
                0 <= k < s.owned_seq(b).len() && s.owned_seq(b)[k] == id ==> k == s.owned_index[id]
                    as int
            &&& forall|k: int| 0 <= k < s.owned_seq(a).len() ==> s.owned_seq(a)[k] != id
        }),
{
    lemma_transfer_tr(r, id, a, b);
    let s = transfer_tr(r, id, a, b)->Ok_0;
    assert(s.registered(id) && s.owner[id] == b);
    assert forall|k: int| 0 <= k < s.owned_seq(b).len() && s.owned_seq(b)[k] == id implies k
        == s.owned_index[id] as int by {
        assert(s.owned.dom().contains(b));
        assert(s.owned_index[s.owned[b][k]] as int == k);
    }
    assert forall|k: int| 0 <= k < s.owned_seq(a).len() implies s.owned_seq(a)[k] != id by {
        assert(s.owned.dom().contains(a));
        if s.owned[a][k] == id {
            assert(s.owner[s.owned[a][k]] == a);
        }
    }
}

/// The swap-remove behind a transfer relocates only the formerly-last
/// element of `a`'s array into the vacated slot; every other id keeps its
/// position.
pub proof fn lemma_swap_remove_preserves_others(
    r: RegistryV,
    id: EntityId,
    a: AccountId,
    b: AccountId,
)
    requires
        r.wf(),
        a != b,
        transfer_tr(r, id, a, b) is Ok,
    ensures
        ({
            let s = transfer_tr(r, id, a, b)->Ok_0;
            let arr = r.owned_seq(a);
            let i = r.owned_index[id] as int;
            &&& s.owned_seq(a).len() == arr.len() - 1
            &&& i < arr.len() - 1 ==> s.owned_seq(a)[i] == arr[arr.len() - 1]
            &&& forall|j: int|
                0 <= j < s.owned_seq(a).len() && j != i ==> s.owned_seq(a)[j] == arr[j]
        }),
{
    lemma_transfer_tr(r, id, a, b);
}

/// Accepting a promise is idempotent-rejecting: once accepted, a second
/// acceptance of the same promise — into any existing bucket, by anyone,
/// at any tick — fails with `InvalidState` (and a failing acceptance
/// changes nothing, by the operation's contract).
pub proof fn lemma_accept_rejects_twice(
    s: ModuleV,
    now: Tick,
    sender: AccountId,
    promise_id: EntityId,
    bucket_id: EntityId,
    now2: Tick,
    sender2: AccountId,
    bucket_id2: EntityId,
)
    requires
        s.wf(),
        accept_promise_tr(s, now, sender, promise_id, bucket_id) is Ok,
        ({
            let (s1, ev) = accept_promise_tr(s, now, sender, promise_id, bucket_id)->Ok_0;
            s1.has_bucket(bucket_id2)
        }),
    ensures
        ({
            let (s1, ev) = accept_promise_tr(s, now, sender, promise_id, bucket_id)->Ok_0;
            accept_promise_tr(s1, now2, sender2, promise_id, bucket_id2) == Err::<
                (ModuleV, Seq<Event>),
                Error,
            >(Error::InvalidState)
        }),
{
    let (s1, ev) = accept_promise_tr(s, now, sender, promise_id, bucket_id)->Ok_0;
    assert(s1.is_accepted(promise_id));
    assert(s1.has_promise(promise_id));
}

/// Accepting into a bucket that already holds a promise fails with
/// `InvalidState`, whatever else is valid about the call.
pub proof fn lemma_accept_rejects_occupied(
    s: ModuleV,
    now: Tick,
    sender: AccountId,
    promise_id: EntityId,
    bucket_id: EntityId,
)
    requires
        s.wf(),
        s.has_bucket(bucket_id),
        s.has_promise(promise_id),
        !s.is_accepted(promise_id),
        s.bucket_owner(bucket_id) == sender,
        s.promise_owner(promise_id) != sender,
        s.buckets[bucket_id].promise is Some,
    ensures
        accept_promise_tr(s, now, sender, promise_id, bucket_id) == Err::<
            (ModuleV, Seq<Event>),
            Error,
        >(Error::InvalidState),
{
}

/// Self-acceptance is rejected: when the promise's owner also owns the
/// bucket, acceptance fails with `InvalidState` regardless of any other
/// validity — before the bucket's occupancy is even considered.
pub proof fn lemma_self_acceptance_rejected(
    s: ModuleV,
    now: Tick,
    sender: AccountId,
    promise_id: EntityId,
    bucket_id: EntityId,
)
    requires
        s.wf(),
        s.has_bucket(bucket_id),
        s.has_promise(promise_id),
        !s.is_accepted(promise_id),
        s.bucket_owner(bucket_id) == sender,
        s.promise_owner(promise_id) == sender,
    ensures
        accept_promise_tr(s, now, sender, promise_id, bucket_id) == Err::<
            (ModuleV, Seq<Event>),
            Error,
        >(Error::InvalidState),
{
}

/// A sequence of fills of one bucket, each by some sender of some amount,
/// applied left to right; `None` as soon as one fails.
pub open spec fn apply_fills(
    s: ModuleV,
    l: LedgerV,
    bucket_id: EntityId,
    fills: Seq<(AccountId, Balance)>,
) -> Option<(ModuleV, LedgerV, Seq<Event>)>
    decreases fills.len(),
{
    if fills.len() == 0 {
        Some((s, l, Seq::empty()))
    } else {
        match apply_fills(s, l, bucket_id, fills.drop_last()) {
            None => None,
            Some((s1, l1, evs)) => {
                match fill_bucket_tr(s1, l1, fills.last().0, bucket_id, fills.last().1) {
                    Err(_) => None,
                    Ok((s2, l2, ev2)) => Some((s2, l2, evs + ev2)),
                }
            },
        }
    }
}

pub open spec fn sum_amounts(fills: Seq<(AccountId, Balance)>) -> int
    decreases fills.len(),
{
    if fills.len() == 0 {
        0
    } else {
        sum_amounts(fills.drop_last()) + fills.last().1
    }
}

/// How many fulfilment events for `(bucket_id, promise_id)` a log holds.
pub open spec fn count_fulfilled(evs: Seq<Event>, bucket_id: EntityId, promise_id: EntityId) -> int
    decreases evs.len(),
{
    if evs.len() == 0 {
        0
    } else {
        count_fulfilled(evs.drop_last(), bucket_id, promise_id) + (if evs.last()
            == Event::PromiseFulfilled(bucket_id, promise_id) {
            1int
        } else {
            0int
        })
    }
}

proof fn lemma_count_fulfilled_add(
    a: Seq<Event>,
    b: Seq<Event>,
    bucket_id: EntityId,
    promise_id: EntityId,
)
    ensures
        count_fulfilled(a + b, bucket_id, promise_id) == count_fulfilled(a, bucket_id, promise_id)
            + count_fulfilled(b, bucket_id, promise_id),
    decreases b.len(),
{
    if b.len() == 0 {
        assert(a + b =~= a);
    } else {
        lemma_count_fulfilled_add(a, b.drop_last(), bucket_id, promise_id);
        assert((a + b).drop_last() =~= a + b.drop_last());
        assert((a + b).last() == b.last());
    }
}

/// Fill monotonicity: after `n` successful fills of amounts `a_1..a_n` on
/// one bucket's promise, `filled` has grown by exactly their sum, nothing
/// else of the promise has changed, and the whole run emitted the
/// fulfilment event exactly once if the sum reached `value`, and never
/// otherwise.  Which fill carried it is pinned by [`fill_bucket_tr`]: the
/// one whose running sum crossed `value`.
pub proof fn lemma_fill_monotonicity(
    s: ModuleV,
    l: LedgerV,
    bucket_id: EntityId,
    fills: Seq<(AccountId, Balance)>,
)
    requires
        s.has_bucket(bucket_id),
        s.buckets[bucket_id].promise is Some,
        apply_fills(s, l, bucket_id, fills) is Some,
    ensures
        ({
            let pr = s.buckets[bucket_id].promise->Some_0;
            let (s2, l2, evs) = apply_fills(s, l, bucket_id, fills)->Some_0;
            let pr2 = s2.buckets[bucket_id].promise->Some_0;
            &&& s2.has_bucket(bucket_id)
            &&& s2.buckets[bucket_id].promise is Some
            &&& pr2.filled == pr.filled + sum_amounts(fills)
            &&& pr2.id == pr.id
            &&& pr2.value == pr.value
            &&& pr2.period == pr.period
            &&& count_fulfilled(evs, bucket_id, pr.id) == (if pr.filled < pr.value && pr2.filled
                >= pr.value {
                1int
            } else {
                0int
            })
        }),
    decreases fills.len(),
{
    let pr = s.buckets[bucket_id].promise->Some_0;
    if fills.len() == 0 {
        let (s2, l2, evs) = apply_fills(s, l, bucket_id, fills)->Some_0;
        assert(count_fulfilled(evs, bucket_id, pr.id) == 0);
    } else {
        lemma_fill_monotonicity(s, l, bucket_id, fills.drop_last());
        let (s1, l1, evs1) = apply_fills(s, l, bucket_id, fills.drop_last())->Some_0;
        let pr1 = s1.buckets[bucket_id].promise->Some_0;
        let last = fills.last();
        let (s2, l2, ev2) = fill_bucket_tr(s1, l1, last.0, bucket_id, last.1)->Ok_0;
        lemma_count_fulfilled_add(evs1, ev2, bucket_id, pr.id);
        // The last fill went through, so the running sum had not yet
        // reached `value`, and no fulfilment was emitted before it.
        assert(pr1.filled < pr1.value);
        assert(sum_amounts(fills.drop_last()) >= 0) by {
            lemma_sum_amounts_nonneg(fills.drop_last());
        }
        assert(count_fulfilled(evs1, bucket_id, pr.id) == 0);
        let pr2 = s2.buckets[bucket_id].promise->Some_0;
        reveal_with_fuel(count_fulfilled, 3);
        if pr2.filled >= pr.value {
            assert(ev2 == seq![
                Event::PromiseFilled(bucket_id, pr.id, last.1),
                Event::PromiseFulfilled(bucket_id, pr.id),
            ]);
            assert(ev2.drop_last() =~= seq![Event::PromiseFilled(bucket_id, pr.id, last.1)]);
            assert(ev2.drop_last().drop_last() =~= Seq::<Event>::empty());
            assert(count_fulfilled(ev2, bucket_id, pr.id) == 1);
        } else {
            assert(ev2 == seq![Event::PromiseFilled(bucket_id, pr.id, last.1)]);
            assert(ev2.drop_last() =~= Seq::<Event>::empty());
            assert(count_fulfilled(ev2, bucket_id, pr.id) == 0);
        }
    }
}

proof fn lemma_sum_amounts_nonneg(fills: Seq<(AccountId, Balance)>)
    ensures
        sum_amounts(fills) >= 0,
    decreases fills.len(),
{
    if fills.len() > 0 {
        lemma_sum_amounts_nonneg(fills.drop_last());
    }
}

/// How many breach events for `promise_id` a log holds.
pub open spec fn count_breached(evs: Seq<Event>, promise_id: EntityId) -> int
    decreases evs.len(),
{
    if evs.len() == 0 {
        0
    } else {
        count_breached(evs.drop_last(), promise_id) + (match evs.last() {
            Event::PromiseBreached(b, p, w) => if p == promise_id {
                1int
            } else {
                0int
            },
            _ => 0int,
        })
    }
}

/// The condition under which a scan at `now` flags the accepted promise
/// `promise_id`: a whole number of periods has elapsed since acceptance
/// and the excess of `filled` over `value` is strictly positive.
pub open spec fn breach_condition(s: ModuleV, now: Tick, promise_id: EntityId) -> bool {
    let pr = s.buckets[s.accepted_bucket[promise_id]].promise->Some_0;
    &&& now >= pr.acception_dt
    &&& pr.period != 0
    &&& (now - pr.acception_dt) % (pr.period as int) == 0
    &&& pr.filled > pr.value
}

proof fn lemma_scan_upto_count(s: ModuleV, now: Tick, promise_id: EntityId, n: int)
    requires
        s.wf(),
        0 <= n <= s.accepted_reg.all.len(),
    ensures
        count_breached(crate::scanner::scan_events_upto(s, now, n), promise_id) == (if (exists|
            k: int,
        |
            0 <= k < n && s.accepted_reg.all[k] == promise_id) && s.is_accepted(promise_id)
            && breach_condition(s, now, promise_id) {
            1int
        } else {
            0int
        }),
    decreases n,
{
    if n > 0 {
        lemma_scan_upto_count(s, now, promise_id, n - 1);
        let prefix = crate::scanner::scan_events_upto(s, now, n - 1);
        let pid2 = s.accepted_reg.all[n - 1];
        let one = crate::scanner::scan_one(s, now, pid2);
        assert(crate::scanner::scan_events_upto(s, now, n) == prefix + one);
        lemma_count_breached_add(prefix, one, promise_id);
        reveal_with_fuel(count_breached, 2);
        if pid2 == promise_id {
            // no earlier occurrence: the reverse index is injective
            assert forall|k: int| 0 <= k < n - 1 implies s.accepted_reg.all[k] != promise_id by {
                if s.accepted_reg.all[k] == promise_id {
                    assert(s.accepted_reg.all_index[s.accepted_reg.all[k]] as int == k);
                    assert(s.accepted_reg.all_index[s.accepted_reg.all[n - 1]] as int == n - 1);
                }
            }
            if s.is_accepted(promise_id) && breach_condition(s, now, promise_id) {
                let bid = s.accepted_bucket[promise_id];
                let pr = s.buckets[bid].promise->Some_0;
                assert(one == seq![
                    Event::PromiseBreached(bid, promise_id, (pr.filled - pr.value) as u64),
                ]);
                assert(one.drop_last() =~= Seq::<Event>::empty());
                assert(count_breached(one, promise_id) == 1);
            } else {
                if s.is_accepted(promise_id) {
                    assert(one =~= Seq::<Event>::empty());
                } else {
                    assert(s.accepted_reg.registered(pid2));
                    assert(s.accepted_bucket.dom() =~= s.accepted_reg.owner.dom());
                    assert(false);
                }
                assert(count_breached(one, promise_id) == 0);
            }
        } else {
            assert(count_breached(one, promise_id) == 0) by {
                if s.is_accepted(pid2) && breach_condition(s, now, pid2) {
                    let bid2 = s.accepted_bucket[pid2];
                    let pr2 = s.buckets[bid2].promise->Some_0;
                    assert(one == seq![
                        Event::PromiseBreached(bid2, pid2, (pr2.filled - pr2.value) as u64),
                    ]);
                    assert(one.drop_last() =~= Seq::<Event>::empty());
                } else {
                    if s.accepted_bucket.dom().contains(pid2) {
                        assert(one =~= Seq::<Event>::empty());
                    } else {
                        assert(one =~= Seq::<Event>::empty());
                    }
                }
            }
        }
    }
}

proof fn lemma_count_breached_add(a: Seq<Event>, b: Seq<Event>, promise_id: EntityId)
    ensures
        count_breached(a + b, promise_id) == count_breached(a, promise_id) + count_breached(
            b,
            promise_id,
        ),
    decreases b.len(),
{
    if b.len() == 0 {
        assert(a + b =~= a);
    } else {
        lemma_count_breached_add(a, b.drop_last(), promise_id);
        assert((a + b).drop_last() =~= a + b.drop_last());
        assert((a + b).last() == b.last());
    }
}

/// Breach detection fires exactly once per scan for an accepted promise
/// whose period boundary has elapsed and whose excess is positive, and
/// never otherwise; the scan itself mutates nothing, taking the state by
/// shared reference.
pub proof fn lemma_breach_fires_once_per_scan(s: ModuleV, now: Tick, promise_id: EntityId)
    requires
        s.wf(),
        s.is_accepted(promise_id),
    ensures
        count_breached(crate::scanner::scan_events(s, now), promise_id) == (if breach_condition(
            s,
            now,
            promise_id,
        ) {
            1int
        } else {
            0int
        }),
{
    let n = s.accepted_reg.all.len() as int;
    assert(s.accepted_bucket.dom() =~= s.accepted_reg.owner.dom());
    assert(s.accepted_reg.registered(promise_id));
    let k = s.accepted_reg.all_index[promise_id] as int;
    assert(0 <= k < n && s.accepted_reg.all[k] == promise_id);
    lemma_scan_upto_count(s, now, promise_id, n);
}

/// A promise never accepted is never flagged by a scan.
pub proof fn lemma_no_breach_unaccepted(s: ModuleV, now: Tick, promise_id: EntityId)
    requires
        s.wf(),
        !s.is_accepted(promise_id),
    ensures
        count_breached(crate::scanner::scan_events(s, now), promise_id) == 0,
{
    lemma_scan_upto_count(s, now, promise_id, s.accepted_reg.all.len() as int);
}

/// A second stake on a promise with an existing lock extends that same
/// lock — the recorded identifier, the lock counter and the set of lock
/// identifiers on the ledger all stay as they were — rather than creating
/// a second one; and it succeeds whenever the new total fits.
pub proof fn lemma_stake_extends_same_lock(
    s: ModuleV,
    l: LedgerV,
    sender: AccountId,
    promise_id: EntityId,
    amount1: Balance,
    amount2: Balance,
)
    requires
        s.wf(),
        l.wf(),
        stake_to_promise_tr(s, l, sender, promise_id, amount1) is Ok,
        ({
            let (s1, l1, ev1) = stake_to_promise_tr(s, l, sender, promise_id, amount1)->Ok_0;
            l1.lock_of(sender, s1.lock_for_promise[promise_id]).amount + amount2 <= u64::MAX
        }),
    ensures
        ({
            let (s1, l1, ev1) = stake_to_promise_tr(s, l, sender, promise_id, amount1)->Ok_0;
            let r2 = stake_to_promise_tr(s1, l1, sender, promise_id, amount2);
            &&& r2 is Ok
            &&& ({
                let (s2, l2, ev2) = r2->Ok_0;
                &&& s2.lock_for_promise == s1.lock_for_promise
                &&& s2.locks_count == s1.locks_count
                &&& l2.locks_of(sender).len() == l1.locks_of(sender).len()
                &&& forall|k: int|
                    0 <= k < l1.locks_of(sender).len() ==> l2.locks_of(sender)[k].id
                        == l1.locks_of(sender)[k].id
            })
        }),
{
    let (s1, l1, ev1) = stake_to_promise_tr(s, l, sender, promise_id, amount1)->Ok_0;
    let lock_id = s1.lock_for_promise[promise_id];
    assert(s1.lock_for_promise.dom().contains(promise_id));
    assert(s1.buckets == s.buckets && s1.accepted_bucket == s.accepted_bucket && s1.promises
        == s.promises && s1.promise_reg == s.promise_reg);
    assert(stake_until(s1, promise_id) == stake_until(s, promise_id));
    // The first stake left exactly this lock on the ledger.
    assert(l1.has_lock(sender, lock_id)) by {
        lemma_set_lock_has(l, lock_id, sender);
    }
    let (s2, l2, ev2) = stake_to_promise_tr(s1, l1, sender, promise_id, amount2)->Ok_0;
    assert(l1.wf()) by {
        lemma_set_lock_wf(l, lock_id, sender);
    }
    let pos1 = l1.lock_at(sender, lock_id);
    assert(l2.locks_of(sender) == l1.locks_of(sender).update(
        pos1,
        crate::ledger::BalanceLock {
            id: lock_id,
            amount: (l1.lock_of(sender, lock_id).amount + amount2) as u64,
            until: stake_until(s1, promise_id)->Ok_0,
        },
    ));
    assert forall|k: int| 0 <= k < l1.locks_of(sender).len() implies l2.locks_of(sender)[k].id
        == l1.locks_of(sender)[k].id by {
        if k == pos1 {
            assert(l1.locks_of(sender)[pos1].id == lock_id);
        }
    }
}

/// After a lock is set, the account holds a lock under that identifier.
proof fn lemma_set_lock_has(l: LedgerV, id: u64, who: AccountId)
    ensures
        forall|amount: Balance, until: Option<Tick>| #[trigger] set_lock_tr(
            l,
            id,
            who,
            amount,
            until,
        ).has_lock(who, id),
{
    assert forall|amount: Balance, until: Option<Tick>| #[trigger] set_lock_tr(
        l,
        id,
        who,
        amount,
        until,
    ).has_lock(who, id) by {
        let l1 = set_lock_tr(l, id, who, amount, until);
        if l.has_lock(who, id) {
            assert(l1.locks_of(who)[l.lock_at(who, id)].id == id);
        } else {
            assert(l1.locks_of(who)[l1.locks_of(who).len() - 1].id == id);
        }
    }
}

/// Setting a lock keeps the ledger's per-account identifier uniqueness.
proof fn lemma_set_lock_wf(l: LedgerV, id: u64, who: AccountId)
    requires
        l.wf(),
    ensures
        forall|amount: Balance, until: Option<Tick>| #[trigger] set_lock_tr(
            l,
            id,
            who,
            amount,
            until,
        ).wf(),
{
    assert forall|amount: Balance, until: Option<Tick>| #[trigger] set_lock_tr(
        l,
        id,
        who,
        amount,
        until,
    ).wf() by {
        let sl = set_lock_tr(l, id, who, amount, until);
        assert forall|w: AccountId, i: int, j: int|
            sl.locks.dom().contains(w) && 0 <= i < j < sl.locks[w].len() implies (
        #[trigger] sl.locks[w][i]).id != (#[trigger] sl.locks[w][j]).id by {
            if w == who {
                if l.has_lock(who, id) {
                    let k = l.lock_at(who, id);
                    assert(l.locks_of(who)[k].id == id);
                    if i != k {
                        assert(sl.locks[w][i] == l.locks_of(who)[i]);
                    }
                    if j != k {
                        assert(sl.locks[w][j] == l.locks_of(who)[j]);
                    }
                } else {
                    if j < sl.locks[w].len() - 1 {
                        assert(sl.locks[w][i] == l.locks_of(who)[i]);
                        assert(sl.locks[w][j] == l.locks_of(who)[j]);
                    } else {
                        assert(sl.locks[w][j].id == id);
                        assert(sl.locks[w][i] == l.locks_of(who)[i]);
                    }
                }
            } else {
                assert(sl.locks[w] == l.locks_of(w));
                assert(l.locks.dom().contains(w));
            }
        }
    }
}

/// Withdrawal enforces its preconditions: with a recorded lock present on
/// the ledger, withdrawing an accepted promise's stake always fails with
/// `StillAttached`; an unaccepted one before maturity fails with
/// `LockNotMature`; and otherwise exactly the locked amount is freed — the
/// event reports it and the lock is gone from the ledger.
pub proof fn lemma_withdraw_preconditions(
    s: ModuleV,
    l: LedgerV,
    now: Tick,
    sender: AccountId,
    promise_id: EntityId,
)
    requires
        s.wf(),
        l.wf(),
        s.has_promise(promise_id),
        s.promise_owner(promise_id) == sender,
        s.lock_for_promise.dom().contains(promise_id),
        l.has_lock(sender, s.lock_for_promise[promise_id]),
    ensures
        ({
            let lock_id = s.lock_for_promise[promise_id];
            let lock = l.lock_of(sender, lock_id);
            let r = withdraw_staken_tr(s, l, now, sender, promise_id);
            &&& s.is_accepted(promise_id) ==> r == Err::<(ModuleV, LedgerV, Seq<Event>), Error>(
                Error::StillAttached,
            )
            &&& !s.is_accepted(promise_id) && !lock_matured(lock.until, now) ==> r == Err::<
                (ModuleV, LedgerV, Seq<Event>),
                Error,
            >(Error::LockNotMature)
            &&& !s.is_accepted(promise_id) && lock_matured(lock.until, now) ==> {
                &&& r is Ok
                &&& ({
                    let (s2, l2, evs) = r->Ok_0;
                    &&& evs == seq![Event::Withdraw(promise_id, sender, lock.amount)]
                    &&& s2 == s
                    &&& !l2.has_lock(sender, lock_id)
                    &&& l2.balances == l.balances
                })
            }
        }),
{
    let lock_id = s.lock_for_promise[promise_id];
    let lock = l.lock_of(sender, lock_id);
    if !s.is_accepted(promise_id) && lock_matured(lock.until, now) {
        let (s2, l2, evs) = withdraw_staken_tr(s, l, now, sender, promise_id)->Ok_0;
        let k = l.lock_at(sender, lock_id);
        assert(l2.locks_of(sender) == l.locks_of(sender).remove(k));
        assert forall|j: int| 0 <= j < l2.locks_of(sender).len() implies l2.locks_of(sender)[j].id
            != lock_id by {
            let olds = l.locks_of(sender);
            assert(l2.locks_of(sender)[j] == if j < k {
                olds[j]
            } else {
                olds[j + 1]
            });
            assert(olds[k].id == lock_id);
        }
    }
}

} // verus!
