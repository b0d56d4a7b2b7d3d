//! The per-tick breach scanner: a pure detection pass over every accepted
//! promise, in registration order, that mutates nothing.

use vstd::prelude::*;
use crate::types::{EntityId, Event, Tick};
use crate::state::{Module, ModuleV};

verus! {

/// The events one accepted promise contributes to a scan at `now`.  A
/// vanished bucket or promise record is skipped defensively, as is a tick
/// before acceptance or a zero period, which has no boundary.  At a period
/// boundary the scanner compares `filled` against `value` and reports the
/// excess of deposits over the promised value: by this sign convention
/// only an overfilled promise is flagged, and the scan emits one breach
/// event for it.
pub open spec fn scan_one(s: ModuleV, now: Tick, pid: EntityId) -> Seq<Event> {
    if !s.accepted_bucket.dom().contains(pid) {
        Seq::empty()
    } else {
        let bid = s.accepted_bucket[pid];
        if !s.buckets.dom().contains(bid) {
            Seq::empty()
        } else {
            match s.buckets[bid].promise {
                None => Seq::empty(),
                Some(pr) => {
                    if now < pr.acception_dt || pr.period == 0 {
                        Seq::empty()
                    } else if (now - pr.acception_dt) % (pr.period as int) == 0 && pr.filled
                        > pr.value {
                        seq![Event::PromiseBreached(bid, pid, (pr.filled - pr.value) as u64)]
                    } else {
                        Seq::empty()
                    }
                },
            }
        }
    }
}

/// The events of a whole scan over the first `n` accepted promises.
pub open spec fn scan_events_upto(s: ModuleV, now: Tick, n: int) -> Seq<Event>
    decreases n,
{
    if n <= 0 {
        Seq::empty()
    } else {
        scan_events_upto(s, now, n - 1) + scan_one(s, now, s.accepted_reg.all[n - 1])
    }
}

/// The events of a whole scan.
pub open spec fn scan_events(s: ModuleV, now: Tick) -> Seq<Event> {
    scan_events_upto(s, now, s.accepted_reg.all.len() as int)
}

impl Module {
    /// Runs the breach check for tick `now` over every accepted promise and
    /// returns the breach events; the state is only read.
    pub fn on_finalise(&self, now: Tick) -> (evs: Vec<Event>)
        requires
            self@.wf(),
        ensures
            evs@ == scan_events(self@, now),
    {
        let mut evs: Vec<Event> = Vec::new();
        let n = self.accepted_reg.count();
        let mut i: usize = 0;
        while i < n
            invariant
                self@.wf(),
                n == self@.accepted_reg.all.len(),
                i <= n,
                evs@ == scan_events_upto(self@, now, i as int),
            decreases n - i,
        {
            let pid = self.accepted_reg.by_index(i).unwrap();
            match self.accepted_bucket.get(&pid) {
                None => {},
                Some(bid_ref) => {
                    let bid = *bid_ref;
                    match self.buckets.get(&bid) {
                        None => {},
                        Some(b) => match b.promise {
                            None => {},
                            Some(pr) => {
                                if now >= pr.acception_dt && pr.period != 0 {
                                    let lifetime = now - pr.acception_dt;
                                    if lifetime % pr.period == 0 && pr.filled > pr.value {
                                        evs.push(
                                            Event::PromiseBreached(
                                                bid,
                                                pid,
                                                pr.filled - pr.value,
                                            ),
                                        );
                                    }
                                }
                            },
                        },
                    }
                },
            }
            proof {
                assert(evs@ =~= scan_events_upto(self@, now, i + 1));
            }
            i += 1;
        }
        evs
    }
}

} // verus!
