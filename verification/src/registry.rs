//! The enumerable ownership registry: a dense global array of ids with a
//! reverse index, a dense per-owner array with its reverse index, and an
//! owner map, kept mutually consistent.  Insert appends in O(1); taking an
//! id away from an owner swaps the last element into its slot.
//!
//! The same structure is instantiated three times by the core: for buckets,
//! for free promises and for accepted promises.

use vstd::prelude::*;
use std::collections::HashMap;
use crate::types::{AccountId, EntityId, Error};

verus! {

broadcast use vstd::std_specs::hash::group_hash_axioms;

/// Ghost model of a registry: the global array, both reverse indices, the
/// per-owner arrays and the owner map.
#[verifier::ext_equal]
pub ghost struct RegistryV {
    /// All registered ids, in registration order.
    pub all: Seq<EntityId>,
    /// Position of each registered id in `all`.
    pub all_index: Map<EntityId, usize>,
    /// Dense array of ids per owner.
    pub owned: Map<AccountId, Seq<EntityId>>,
    /// Position of each registered id in its owner's array.
    pub owned_index: Map<EntityId, usize>,
    /// Current owner of each registered id.
    pub owner: Map<EntityId, AccountId>,
}

impl RegistryV {
    /// The ids in `o`'s dense array; an owner never inserted has an empty one.
    pub open spec fn owned_seq(self, o: AccountId) -> Seq<EntityId> {
        if self.owned.dom().contains(o) {
            self.owned[o]
        } else {
            Seq::empty()
        }
    }

    pub open spec fn registered(self, id: EntityId) -> bool {
        self.owner.dom().contains(id)
    }

    /// Mutual consistency of the five structures: both index maps cover
    /// exactly the registered ids and invert the arrays, every array slot
    /// holds a registered id, and each id sits in exactly its owner's array.
    pub open spec fn wf(self) -> bool {
        &&& self.all_index.dom() =~= self.owner.dom()
        &&& self.owned_index.dom() =~= self.owner.dom()
        &&& forall|id: EntityId| #[trigger] self.owner.dom().contains(id) ==> {
            &&& (self.all_index[id] as int) < self.all.len()
            &&& self.all[self.all_index[id] as int] == id
            &&& self.owned.dom().contains(self.owner[id])
            &&& (self.owned_index[id] as int) < self.owned[self.owner[id]].len()
            &&& self.owned[self.owner[id]][self.owned_index[id] as int] == id
        }
        &&& forall|i: int| 0 <= i < self.all.len() ==> {
            &&& self.owner.dom().contains(#[trigger] self.all[i])
            &&& self.all_index[self.all[i]] as int == i
        }
        &&& forall|o: AccountId, i: int|
            self.owned.dom().contains(o) && 0 <= i < self.owned[o].len() ==> {
                &&& self.owner.dom().contains(#[trigger] self.owned[o][i])
                &&& self.owner[self.owned[o][i]] == o
                &&& self.owned_index[self.owned[o][i]] as int == i
            }
    }

    pub open spec fn empty() -> RegistryV {
        RegistryV {
            all: Seq::empty(),
            all_index: Map::empty(),
            owned: Map::empty(),
            owned_index: Map::empty(),
            owner: Map::empty(),
        }
    }
}

/// What a successful insert does: register `id`, append it to the global
/// array and to `to`'s array, and record both positions and the owner.
/// It fails on an id already registered, or when a dense array is at the
/// machine's size limit.
pub open spec fn insert_tr(r: RegistryV, to: AccountId, id: EntityId) -> Result<RegistryV, Error> {
    if r.registered(id) {
        Err(Error::AlreadyExists)
    } else if r.owned_seq(to).len() >= usize::MAX {
        Err(Error::ArithmeticOverflow)
    } else if r.all.len() >= usize::MAX {
        Err(Error::ArithmeticOverflow)
    } else {
        Ok(RegistryV {
            all: r.all.push(id),
            all_index: r.all_index.insert(id, r.all.len() as usize),
            owned: r.owned.insert(to, r.owned_seq(to).push(id)),
            owned_index: r.owned_index.insert(id, r.owned_seq(to).len() as usize),
            owner: r.owner.insert(id, to),
        })
    }
}

/// What a successful transfer does: take `id` out of `from`'s dense array by
/// moving the last element into its slot and shortening the array by one,
/// append `id` to `to`'s array, and point the owner map at `to`.  The global
/// array is untouched: global enumeration keeps registration order.
pub open spec fn transfer_tr(
    r: RegistryV,
    id: EntityId,
    from: AccountId,
    to: AccountId,
) -> Result<RegistryV, Error> {
    if !r.registered(id) {
        Err(Error::NotFound)
    } else if r.owner[id] != from {
        Err(Error::NotOwner)
    } else if r.owned_seq(to).len() >= usize::MAX {
        Err(Error::ArithmeticOverflow)
    } else {
        let from_arr = r.owned_seq(from);
        let i = r.owned_index[id] as int;
        let last = from_arr.last();
        let removed = from_arr.update(i, last).drop_last();
        let owned1 = r.owned.insert(from, removed);
        let to_arr = if from == to {
            removed
        } else {
            r.owned_seq(to)
        };
        let oi1 = if i != from_arr.len() - 1 {
            r.owned_index.insert(last, i as usize)
        } else {
            r.owned_index
        };
        Ok(RegistryV {
            all: r.all,
            all_index: r.all_index,
            owned: owned1.insert(to, to_arr.push(id)),
            owned_index: oi1.insert(id, to_arr.len() as usize),
            owner: r.owner.insert(id, to),
        })
    }
}

/// A successful insert preserves well-formedness, lengthens the global array
/// by one, and leaves every other owner's array alone.
pub proof fn lemma_insert_tr(r: RegistryV, to: AccountId, id: EntityId)
    requires
        r.wf(),
        insert_tr(r, to, id) is Ok,
    ensures
        ({
            let s = insert_tr(r, to, id)->Ok_0;
            &&& s.wf()
            &&& s.all == r.all.push(id)
            &&& s.all.len() == r.all.len() + 1
            &&& s.owner == r.owner.insert(id, to)
            &&& s.owned_seq(to) == r.owned_seq(to).push(id)
            &&& forall|o: AccountId| o != to ==> #[trigger] s.owned_seq(o) == r.owned_seq(o)
        }),
{
    let s = insert_tr(r, to, id)->Ok_0;
    assert forall|o: AccountId| o != to implies #[trigger] s.owned_seq(o) == r.owned_seq(o) by {
        assert(s.owned.dom().contains(o) <==> r.owned.dom().contains(o));
    }
    assert forall|jd: EntityId| #[trigger] s.owner.dom().contains(jd) implies {
        &&& (s.all_index[jd] as int) < s.all.len()
        &&& s.all[s.all_index[jd] as int] == jd
        &&& s.owned.dom().contains(s.owner[jd])
        &&& (s.owned_index[jd] as int) < s.owned[s.owner[jd]].len()
        &&& s.owned[s.owner[jd]][s.owned_index[jd] as int] == jd
    } by {
        if jd != id {
            assert(r.owner.dom().contains(jd));
            if s.owner[jd] == to {
                assert(s.owned[to] == r.owned_seq(to).push(id));
            }
        }
    }
    assert forall|o: AccountId, i: int|
        s.owned.dom().contains(o) && 0 <= i < s.owned[o].len() implies {
            &&& s.owner.dom().contains(#[trigger] s.owned[o][i])
            &&& s.owner[s.owned[o][i]] == o
            &&& s.owned_index[s.owned[o][i]] as int == i
        } by {
        if o == to {
            if i < r.owned_seq(to).len() {
                assert(s.owned[o][i] == r.owned_seq(to)[i]);
                assert(r.owned.dom().contains(to));
            } else {
                assert(s.owned[o][i] == id);
            }
        } else {
            assert(r.owned.dom().contains(o));
            assert(s.owned[o] == r.owned[o]);
        }
    }
}

/// A successful transfer preserves well-formedness; `to`'s array gains `id`
/// at its end, `from`'s loses it by the swap, the global array and every
/// third owner's array are untouched.
pub proof fn lemma_transfer_tr(r: RegistryV, id: EntityId, from: AccountId, to: AccountId)
    requires
        r.wf(),
        transfer_tr(r, id, from, to) is Ok,
    ensures
        ({
            let s = transfer_tr(r, id, from, to)->Ok_0;
            let i = r.owned_index[id] as int;
            let from_arr = r.owned_seq(from);
            let removed = from_arr.update(i, from_arr.last()).drop_last();
            &&& s.wf()
            &&& s.all == r.all
            &&& s.owner == r.owner.insert(id, to)
            &&& from != to ==> s.owned_seq(from) == removed
            &&& from != to ==> s.owned_seq(to) == r.owned_seq(to).push(id)
            &&& from == to ==> s.owned_seq(to) == removed.push(id)
            &&& forall|o: AccountId| o != to && o != from ==> #[trigger] s.owned_seq(o)
                == r.owned_seq(o)
        }),
{
    let s = transfer_tr(r, id, from, to)->Ok_0;
    let from_arr = r.owned_seq(from);
    let i = r.owned_index[id] as int;
    let last = from_arr.last();
    let removed = from_arr.update(i, last).drop_last();
    assert(r.owned.dom().contains(from));
    assert(from_arr[i] == id);
    assert(0 <= i < from_arr.len());
    // The element moved down is registered and was at the tail.
    assert(from_arr[from_arr.len() - 1] == last);
    assert(r.owner.dom().contains(last) && r.owner[last] == from);
    assert(r.owned_index[last] as int == from_arr.len() - 1);
    // `last == id` exactly when `id` already sat at the tail.
    assert(last == id <==> i == from_arr.len() - 1) by {
        if last == id {
            assert(r.owned_index[id] as int == from_arr.len() - 1);
        }
    }
    assert forall|o: AccountId| o != to && o != from implies #[trigger] s.owned_seq(o)
        == r.owned_seq(o) by {
        assert(s.owned.dom().contains(o) <==> r.owned.dom().contains(o));
    }
    assert forall|jd: EntityId| #[trigger] s.owner.dom().contains(jd) implies {
        &&& (s.all_index[jd] as int) < s.all.len()
        &&& s.all[s.all_index[jd] as int] == jd
        &&& s.owned.dom().contains(s.owner[jd])
        &&& (s.owned_index[jd] as int) < s.owned[s.owner[jd]].len()
        &&& s.owned[s.owner[jd]][s.owned_index[jd] as int] == jd
    } by {
        assert(r.owner.dom().contains(jd));
        let o2 = s.owner[jd];
        if jd == id {
            assert(s.owned[to].last() == id);
        } else if jd == last && i != from_arr.len() - 1 {
            // moved into slot i of `from`'s array
            assert(s.owned_index[jd] as int == i);
            assert(s.owner[jd] == from);
            if from == to {
                assert(s.owned[from] == removed.push(id));
                assert(s.owned[from][i] == removed[i]);
            } else {
                assert(s.owned[from] == removed);
            }
            assert(removed[i] == last);
        } else {
            // untouched id: same owner, same slot
            assert(s.owner[jd] == r.owner[jd]);
            assert(s.owned_index[jd] == r.owned_index[jd]);
            let j = r.owned_index[jd] as int;
            if o2 == from || o2 == to {
                // jd sits below the removed tail of `from`, or anywhere in `to`
                if o2 == from {
                    assert(j != i);
                    assert(j != from_arr.len() - 1) by {
                        if j == from_arr.len() - 1 {
                            assert(from_arr[j] == jd);
                        }
                    }
                    assert(j < from_arr.len() - 1);
                    assert(removed[j] == from_arr[j]);
                    if from == to {
                        assert(s.owned[o2] == removed.push(id));
                    } else {
                        assert(s.owned[o2] == removed);
                    }
                } else {
                    assert(from != to);
                    assert(s.owned[o2] == r.owned_seq(to).push(id));
                    assert(r.owned.dom().contains(o2));
                    assert(r.owned[o2][j] == jd);
                }
            } else {
                assert(s.owned[o2] == r.owned[o2]);
            }
        }
    }
    assert forall|o: AccountId, k: int|
        s.owned.dom().contains(o) && 0 <= k < s.owned[o].len() implies {
            &&& s.owner.dom().contains(#[trigger] s.owned[o][k])
            &&& s.owner[s.owned[o][k]] == o
            &&& s.owned_index[s.owned[o][k]] as int == k
        } by {
        let e = s.owned[o][k];
        if o == to && k == s.owned[o].len() - 1 {
            assert(e == id);
        } else if o == to && from == to {
            assert(s.owned[o] == removed.push(id));
            assert(e == removed[k]);
            if k == i && i != from_arr.len() - 1 {
                assert(e == last);
            } else {
                assert(e == from_arr[k]);
                assert(r.owned_index[e] as int == k);
                assert(e != id);
                assert(e != last || i == from_arr.len() - 1);
                if e == last {
                    assert(k == from_arr.len() - 1);
                    assert(k < removed.len());
                    assert(false);
                }
            }
        } else if o == to {
            assert(s.owned[o] == r.owned_seq(to).push(id));
            assert(e == r.owned_seq(to)[k]);
            assert(r.owned.dom().contains(to));
            assert(r.owner[e] == to);
            assert(e != id && e != last);
        } else if o == from {
            assert(s.owned[o] == removed);
            if k == i && i != from_arr.len() - 1 {
                assert(e == last);
            } else {
                assert(e == from_arr[k]);
                assert(r.owned_index[e] as int == k);
                assert(e != id);
                if e == last {
                    assert(k == from_arr.len() - 1);
                    assert(false);
                }
            }
        } else {
            assert(s.owned[o] == r.owned[o]);
            assert(r.owner[e] == o);
            assert(e != id && e != last);
        }
    }
}

/// One enumerable ownership registry.
pub struct Registry {
    pub all: Vec<EntityId>,
    pub all_index: HashMap<EntityId, usize>,
    pub owned: HashMap<AccountId, Vec<EntityId>>,
    pub owned_index: HashMap<EntityId, usize>,
    pub owner: HashMap<EntityId, AccountId>,
}

impl View for Registry {
    type V = RegistryV;

    open spec fn view(&self) -> RegistryV {
        RegistryV {
            all: self.all@,
            all_index: self.all_index@,
            owned: self.owned@.map_values(|v: Vec<EntityId>| v@),
            owned_index: self.owned_index@,
            owner: self.owner@,
        }
    }
}

impl Registry {
    pub fn new() -> (r: Registry)
        ensures
            r@ == RegistryV::empty(),
            r@.wf(),
    {
        let r = Registry {
            all: Vec::new(),
            all_index: HashMap::new(),
            owned: HashMap::new(),
            owned_index: HashMap::new(),
            owner: HashMap::new(),
        };
        proof {
            assert(r@ =~~= RegistryV::empty());
        }
        r
    }

    /// How many ids are registered, over all owners.
    pub fn count(&self) -> (n: usize)
        ensures
            n == self@.all.len(),
    {
        self.all.len()
    }

    /// The id registered `i`-th, in registration order.
    pub fn by_index(&self, i: usize) -> (r: Option<EntityId>)
        ensures
            r == if i < self@.all.len() {
                Some(self@.all[i as int])
            } else {
                None::<EntityId>
            },
    {
        if i < self.all.len() {
            Some(self.all[i])
        } else {
            None
        }
    }

    /// The current owner of `id`, if it is registered.
    pub fn owner_of(&self, id: EntityId) -> (r: Option<AccountId>)
        ensures
            r == if self@.registered(id) {
                Some(self@.owner[id])
            } else {
                None::<AccountId>
            },
    {
        match self.owner.get(&id) {
            Some(o) => Some(*o),
            None => None,
        }
    }

    pub fn is_registered(&self, id: EntityId) -> (r: bool)
        ensures
            r == self@.registered(id),
    {
        self.owner.contains_key(&id)
    }

    /// How many ids `o` owns.
    pub fn owned_count(&self, o: AccountId) -> (n: usize)
        ensures
            n == self@.owned_seq(o).len(),
    {
        match self.owned.get(&o) {
            Some(a) => a.len(),
            None => 0,
        }
    }

    /// The id at slot `i` of `o`'s dense array.
    pub fn owned_by_index(&self, o: AccountId, i: usize) -> (r: Option<EntityId>)
        ensures
            r == if i < self@.owned_seq(o).len() {
                Some(self@.owned_seq(o)[i as int])
            } else {
                None::<EntityId>
            },
    {
        match self.owned.get(&o) {
            Some(a) => if i < a.len() {
                Some(a[i])
            } else {
                None
            },
            None => None,
        }
    }

    /// Registers `id` under owner `to`; see [`insert_tr`].
    pub fn insert(&mut self, to: AccountId, id: EntityId) -> (r: Result<(), Error>)
        requires
            old(self)@.wf(),
        ensures
            final(self)@.wf(),
            match r {
                Ok(()) => insert_tr(old(self)@, to, id) == Ok::<RegistryV, Error>(final(self)@),
                Err(e) => insert_tr(old(self)@, to, id) == Err::<RegistryV, Error>(e)
                    && final(self)@ == old(self)@,
            },
    {
        let ghost pre = self@;
        if self.owner.contains_key(&id) {
            return Err(Error::AlreadyExists);
        }
        let owned_len = match self.owned.get(&to) {
            Some(a) => a.len(),
            None => 0,
        };
        if owned_len >= usize::MAX {
            return Err(Error::ArithmeticOverflow);
        }
        if self.all.len() >= usize::MAX {
            return Err(Error::ArithmeticOverflow);
        }
        let all_len = self.all.len();
        self.all.push(id);
        self.all_index.insert(id, all_len);
        let mut arr = match self.owned.remove(&to) {
            Some(a) => a,
            None => Vec::new(),
        };
        arr.push(id);
        self.owned.insert(to, arr);
        self.owned_index.insert(id, owned_len);
        self.owner.insert(id, to);
        proof {
            assert(self@ =~~= insert_tr(pre, to, id)->Ok_0);
            lemma_insert_tr(pre, to, id);
        }
        Ok(())
    }

    /// Moves `id` from `from`'s array to `to`'s; see [`transfer_tr`].
    pub fn transfer(&mut self, id: EntityId, from: AccountId, to: AccountId) -> (r: Result<
        (),
        Error,
    >)
        requires
            old(self)@.wf(),
        ensures
            final(self)@.wf(),
            match r {
                Ok(()) => transfer_tr(old(self)@, id, from, to) == Ok::<RegistryV, Error>(
                    final(self)@,
                ),
                Err(e) => transfer_tr(old(self)@, id, from, to) == Err::<RegistryV, Error>(e)
                    && final(self)@ == old(self)@,
            },
    {
        let ghost pre = self@;
        let owner = match self.owner.get(&id) {
            Some(o) => *o,
            None => {
                return Err(Error::NotFound);
            },
        };
        if owner != from {
            return Err(Error::NotOwner);
        }
        let to_count = match self.owned.get(&to) {
            Some(a) => a.len(),
            None => 0,
        };
        if to_count >= usize::MAX {
            return Err(Error::ArithmeticOverflow);
        }
        let i = *self.owned_index.get(&id).unwrap();
        let mut from_arr = self.owned.remove(&from).unwrap();
        assert(from_arr@ == pre.owned_seq(from));
        assert(i < from_arr.len() && from_arr@[i as int] == id);
        let last = from_arr[from_arr.len() - 1];
        from_arr.swap_remove(i);
        if i != from_arr.len() {
            self.owned_index.insert(last, i);
        }
        self.owned.insert(from, from_arr);
        let mut to_arr = match self.owned.remove(&to) {
            Some(a) => a,
            None => Vec::new(),
        };
        let to_len = to_arr.len();
        to_arr.push(id);
        self.owned.insert(to, to_arr);
        self.owned_index.insert(id, to_len);
        self.owner.insert(id, to);
        proof {
            assert(self@ =~~= transfer_tr(pre, id, from, to)->Ok_0);
            lemma_transfer_tr(pre, id, from, to);
        }
        Ok(())
    }
}

} // verus!
