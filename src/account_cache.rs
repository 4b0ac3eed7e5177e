//! Bounded cache of account state, least recently used first, with flush-before-evict.
use vstd::prelude::*;

use crate::account::Account;
use crate::address::Address;

verus! {

/// A cached account and whether it changed since it was last persisted.
pub struct CacheEntry {
    pub account: Account,
    pub dirty: bool,
}

/// Why an account was not cached.
#[derive(Clone, Copy, Debug, PartialEq, Eq, Structural, Hash)]
pub enum AccountCacheError {
    /// The address is cached already; only `apply` changes a cached account.
    AlreadyCached,
    /// The cache is full and every entry awaits a flush.
    AllDirty,
}

pub open spec fn addresses_unique(es: Seq<CacheEntry>) -> bool {
    forall|i: int, j: int| 0 <= i < j < es.len() ==> es[i].account.address != es[j].account.address
}

pub open spec fn resident(es: Seq<CacheEntry>, a: Address) -> bool {
    exists|i: int| 0 <= i < es.len() && es[i].account.address == a
}

/// Where the first clean entry stands, if any: the one to evict.
pub open spec fn first_clean(es: Seq<CacheEntry>, i: int) -> bool {
    0 <= i < es.len() && !es[i].dirty && forall|j: int| 0 <= j < i ==> es[j].dirty
}

/// Accounts by address, least recently used first, at most `capacity` of them.
pub struct AccountCache {
    entries: Vec<CacheEntry>,
    capacity: usize,
}

impl AccountCache {
    pub closed spec fn entries(&self) -> Seq<CacheEntry> {
        self.entries@
    }

    pub closed spec fn capacity_spec(&self) -> nat {
        self.capacity as nat
    }

    pub open spec fn wf(&self) -> bool {
        addresses_unique(self.entries()) && self.entries().len() <= self.capacity_spec()
    }

    /// An empty cache for at most `capacity` accounts.
    pub fn new(capacity: usize) -> (r: AccountCache)
        ensures
            r.wf(),
            r.entries().len() == 0,
            r.capacity_spec() == capacity,
    {
        AccountCache { entries: Vec::new(), capacity }
    }

    fn find(&self, a: &Address) -> (r: Option<usize>)
        requires
            addresses_unique(self.entries()),
        ensures
            match r {
                Some(i) => i < self.entries().len() && self.entries()[i as int].account.address == *a,
                None => !resident(self.entries(), *a),
            },
    {
        let mut i: usize = 0;
        while i < self.entries.len()
            invariant
                i <= self.entries@.len(),
                forall|j: int| 0 <= j < i ==> self.entries@[j].account.address != *a,
            decreases self.entries@.len() - i,
        {
            if self.entries[i].account.address == *a {
                return Some(i);
            }
            i = i + 1;
        }
        None
    }

    /// The cached account of `a`, or `None` where it is not resident.
    pub fn get(&self, a: &Address) -> (r: Option<&Account>)
        requires
            self.wf(),
        ensures
            match r {
                Some(acct) => acct.address == *a && exists|i: int|
                    0 <= i < self.entries().len() && self.entries()[i].account == *acct,
                None => !resident(self.entries(), *a),
            },
    {
        match self.find(a) {
            Some(i) => Some(&self.entries[i].account),
            None => None,
        }
    }

    /// Caches `acct`, as read from the backing store, as the most recent entry. Where the cache
    /// is full, the least recently used clean entry makes room; where every entry is dirty,
    /// nothing changes.
    pub fn insert(&mut self, acct: Account) -> (r: Result<(), AccountCacheError>)
        requires
            old(self).wf(),
        ensures
            final(self).wf(),
            final(self).capacity_spec() == old(self).capacity_spec(),
            resident(old(self).entries(), acct.address) ==> r == Err::<(), AccountCacheError>(
                AccountCacheError::AlreadyCached,
            ) && final(self).entries() == old(self).entries(),
            !resident(old(self).entries(), acct.address) && old(self).entries().len()
                < old(self).capacity_spec() ==> r is Ok && final(self).entries().len() == old(self).entries().len() + 1 && final(self).entries().drop_last() == old(self).entries(),
            !resident(old(self).entries(), acct.address) && old(self).entries().len()
                >= old(self).capacity_spec() && (forall|j: int|
                0 <= j < old(self).entries().len() ==> #[trigger] old(self).entries()[j].dirty)
                ==> r == Err::<(), AccountCacheError>(AccountCacheError::AllDirty) && final(self).entries() == old(self).entries(),
            !resident(old(self).entries(), acct.address) && old(self).entries().len()
                >= old(self).capacity_spec() && (exists|j: int|
                0 <= j < old(self).entries().len() && !#[trigger] old(self).entries()[j].dirty)
                ==> r is Ok && exists|v: int|
                first_clean(old(self).entries(), v) && final(self).entries().drop_last() == old(self).entries().remove(v),
            r is Ok ==> final(self).entries().last().account == acct && !final(self).entries().last().dirty,
    {
        if self.find(&acct.address).is_some() {
            return Err(AccountCacheError::AlreadyCached);
        }
        if self.entries.len() >= self.capacity {
            let mut v: usize = 0;
            while v < self.entries.len() && self.entries[v].dirty
                invariant
                    v <= self.entries@.len(),
                    forall|j: int| 0 <= j < v ==> self.entries@[j].dirty,
                decreases self.entries@.len() - v,
            {
                v = v + 1;
            }
            if v == self.entries.len() {
                return Err(AccountCacheError::AllDirty);
            }
            assert(first_clean(self.entries@, v as int));
            let ghost before = self.entries@;
            let _evicted = self.entries.remove(v);
            proof {
                assert forall|i: int, j: int| 0 <= i < j < self.entries@.len() implies self.entries@[
                    i].account.address != self.entries@[j].account.address by {
                    let oi = if i < v { i } else { i + 1 };
                    let oj = if j < v { j } else { j + 1 };
                    assert(self.entries@[i] == before[oi] && self.entries@[j] == before[oj]);
                }
                assert forall|i: int| 0 <= i < self.entries@.len() implies self.entries@[i].account.address
                    != acct.address by {
                    let oi = if i < v { i } else { i + 1 };
                    assert(self.entries@[i] == before[oi]);
                }
            }
        }
        let ghost mid = self.entries@;
        self.entries.push(CacheEntry { account: acct, dirty: false });
        assert(self.entries@.drop_last() =~= mid);
        Ok(())
    }

    /// The one way to change a cached account: `f` computes the new state from the cached one.
    /// Where `f` succeeds, its result is stored as the most recent entry and marked dirty; where
    /// it fails, the cache is left as it was. `None` where `a` is not resident.
    pub fn apply<E, F: FnOnce(&Account) -> Result<Account, E>>(&mut self, a: &Address, f: F) -> (r:
        Option<Result<(), E>>)
        requires
            old(self).wf(),
            forall|x: &Account| #[trigger] f.requires((x,)),
            forall|x: &Account, y: Result<Account, E>|
                #[trigger] f.ensures((x,), y) ==> (y is Ok ==> y->Ok_0.address == x.address),
        ensures
            final(self).wf(),
            final(self).capacity_spec() == old(self).capacity_spec(),
            !resident(old(self).entries(), *a) ==> r is None && final(self).entries() == old(self).entries(),
            resident(old(self).entries(), *a) ==> r is Some && exists|i: int|
                0 <= i < old(self).entries().len() && old(self).entries()[i].account.address == *a
                    && match r->Some_0 {
                    Ok(()) => {
                        &&& final(self).entries().drop_last() == old(self).entries().remove(i)
                        &&& final(self).entries().last().dirty
                        &&& exists|y: Result<Account, E>|
                            f.ensures((&old(self).entries()[i].account,), y) && y is Ok
                                && final(self).entries().last().account == y->Ok_0
                    },
                    Err(_) => final(self).entries() == old(self).entries(),
                },
    {
        let i = match self.find(a) {
            Some(i) => i,
            None => {
                return None;
            },
        };
        let ghost before = self.entries@;
        let res = f(&self.entries[i].account);
        match res {
            Ok(next) => {
                let _old_entry = self.entries.remove(i);
                proof {
                    assert forall|p: int, q: int| 0 <= p < q < self.entries@.len() implies self.entries@[
                        p].account.address != self.entries@[q].account.address by {
                        let op = if p < i { p } else { p + 1 };
                        let oq = if q < i { q } else { q + 1 };
                        assert(self.entries@[p] == before[op] && self.entries@[q] == before[oq]);
                    }
                    assert forall|p: int| 0 <= p < self.entries@.len() implies self.entries@[p].account.address
                        != next.address by {
                        let op = if p < i { p } else { p + 1 };
                        assert(self.entries@[p] == before[op]);
                    }
                }
                let ghost mid = self.entries@;
                self.entries.push(CacheEntry { account: next, dirty: true });
                assert(self.entries@.drop_last() =~= mid);
                Some(Ok(()))
            },
            Err(e) => Some(Err(e)),
        }
    }

    /// Marks the account of `a` as the most recently used, so that a read keeps it from
    /// eviction longer; `false`, changing nothing, where it is not resident.
    pub fn touch(&mut self, a: &Address) -> (r: bool)
        requires
            old(self).wf(),
        ensures
            final(self).wf(),
            final(self).capacity_spec() == old(self).capacity_spec(),
            r == resident(old(self).entries(), *a),
            !r ==> final(self).entries() == old(self).entries(),
            r ==> exists|i: int|
                0 <= i < old(self).entries().len() && old(self).entries()[i].account.address == *a
                    && final(self).entries() == old(self).entries().remove(i).push(
                    old(self).entries()[i],
                ),
    {
        match self.find(a) {
            Some(i) => {
                let ghost before = self.entries@;
                let e = self.entries.remove(i);
                proof {
                    assert forall|p: int, q: int| 0 <= p < q < self.entries@.len() implies self.entries@[
                        p].account.address != self.entries@[q].account.address by {
                        let op = if p < i { p } else { p + 1 };
                        let oq = if q < i { q } else { q + 1 };
                        assert(self.entries@[p] == before[op] && self.entries@[q] == before[oq]);
                    }
                    assert forall|p: int| 0 <= p < self.entries@.len() implies self.entries@[p].account.address
                        != e.account.address by {
                        let op = if p < i { p } else { p + 1 };
                        assert(self.entries@[p] == before[op]);
                    }
                }
                self.entries.push(e);
                assert(self.entries@ == before.remove(i as int).push(before[i as int]));
                true
            },
            None => false,
        }
    }

    /// Records that the account of `a` was persisted; `false` where it is not resident.
    pub fn mark_flushed(&mut self, a: &Address) -> (r: bool)
        requires
            old(self).wf(),
        ensures
            final(self).wf(),
            final(self).capacity_spec() == old(self).capacity_spec(),
            r == resident(old(self).entries(), *a),
            !r ==> final(self).entries() == old(self).entries(),
            r ==> final(self).entries().len() == old(self).entries().len() && forall|j: int|
                0 <= j < old(self).entries().len() ==> #[trigger] final(self).entries()[j].account
                    == old(self).entries()[j].account && final(self).entries()[j].dirty == (old(self).entries()[j].dirty && old(self).entries()[j].account.address != *a),
    {
        match self.find(a) {
            Some(i) => {
                let entry = self.entries.remove(i);
                self.entries.insert(i, CacheEntry { account: entry.account, dirty: false });
                true
            },
            None => false,
        }
    }

    /// How many accounts are cached.
    pub fn len(&self) -> (r: usize)
        ensures
            r == self.entries().len(),
    {
        self.entries.len()
    }
}

} // verus!
