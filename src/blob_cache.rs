//! Bounded store of sealed blobs by digest, consulted before a blob is submitted again.
use vstd::prelude::*;

use crate::address::Digest;
use crate::batcher::Blob;

verus! {

/// Why a blob was not stored.
#[derive(Clone, Copy, Debug, PartialEq, Eq, Structural, Hash)]
pub enum CacheError {
    /// The cache holds as many blobs as it may.
    Full,
}

pub open spec fn digests_unique(ds: Seq<Digest>) -> bool {
    forall|i: int, j: int| 0 <= i < j < ds.len() ==> ds[i] != ds[j]
}

/// Blobs by digest, at most `capacity` of them, each digest once.
pub struct BlobCache {
    entries: Vec<(Digest, Blob)>,
    capacity: usize,
}

impl BlobCache {
    /// The digests held, in the order they came.
    pub closed spec fn digests(&self) -> Seq<Digest> {
        self.entries@.map_values(|e: (Digest, Blob)| e.0)
    }

    /// The stored blobs under their digests, in the order they came.
    pub closed spec fn blobs(&self) -> Seq<(Digest, Blob)> {
        self.entries@
    }

    pub closed spec fn capacity_spec(&self) -> nat {
        self.capacity as nat
    }

    pub open spec fn wf(&self) -> bool {
        digests_unique(self.digests()) && self.digests().len() <= self.capacity_spec()
    }

    /// An empty cache for at most `capacity` blobs.
    pub fn new(capacity: usize) -> (r: BlobCache)
        ensures
            r.wf(),
            r.digests().len() == 0,
            r.blobs().len() == 0,
            r.capacity_spec() == capacity,
    {
        let r = BlobCache { entries: Vec::new(), capacity };
        assert(r.digests() =~= Seq::<Digest>::empty());
        r
    }

    /// Whether a blob of digest `d` is held.
    pub fn contains(&self, d: &Digest) -> (r: bool)
        ensures
            r == self.digests().contains(*d),
    {
        let mut i: usize = 0;
        while i < self.entries.len()
            invariant
                i <= self.entries@.len(),
                forall|j: int| 0 <= j < i ==> self.entries@[j].0 != *d,
            decreases self.entries@.len() - i,
        {
            if self.entries[i].0 == *d {
                assert(self.digests()[i as int] == *d);
                return true;
            }
            i = i + 1;
        }
        assert forall|j: int| 0 <= j < self.digests().len() implies self.digests()[j] != *d by {
            assert(self.entries@[j].0 != *d);
        }
        false
    }

    /// Stores `blob` under `d`. A digest already held is kept as it is and `Ok(false)` comes
    /// back, so a digest never occurs twice; a full cache refuses a new one.
    pub fn insert(&mut self, d: Digest, blob: Blob) -> (r: Result<bool, CacheError>)
        requires
            old(self).wf(),
        ensures
            final(self).wf(),
            final(self).capacity_spec() == old(self).capacity_spec(),
            old(self).digests().contains(d) ==> r == Ok::<bool, CacheError>(false) && final(self).digests() == old(self).digests(),
            !old(self).digests().contains(d) && old(self).digests().len() >= old(self).capacity_spec()
                ==> r == Err::<bool, CacheError>(CacheError::Full) && final(self).digests() == old(self).digests(),
            !old(self).digests().contains(d) && old(self).digests().len() < old(self).capacity_spec()
                ==> r == Ok::<bool, CacheError>(true) && final(self).digests() == old(self).digests().push(d),
    {
        if self.contains(&d) {
            return Ok(false);
        }
        if self.entries.len() >= self.capacity {
            return Err(CacheError::Full);
        }
        let ghost before = self.digests();
        self.entries.push((d, blob));
        assert(self.digests() =~= before.push(d));
        Ok(true)
    }

    /// The blob stored under `d`, or `None` where `d` is not held.
    pub fn get(&self, d: &Digest) -> (r: Option<&Blob>)
        requires
            self.wf(),
        ensures
            match r {
                Some(b) => exists|i: int|
                    0 <= i < self.blobs().len() && self.blobs()[i].0 == *d && self.blobs()[i].1 == *b,
                None => !self.digests().contains(*d),
            },
    {
        let mut i: usize = 0;
        while i < self.entries.len()
            invariant
                i <= self.entries@.len(),
                forall|j: int| 0 <= j < i ==> self.entries@[j].0 != *d,
            decreases self.entries@.len() - i,
        {
            if self.entries[i].0 == *d {
                assert(self.blobs()[i as int].0 == *d && self.blobs()[i as int].1 == self.entries@[i as int].1);
                return Some(&self.entries[i].1);
            }
            i = i + 1;
        }
        assert forall|j: int| 0 <= j < self.digests().len() implies self.digests()[j] != *d by {
            assert(self.entries@[j].0 != *d);
        }
        None
    }

    /// How many blobs are held.
    pub fn len(&self) -> (r: usize)
        ensures
            r == self.digests().len(),
    {
        self.entries.len()
    }
}

} // verus!
