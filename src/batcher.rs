//! Packs serialized transactions into blobs of bounded size.
use vstd::prelude::*;

verus! {

/// The largest serialized size of a blob, in bytes.
pub const MAX_BATCH_SIZE: usize = 524288;

/// The summed length of byte strings.
pub open spec fn total_len(s: Seq<Vec<u8>>) -> nat
    decreases s.len(),
{
    if s.len() == 0 {
        0
    } else {
        total_len(s.drop_last()) + s.last()@.len()
    }
}

proof fn lemma_total_len_push(s: Seq<Vec<u8>>, x: Vec<u8>)
    ensures
        total_len(s.push(x)) == total_len(s) + x@.len(),
{
    assert(s.push(x).drop_last() =~= s);
}

/// A sealed batch: serialized transactions, whole and in the order added, and their size.
#[derive(Clone, Debug, PartialEq, Eq, Hash)]
pub struct Blob {
    pub transactions: Vec<Vec<u8>>,
    pub size: usize,
}

/// Why a transaction was not added.
#[derive(Clone, Copy, Debug, PartialEq, Eq, Structural, Hash)]
pub enum BatchError {
    /// Adding it would take the batch past `MAX_BATCH_SIZE`.
    BatchFull,
    /// It alone is larger than `MAX_BATCH_SIZE`.
    TooLarge,
}

/// The batch being filled.
pub struct Batcher {
    pending: Vec<Vec<u8>>,
    size: usize,
}

impl Batcher {
    pub closed spec fn pending(&self) -> Seq<Vec<u8>> {
        self.pending@
    }

    /// The size counter is the summed length, within the bound.
    pub closed spec fn wf(&self) -> bool {
        self.size == total_len(self.pending@) && self.size <= MAX_BATCH_SIZE
    }

    /// An empty batch.
    pub fn new() -> (r: Batcher)
        ensures
            r.wf(),
            r.pending().len() == 0,
    {
        Batcher { pending: Vec::new(), size: 0 }
    }

    /// The serialized size of the batch so far.
    pub fn size(&self) -> (r: usize)
        requires
            self.wf(),
        ensures
            r == total_len(self.pending()),
            r <= MAX_BATCH_SIZE,
    {
        self.size
    }

    /// Adds `tx` where it fits; refuses it with `BatchFull`, changing nothing, where it does not.
    pub fn add(&mut self, tx: Vec<u8>) -> (r: Result<(), BatchError>)
        requires
            old(self).wf(),
        ensures
            final(self).wf(),
            total_len(old(self).pending()) + tx@.len() <= MAX_BATCH_SIZE ==> r is Ok && final(self).pending() == old(self).pending().push(tx),
            total_len(old(self).pending()) + tx@.len() > MAX_BATCH_SIZE ==> r == Err::<(), BatchError>(
                BatchError::BatchFull,
            ) && final(self).pending() == old(self).pending(),
    {
        if tx.len() > MAX_BATCH_SIZE - self.size {
            return Err(BatchError::BatchFull);
        }
        proof {
            lemma_total_len_push(self.pending@, tx);
        }
        self.size = self.size + tx.len();
        self.pending.push(tx);
        Ok(())
    }

    /// Finalizes the batch into a blob and starts an empty one.
    pub fn seal(&mut self) -> (r: Blob)
        requires
            old(self).wf(),
        ensures
            final(self).wf(),
            final(self).pending().len() == 0,
            r.transactions@ == old(self).pending(),
            r.size == total_len(r.transactions@),
            r.size <= MAX_BATCH_SIZE,
    {
        let mut txs: Vec<Vec<u8>> = Vec::new();
        std::mem::swap(&mut txs, &mut self.pending);
        let size = self.size;
        self.size = 0;
        Blob { transactions: txs, size }
    }

    /// Adds `tx`, first sealing the current batch where `tx` would not fit in it; that blob is
    /// returned, and `tx` starts the next batch.
    pub fn push(&mut self, tx: Vec<u8>) -> (r: Result<Option<Blob>, BatchError>)
        requires
            old(self).wf(),
        ensures
            final(self).wf(),
            tx@.len() > MAX_BATCH_SIZE ==> r == Err::<Option<Blob>, BatchError>(BatchError::TooLarge)
                && final(self).pending() == old(self).pending(),
            tx@.len() <= MAX_BATCH_SIZE && total_len(old(self).pending()) + tx@.len()
                <= MAX_BATCH_SIZE ==> r == Ok::<Option<Blob>, BatchError>(None) && final(self).pending() == old(self).pending().push(tx),
            tx@.len() <= MAX_BATCH_SIZE && total_len(old(self).pending()) + tx@.len()
                > MAX_BATCH_SIZE ==> r is Ok && r->Ok_0 is Some && {
                let b = r->Ok_0->Some_0;
                &&& b.transactions@ == old(self).pending()
                &&& b.size == total_len(b.transactions@)
                &&& b.size <= MAX_BATCH_SIZE
                &&& final(self).pending() == seq![tx]
            },
    {
        if tx.len() > MAX_BATCH_SIZE {
            return Err(BatchError::TooLarge);
        }
        if tx.len() <= MAX_BATCH_SIZE - self.size {
            let r = self.add(tx);
            assert(r is Ok);
            return Ok(None);
        }
        let blob = self.seal();
        let r = self.add(tx);
        assert(r is Ok);
        assert(self.pending@ =~= seq![tx]);
        Ok(Some(blob))
    }
}

} // verus!
