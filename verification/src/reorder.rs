//! The reorder buffer of the parallel chunk pipeline.
//!
//! Workers decode chunks concurrently and may complete out of order.
//! The driver inserts each completion under its chunk index; the
//! consumer pops batches, and a batch comes out only when every batch
//! before it has already come out, so delivery is in ascending chunk
//! index with no batch skipped or repeated.
use vstd::prelude::*;

verus! {

/// Buffers out-of-order completions and releases them in index order.
pub struct ReorderBuffer<T> {
    /// The next index to release.
    next: usize,
    /// Completions not yet released, each under its index.
    pending: Vec<(usize, T)>,
}

impl<T> ReorderBuffer<T> {
    /// The next index the consumer will observe.
    pub closed spec fn spec_next(&self) -> int {
        self.next as int
    }

    /// The buffered completions.
    pub closed spec fn spec_pending(&self) -> Seq<(usize, T)> {
        self.pending@
    }

    /// Whether some completion is buffered under `idx`.
    pub open spec fn spec_has(&self, idx: int) -> bool {
        exists|j: int|
            0 <= j < self.spec_pending().len() && (#[trigger] self.spec_pending()[j]).0 == idx
    }

    /// An empty buffer that will release index 0 first.
    pub fn new() -> (r: ReorderBuffer<T>)
        ensures
            r.spec_next() == 0,
            r.spec_pending() == Seq::<(usize, T)>::empty(),
    {
        let r = ReorderBuffer { next: 0, pending: Vec::new() };
        assert(r.spec_pending() =~= Seq::<(usize, T)>::empty());
        r
    }

    /// Buffers the completion of chunk `idx`. An index is inserted at
    /// most once, and never one that was already released.
    pub fn insert(&mut self, idx: usize, item: T)
        requires
            idx >= old(self).spec_next(),
            !old(self).spec_has(idx as int),
        ensures
            final(self).spec_next() == old(self).spec_next(),
            final(self).spec_pending() == old(self).spec_pending().push((idx, item)),
    {
        self.pending.push((idx, item));
    }

    /// Releases the completion of the next index, where it has already
    /// arrived. Every released index is exactly the buffer's next
    /// counter, so successive releases have strictly ascending indices
    /// with no index skipped.
    pub fn pop_ready(&mut self) -> (r: Option<(usize, T)>)
        requires
            old(self).spec_next() < usize::MAX,
        ensures
            match r {
                Some((idx, _)) => {
                    &&& idx == old(self).spec_next()
                    &&& final(self).spec_next() == old(self).spec_next() + 1
                    &&& exists|j: int|
                        0 <= j < old(self).spec_pending().len() && old(self).spec_pending()[j] == (
                        idx,
                        r->Some_0.1,
                        ) && final(self).spec_pending() == old(self).spec_pending().remove(j)
                },
                None => {
                    &&& !old(self).spec_has(old(self).spec_next())
                    &&& *final(self) == *old(self)
                },
            },
    {
        let n = self.pending.len();
        let mut j: usize = 0;
        while j < n
            invariant
                0 <= j <= n,
                n == self.pending@.len(),
                *self == *old(self),
                self.next < usize::MAX,
                forall|t: int| 0 <= t < j ==> (#[trigger] self.pending@[t]).0 != self.next,
            decreases n - j,
        {
            if self.pending[j].0 == self.next {
                let (idx, item) = self.pending.remove(j);
                proof {
                    assert(old(self).spec_pending()[j as int] == (idx, item));
                    assert(self.pending@ =~= old(self).spec_pending().remove(j as int));
                }
                self.next = self.next + 1;
                return Some((idx, item));
            }
            j = j + 1;
        }
        assert(!self.spec_has(self.next as int));
        None
    }

    /// How many completions are still buffered.
    pub fn pending_len(&self) -> (r: usize)
        ensures
            r == self.spec_pending().len(),
    {
        self.pending.len()
    }
}

} // verus!
