//! The in-memory log store: the reference implementation of the log
//! contract (append a batch at the tail, read by index or suffix,
//! truncate at an index), used directly for volatile clusters and as
//! the verified model that the on-disk store mirrors.

use vstd::prelude::*;
use crate::raft::types::{models, Entry, Metadata};

verus! {

#[derive(Debug, Clone, PartialEq, Eq)]
pub enum MemoryStorageError {
    IndexTooLarge,
}

/// An append-only sequence of entries with tail truncation. Log indices
/// are 1-based: entry `i` of the log is `self@[i - 1]`.
#[derive(Debug, Clone, PartialEq, Eq)]
pub struct MemoryStorage {
    entries: Vec<Entry>,
}

impl View for MemoryStorage {
    type V = Seq<Entry>;

    closed spec fn view(&self) -> Seq<Entry> {
        self.entries@
    }
}

impl MemoryStorage {
    pub fn new() -> (r: MemoryStorage)
        ensures
            r@ =~= Seq::<Entry>::empty(),
    {
        MemoryStorage { entries: Vec::new() }
    }

    /// A store that already holds `entries`; what reopening a persisted
    /// log yields.
    pub fn from_entries(entries: Vec<Entry>) -> (r: MemoryStorage)
        ensures
            r@ == entries@,
    {
        MemoryStorage { entries }
    }

    /// On first open there is nothing on disk: the defaults.
    pub fn load(&mut self) -> (r: Result<Metadata, MemoryStorageError>)
        ensures
            final(self)@ == old(self)@,
            r == Ok::<Metadata, MemoryStorageError>(Metadata { current_term: 0, voted_for: None }),
    {
        Ok(Metadata { current_term: 0, voted_for: None })
    }

    pub fn num_entries(&self) -> (r: usize)
        ensures
            r == self@.len(),
    {
        self.entries.len()
    }

    /// The index of the last entry, equal to the number of entries.
    pub fn current_index(&self) -> (r: u64)
        ensures
            r == self@.len(),
    {
        self.entries.len() as u64
    }

    /// The entry at 1-based `index`, or `None` when the log has none.
    pub fn entry(&self, index: u64) -> (r: Result<Option<Entry>, MemoryStorageError>)
        ensures
            match r {
                Ok(Some(e)) => 1 <= index <= self@.len() && e@ == self@[index - 1]@,
                Ok(None) => !(1 <= index <= self@.len()),
                Err(_) => false,
            },
    {
        if index > 0 && index <= self.entries.len() as u64 {
            Ok(Some(self.entries[(index - 1) as usize].duplicate()))
        } else {
            Ok(None)
        }
    }

    /// The suffix of the log from 1-based `start` on; empty when
    /// `start` lies past the end.
    pub fn entries(&self, start: u64) -> (r: Result<Vec<Entry>, MemoryStorageError>)
        requires
            start > 0,
        ensures
            match r {
                Ok(es) => models(es@) == if start - 1 <= self@.len() {
                    models(self@).skip(start - 1)
                } else {
                    Seq::<crate::raft::types::EntryModel>::empty()
                },
                Err(_) => false,
            },
    {
        let len: usize = self.entries.len();
        if start - 1 >= len as u64 {
            let empty: Vec<Entry> = Vec::new();
            proof {
                if start - 1 <= self@.len() {
                    assert(models(empty@) =~= models(self@).skip(start - 1));
                } else {
                    assert(models(empty@) =~= Seq::<crate::raft::types::EntryModel>::empty());
                }
            }
            return Ok(empty);
        }
        let from: usize = (start - 1) as usize;
        let mut out: Vec<Entry> = Vec::new();
        let mut i: usize = from;
        proof {
            assert(models(out@) =~= models(self@).subrange(from as int, from as int));
        }
        while i < len
            invariant
                from <= i <= len == self@.len(),
                out@.len() == i - from,
                models(out@) == models(self@).subrange(from as int, i as int),
            decreases len - i,
        {
            out.push(self.entries[i].duplicate());
            proof {
                assert(models(out@) =~= models(self@).subrange(from as int, i + 1));
            }
            i = i + 1;
        }
        proof {
            assert(models(out@) =~= models(self@).skip(from as int));
        }
        Ok(out)
    }

    /// The term of the last entry, or 0 when the log is empty.
    pub fn last_term(&self) -> (r: Result<u64, MemoryStorageError>)
        ensures
            r == Ok::<u64, MemoryStorageError>(
                if self@.len() == 0 {
                    0
                } else {
                    self@.last().term
                },
            ),
    {
        let len: usize = self.entries.len();
        if len == 0 {
            Ok(0)
        } else {
            Ok(self.entries[len - 1].term)
        }
    }

    /// Appends a batch at the tail.
    pub fn append_entries(&mut self, entries: &Vec<Entry>) -> (r: Result<(), MemoryStorageError>)
        ensures
            models(final(self)@) == models(old(self)@) + models(entries@),
            final(self)@.len() == old(self)@.len() + entries@.len(),
            r is Ok,
    {
        let n: usize = entries.len();
        let mut i: usize = 0;
        proof {
            assert(models(self@) =~= models(old(self)@) + models(entries@).take(0));
        }
        while i < n
            invariant
                i <= n == entries@.len(),
                self@.len() == old(self)@.len() + i,
                models(self@) == models(old(self)@) + models(entries@).take(i as int),
            decreases n - i,
        {
            self.entries.push(entries[i].duplicate());
            proof {
                let lhs = models(self@);
                let rhs = models(old(self)@) + models(entries@).take(i + 1);
                assert(lhs.len() == rhs.len());
                assert forall|k: int| 0 <= k < lhs.len() implies lhs[k] == rhs[k] by {
                    let prev = models(old(self)@) + models(entries@).take(i as int);
                    if k < prev.len() {
                        assert(lhs[k] == prev[k]);
                        assert(prev[k] == rhs[k]);
                    } else {
                        assert(lhs[k] == entries@[i as int]@);
                        assert(rhs[k] == models(entries@).take(i + 1)[k - old(self)@.len()]);
                    }
                }
                assert(lhs =~= rhs);
            }
            i = i + 1;
        }
        proof {
            assert(models(self@) =~= models(old(self)@) + models(entries@));
        }
        Ok(())
    }

    /// Removes the entries with 1-based index `>= index`; what stays is
    /// exactly the prefix below `index`.
    pub fn truncate_entries(&mut self, index: u64) -> (r: Result<(), MemoryStorageError>)
        requires
            index > 0,
        ensures
            final(self)@ == if index - 1 <= old(self)@.len() {
                old(self)@.take(index - 1)
            } else {
                old(self)@
            },
            r is Ok,
    {
        let len: usize = self.entries.len();
        if index - 1 >= len as u64 {
            proof {
                if index - 1 <= self@.len() {
                    assert(self@ =~= self@.take(index - 1));
                }
            }
            return Ok(());
        }
        let keep: usize = (index - 1) as usize;
        proof {
            assert(self@ =~= old(self)@.take(self@.len() as int));
        }
        while self.entries.len() > keep
            invariant
                keep <= self@.len() <= old(self)@.len(),
                self@ == old(self)@.take(self@.len() as int),
            decreases self@.len(),
        {
            self.entries.pop();
            proof {
                assert(self@ =~= old(self)@.take(self@.len() as int));
            }
        }
        Ok(())
    }

    /// The in-memory store persists nothing and never fails.
    pub fn persist_metadata(&mut self, metadata: &Metadata) -> (r: Result<(), MemoryStorageError>)
        ensures
            final(self)@ == old(self)@,
            r is Ok,
    {
        let _ = metadata;
        Ok(())
    }

    pub fn persist_entries(&mut self) -> (r: Result<(), MemoryStorageError>)
        ensures
            final(self)@ == old(self)@,
            r is Ok,
    {
        Ok(())
    }
}

} // verus!
