//! The consumer offset table: the last committed read offset per consuming
//! entity and partition.
//!
//! An absent entry means "never polled". A commit stores the offset the
//! entity will read next; it is rejected with `OffsetOutOfRange` when it
//! would move a stored offset backwards (committed offsets are monotonically
//! non-decreasing per key) or when it lies beyond the partition log's tail.
//! Commits to one key are serialized by exclusive access; unrelated keys are
//! independent.

use vstd::prelude::*;
use vstd::pervasive::VecAdditionalExecFns;
use crate::errors::CoordinatorError;

verus! {

/// One row of the table: the committed offset of one entity on one
/// partition.
#[derive(Clone, Copy, Debug, PartialEq, Eq, Structural)]
pub struct OffsetEntry {
    pub entity_key: u64,
    pub partition_id: u32,
    pub offset: u64,
}

/// The offset stored for a key, reading entries first to last.
pub open spec fn spec_lookup(entries: Seq<OffsetEntry>, entity_key: u64, partition_id: u32) -> Option<
    u64,
>
    decreases entries.len(),
{
    if entries.len() == 0 {
        None
    } else if entries[0].entity_key == entity_key && entries[0].partition_id == partition_id {
        Some(entries[0].offset)
    } else {
        spec_lookup(entries.drop_first(), entity_key, partition_id)
    }
}

/// No two entries share a key.
pub open spec fn keys_unique(entries: Seq<OffsetEntry>) -> bool {
    forall|i: int, j: int|
        0 <= i < j < entries.len() ==> !((#[trigger] entries[i]).entity_key == (
        #[trigger] entries[j]).entity_key && entries[i].partition_id == entries[j].partition_id)
}

/// With unique keys, a matching entry at any position is the lookup result.
proof fn lemma_lookup_at_index(entries: Seq<OffsetEntry>, i: int)
    requires
        keys_unique(entries),
        0 <= i < entries.len(),
    ensures
        spec_lookup(entries, entries[i].entity_key, entries[i].partition_id) == Some(
            entries[i].offset,
        ),
    decreases entries.len(),
{
    if i > 0 {
        assert(keys_unique(entries.drop_first())) by {
            assert(forall|x: int, y: int|
                0 <= x < y < entries.drop_first().len() ==> entries.drop_first()[x] == entries[x
                    + 1] && entries.drop_first()[y] == entries[y + 1]);
        }
        lemma_lookup_at_index(entries.drop_first(), i - 1);
    }
}

/// A key matching no entry has no lookup result.
proof fn lemma_lookup_absent(entries: Seq<OffsetEntry>, entity_key: u64, partition_id: u32)
    requires
        forall|i: int|
            0 <= i < entries.len() ==> !((#[trigger] entries[i]).entity_key == entity_key
                && entries[i].partition_id == partition_id),
    ensures
        spec_lookup(entries, entity_key, partition_id) is None,
    decreases entries.len(),
{
    if entries.len() > 0 {
        lemma_lookup_absent(entries.drop_first(), entity_key, partition_id);
    }
}

/// Updating the offset at one position changes exactly that key's lookup.
proof fn lemma_lookup_update(entries: Seq<OffsetEntry>, i: int, e: OffsetEntry, k: u64, p: u32)
    requires
        keys_unique(entries),
        0 <= i < entries.len(),
        e.entity_key == entries[i].entity_key,
        e.partition_id == entries[i].partition_id,
    ensures
        keys_unique(entries.update(i, e)),
        spec_lookup(entries.update(i, e), k, p) == if k == e.entity_key && p == e.partition_id {
            Some(e.offset)
        } else {
            spec_lookup(entries, k, p)
        },
    decreases entries.len(),
{
    let updated = entries.update(i, e);
    assert(forall|x: int| 0 <= x < entries.len() && x != i ==> updated[x] == entries[x]);
    assert(updated[i] == e);
    if i == 0 {
        assert(updated.drop_first() =~= entries.drop_first());
        if !(k == e.entity_key && p == e.partition_id) && (entries[0].entity_key == k
            && entries[0].partition_id == p) {
            assert(false);
        }
    } else {
        assert(keys_unique(entries.drop_first())) by {
            assert(forall|x: int, y: int|
                0 <= x < y < entries.drop_first().len() ==> entries.drop_first()[x] == entries[x
                    + 1] && entries.drop_first()[y] == entries[y + 1]);
        }
        assert(updated.drop_first() =~= entries.drop_first().update(i - 1, e));
        lemma_lookup_update(entries.drop_first(), i - 1, e, k, p);
        if k == e.entity_key && p == e.partition_id {
            assert(!(entries[0].entity_key == k && entries[0].partition_id == p));
        }
    }
    assert(keys_unique(updated)) by {
        assert(forall|x: int, y: int|
            0 <= x < y < updated.len() ==> updated[x].entity_key == entries[x].entity_key
                && updated[x].partition_id == entries[x].partition_id && updated[y].entity_key
                == entries[y].entity_key && updated[y].partition_id == entries[y].partition_id);
    }
}

/// Appending a fresh key leaves every stored key's lookup unchanged and
/// gives the new key its offset.
proof fn lemma_lookup_push(entries: Seq<OffsetEntry>, e: OffsetEntry, k: u64, p: u32)
    requires
        spec_lookup(entries, e.entity_key, e.partition_id) is None,
        keys_unique(entries),
    ensures
        keys_unique(entries.push(e)),
        spec_lookup(entries.push(e), k, p) == if k == e.entity_key && p == e.partition_id {
            Some(e.offset)
        } else {
            spec_lookup(entries, k, p)
        },
    decreases entries.len(),
{
    let pushed = entries.push(e);
    assert(forall|x: int| 0 <= x < entries.len() ==> pushed[x] == entries[x]);
    assert(pushed[entries.len() as int] == e);
    assert(spec_lookup(pushed, k, p) == if pushed[0].entity_key == k && pushed[0].partition_id
        == p {
        Some(pushed[0].offset)
    } else {
        spec_lookup(pushed.drop_first(), k, p)
    });
    if entries.len() == 0 {
        assert(pushed.drop_first() =~= Seq::<OffsetEntry>::empty());
        assert(spec_lookup(pushed.drop_first(), k, p) is None);
    } else {
        assert(spec_lookup(entries, k, p) == if entries[0].entity_key == k
            && entries[0].partition_id == p {
            Some(entries[0].offset)
        } else {
            spec_lookup(entries.drop_first(), k, p)
        });
        assert(spec_lookup(entries, e.entity_key, e.partition_id) == if entries[0].entity_key
            == e.entity_key && entries[0].partition_id == e.partition_id {
            Some(entries[0].offset)
        } else {
            spec_lookup(entries.drop_first(), e.entity_key, e.partition_id)
        });
        assert(keys_unique(entries.drop_first())) by {
            assert(forall|x: int, y: int|
                0 <= x < y < entries.drop_first().len() ==> entries.drop_first()[x] == entries[x
                    + 1] && entries.drop_first()[y] == entries[y + 1]);
        }
        assert(pushed.drop_first() =~= entries.drop_first().push(e));
        lemma_lookup_push(entries.drop_first(), e, k, p);
    }
    assert forall|x: int, y: int| 0 <= x < y < pushed.len() implies !((#[trigger] pushed[x]).entity_key
        == (#[trigger] pushed[y]).entity_key && pushed[x].partition_id == pushed[y].partition_id) by {
        if y == entries.len() as int {
            if pushed[x].entity_key == e.entity_key && pushed[x].partition_id == e.partition_id {
                lemma_lookup_at_index(entries, x);
                assert(false);
            }
        }
    }
}

/// The consumer offset table, keyed by (entity key, partition id).
pub struct ConsumerOffsetTable {
    entries: Vec<OffsetEntry>,
}

impl View for ConsumerOffsetTable {
    type V = Seq<OffsetEntry>;

    closed spec fn view(&self) -> Seq<OffsetEntry> {
        self.entries@
    }
}

impl ConsumerOffsetTable {
    /// Each key is stored at most once.
    pub open spec fn wf(&self) -> bool {
        keys_unique(self@)
    }

    /// The committed offset of one key, if any.
    pub open spec fn spec_get(&self, entity_key: u64, partition_id: u32) -> Option<u64> {
        spec_lookup(self@, entity_key, partition_id)
    }

    /// An empty table: nothing has been committed by anyone.
    pub fn new() -> (t: ConsumerOffsetTable)
        ensures
            t.wf(),
            forall|k: u64, p: u32| t.spec_get(k, p) is None,
    {
        ConsumerOffsetTable { entries: Vec::new() }
    }

    /// Finds the position of a key's entry, if present.
    fn find_entry(&self, entity_key: u64, partition_id: u32) -> (r: Option<usize>)
        requires
            self.wf(),
        ensures
            match r {
                Some(i) => i < self@.len() && self@[i as int].entity_key == entity_key
                    && self@[i as int].partition_id == partition_id && self.spec_get(
                    entity_key,
                    partition_id,
                ) == Some(self@[i as int].offset),
                None => self.spec_get(entity_key, partition_id) is None,
            },
    {
        let mut i: usize = 0;
        while i < self.entries.len()
            invariant
                self.wf(),
                i <= self@.len(),
                forall|x: int|
                    0 <= x < i ==> !((#[trigger] self@[x]).entity_key == entity_key
                        && self@[x].partition_id == partition_id),
            decreases self@.len() - i,
        {
            if self.entries[i].entity_key == entity_key && self.entries[i].partition_id
                == partition_id {
                proof {
                    lemma_lookup_at_index(self@, i as int);
                }
                return Some(i);
            }
            i = i + 1;
        }
        proof {
            lemma_lookup_absent(self@, entity_key, partition_id);
        }
        None
    }

    /// The last committed offset for an entity on a partition; `None` means
    /// the entity has never polled (the dispatcher then starts per its poll
    /// policy).
    pub fn get(&self, entity_key: u64, partition_id: u32) -> (r: Option<u64>)
        requires
            self.wf(),
        ensures
            r == self.spec_get(entity_key, partition_id),
    {
        match self.find_entry(entity_key, partition_id) {
            Some(i) => Some(self.entries[i].offset),
            None => None,
        }
    }

    /// Commits an offset for an entity on a partition, against the
    /// partition's current tail (its highest available offset).
    ///
    /// The commit is accepted exactly when it does not move the stored
    /// offset backwards and does not pass the tail; otherwise the table is
    /// unchanged and `OffsetOutOfRange` comes back. On success exactly this
    /// key's entry now holds `offset`; every other key is untouched. Stored
    /// offsets never decrease.
    pub fn commit(&mut self, entity_key: u64, partition_id: u32, offset: u64, tail: u64) -> (r:
        Result<(), CoordinatorError>)
        requires
            old(self).wf(),
        ensures
            final(self).wf(),
            r is Ok <==> (offset <= tail && (match old(self).spec_get(entity_key, partition_id) {
                Some(prev) => prev <= offset,
                None => true,
            })),
            r is Ok ==> forall|k: u64, p: u32|
                #![trigger final(self).spec_get(k, p)]
                final(self).spec_get(k, p) == if k == entity_key && p == partition_id {
                    Some(offset)
                } else {
                    old(self).spec_get(k, p)
                },
            r is Err ==> *final(self) == *old(self) && r == Err::<(), CoordinatorError>(
                CoordinatorError::OffsetOutOfRange,
            ),
            forall|k: u64, p: u32|
                #![trigger final(self).spec_get(k, p)]
                old(self).spec_get(k, p) is Some ==> final(self).spec_get(k, p) is Some && old(
                    self,
                ).spec_get(k, p).unwrap() <= final(self).spec_get(k, p).unwrap(),
    {
        if offset > tail {
            return Err(CoordinatorError::OffsetOutOfRange);
        }
        match self.find_entry(entity_key, partition_id) {
            Some(i) => {
                if offset < self.entries[i].offset {
                    return Err(CoordinatorError::OffsetOutOfRange);
                }
                let ghost prev_entries = self@;
                let entry = OffsetEntry { entity_key, partition_id, offset };
                self.entries.set(i, entry);
                proof {
                    assert forall|k: u64, p: u32|
                        #![trigger self.spec_get(k, p)]
                        self.spec_get(k, p) == (if k == entity_key && p == partition_id {
                            Some(offset)
                        } else {
                            spec_lookup(prev_entries, k, p)
                        }) by {
                        lemma_lookup_update(prev_entries, i as int, entry, k, p);
                    }
                    assert(keys_unique(self@)) by {
                        lemma_lookup_update(
                            prev_entries,
                            i as int,
                            entry,
                            entity_key,
                            partition_id,
                        );
                    }
                }
                Ok(())
            },
            None => {
                let ghost prev_entries = self@;
                let entry = OffsetEntry { entity_key, partition_id, offset };
                self.entries.push(entry);
                proof {
                    assert forall|k: u64, p: u32|
                        #![trigger self.spec_get(k, p)]
                        self.spec_get(k, p) == (if k == entity_key && p == partition_id {
                            Some(offset)
                        } else {
                            spec_lookup(prev_entries, k, p)
                        }) by {
                        lemma_lookup_push(prev_entries, entry, k, p);
                    }
                    assert(keys_unique(self@)) by {
                        lemma_lookup_push(prev_entries, entry, entity_key, partition_id);
                    }
                }
                Ok(())
            },
        }
    }
}

} // verus!
