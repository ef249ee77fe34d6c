//! Blocks of a scheduler bucket, ordered by time and then by hash, each hash once.
use crate::blocks::{block_hash, SavedBlock};
use crate::primitives::BlockHash;
use vstd::prelude::*;

verus! {

/// A block and the time by which it is ordered.
#[derive(PartialEq, Eq, Structural, Clone, Copy, Debug)]
pub struct BlockEntry {
    pub time: u64,
    pub block: SavedBlock,
}

impl BlockEntry {
    pub open spec fn hash_spec(self) -> BlockHash {
        block_hash(self.block.block)
    }

    pub fn hash(&self) -> (r: BlockHash)
        ensures
            r == self.hash_spec(),
    {
        self.block.hash()
    }
}

/// Whether `a` comes before `b`: earlier time, or the same time and a smaller hash.
pub open spec fn entry_before(a: BlockEntry, b: BlockEntry) -> bool {
    a.time < b.time || (a.time == b.time && a.hash_spec().number() < b.hash_spec().number())
}

/// Ascending order without repeated hashes.
pub open spec fn ordered(s: Seq<BlockEntry>) -> bool {
    forall|i: int, j: int| 0 <= i < j < s.len() ==> entry_before(s[i], s[j])
}

/// Whether an entry with this hash is present.
pub open spec fn has_block(s: Seq<BlockEntry>, hash: BlockHash) -> bool {
    exists|i: int| 0 <= i < s.len() && s[i].hash_spec() == hash
}

/// The ordered set of a scheduler bucket's blocks.
pub struct OrderedBlocks {
    by_priority: Vec<BlockEntry>,
}

impl OrderedBlocks {
    /// The entries in order.
    pub closed spec fn entries(&self) -> Seq<BlockEntry> {
        self.by_priority@
    }

    pub closed spec fn wf(&self) -> bool {
        ordered(self.by_priority@)
    }

    pub fn new() -> (r: OrderedBlocks)
        ensures
            r.wf(),
            r.entries() == Seq::<BlockEntry>::empty(),
    {
        OrderedBlocks { by_priority: Vec::new() }
    }

    pub fn len(&self) -> (r: usize)
        ensures
            r == self.entries().len(),
    {
        self.by_priority.len()
    }

    pub fn contains(&self, hash: &BlockHash) -> (r: bool)
        ensures
            r == has_block(self.entries(), *hash),
    {
        let mut i: usize = 0;
        while i < self.by_priority.len()
            invariant
                i <= self.by_priority@.len(),
                forall|k: int| 0 <= k < i ==> self.by_priority@[k].hash_spec() != *hash,
            decreases self.by_priority@.len() - i,
        {
            if self.by_priority[i].hash() == *hash {
                return true;
            }
            i = i + 1;
        }
        false
    }

    /// Inserts an entry in its place unless its hash is present; returns whether it was
    /// inserted.
    pub fn insert(&mut self, entry: BlockEntry) -> (r: bool)
        requires
            old(self).wf(),
        ensures
            final(self).wf(),
            r == !has_block(old(self).entries(), entry.hash_spec()),
            !r ==> final(self).entries() == old(self).entries(),
            r ==> exists|p: int|
                0 <= p <= old(self).entries().len() && final(self).entries() == old(self).entries().insert(
                    p,
                    entry,
                ),
    {
        let hash = entry.hash();
        if self.contains(&hash) {
            return false;
        }
        let mut p: usize = 0;
        while p < self.by_priority.len() && (self.by_priority[p].time < entry.time || (self.by_priority[p].time
            == entry.time && self.by_priority[p].hash().less_than(&hash)))
            invariant
                p <= self.by_priority@.len(),
                hash == entry.hash_spec(),
                forall|k: int| 0 <= k < p ==> entry_before(#[trigger] self.by_priority@[k], entry),
            decreases self.by_priority@.len() - p,
        {
            p = p + 1;
        }
        let ghost before = self.by_priority@;
        proof {
            if p < before.len() {
                let e = before[p as int];
                crate::primitives::lemma_number_order(e.hash_spec().hi, e.hash_spec().lo, hash.hi, hash.lo);
                assert(e.hash_spec() != hash);
                assert(entry_before(entry, e));
            }
        }
        self.by_priority.insert(p, entry);
        proof {
            let r = self.by_priority@;
            assert forall|i: int, j: int| 0 <= i < j < r.len() implies entry_before(r[i], r[j]) by {
                if j < p {
                    assert(r[i] == before[i] && r[j] == before[j]);
                } else if j == p {
                    assert(r[i] == before[i]);
                } else if i < p {
                    assert(r[i] == before[i] && r[j] == before[j - 1]);
                    assert(entry_before(before[i], before[j - 1]));
                } else if i == p {
                    assert(r[j] == before[j - 1]);
                    assert(entry_before(entry, before[p as int]));
                    if j - 1 > p {
                        assert(entry_before(before[p as int], before[j - 1]));
                    }
                } else {
                    assert(r[i] == before[i - 1] && r[j] == before[j - 1]);
                }
            }
        }
        true
    }

    /// The first entry in order.
    pub fn first(&self) -> (r: Option<&BlockEntry>)
        ensures
            self.entries().len() == 0 ==> r is None,
            self.entries().len() > 0 ==> r == Some(&self.entries()[0]),
    {
        if self.by_priority.len() == 0 {
            None
        } else {
            Some(&self.by_priority[0])
        }
    }

    /// Removes and returns the first entry in order.
    pub fn pop_first(&mut self) -> (r: Option<BlockEntry>)
        requires
            old(self).wf(),
        ensures
            final(self).wf(),
            old(self).entries().len() == 0 ==> r is None && final(self).entries() == old(self).entries(),
            old(self).entries().len() > 0 ==> r == Some(old(self).entries()[0]) && final(self).entries()
                == old(self).entries().skip(1),
    {
        if self.by_priority.len() == 0 {
            return None;
        }
        let e = self.by_priority.remove(0);
        assert(self.by_priority@ =~= old(self).entries().skip(1));
        Some(e)
    }

    /// Removes and returns the last entry in order.
    pub fn pop_last(&mut self) -> (r: Option<BlockEntry>)
        requires
            old(self).wf(),
        ensures
            final(self).wf(),
            old(self).entries().len() == 0 ==> r is None && final(self).entries() == old(self).entries(),
            old(self).entries().len() > 0 ==> r == Some(old(self).entries().last()) && final(self).entries()
                == old(self).entries().drop_last(),
    {
        let r = self.by_priority.pop();
        proof {
            if old(self).entries().len() > 0 {
                assert(self.by_priority@ =~= old(self).entries().drop_last());
            }
        }
        r
    }

    /// The entries in order.
    pub fn iter(&self) -> (r: &Vec<BlockEntry>)
        ensures
            r@ == self.entries(),
    {
        &self.by_priority
    }
}

} // verus!
