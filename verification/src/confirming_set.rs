//! The set of blocks waiting to be cemented: blocks ready for cementing in the order they
//! came, blocks whose cementing failed and that wait to be requeued, and the blocks of the
//! batch being cemented.
use crate::blocks::SavedBlock;
use crate::config::{ConfirmingSetConfig, ConfirmingSetInfo};
use crate::primitives::{BlockHash, Timestamp};
use vstd::prelude::*;

verus! {

/// A block to cement and when it was added.
#[derive(PartialEq, Eq, Structural, Clone, Copy, Debug)]
pub struct Entry {
    pub hash: BlockHash,
    pub timestamp: Timestamp,
}

/// Whether an entry with this hash is present.
pub open spec fn has_entry(s: Seq<Entry>, hash: BlockHash) -> bool {
    exists|i: int| 0 <= i < s.len() && s[i].hash == hash
}

/// No hash occurs twice.
pub open spec fn unique_hashes(s: Seq<Entry>) -> bool {
    forall|i: int, j: int| 0 <= i < j < s.len() ==> s[i].hash != s[j].hash
}

/// Entries in insertion order, each hash once.
pub struct OrderedEntries {
    entries: Vec<Entry>,
}

impl OrderedEntries {
    pub closed spec fn view(&self) -> Seq<Entry> {
        self.entries@
    }

    pub closed spec fn wf(&self) -> bool {
        unique_hashes(self.entries@)
    }

    pub fn new() -> (r: OrderedEntries)
        ensures
            r.wf(),
            r.view() == Seq::<Entry>::empty(),
    {
        OrderedEntries { entries: Vec::new() }
    }

    /// Appends an entry unless its hash is present; returns whether it was appended.
    pub fn push_back(&mut self, entry: Entry) -> (r: bool)
        requires
            old(self).wf(),
        ensures
            final(self).wf(),
            r == !has_entry(old(self).view(), entry.hash),
            final(self).view() == if r {
                old(self).view().push(entry)
            } else {
                old(self).view()
            },
    {
        if self.contains(&entry.hash) {
            return false;
        }
        self.entries.push(entry);
        true
    }

    /// The index of the entry with this hash.
    fn position(&self, hash: &BlockHash) -> (r: Option<usize>)
        ensures
            r is None <==> !has_entry(self.view(), *hash),
            r matches Some(i) ==> i < self.view().len() && self.view()[i as int].hash == *hash,
    {
        let mut i: usize = 0;
        while i < self.entries.len()
            invariant
                i <= self.entries@.len(),
                forall|k: int| 0 <= k < i ==> self.entries@[k].hash != *hash,
            decreases self.entries@.len() - i,
        {
            if self.entries[i].hash == *hash {
                return Some(i);
            }
            i = i + 1;
        }
        None
    }

    pub fn contains(&self, hash: &BlockHash) -> (r: bool)
        ensures
            r == has_entry(self.view(), *hash),
    {
        self.position(hash).is_some()
    }

    /// Removes and returns the first entry.
    pub fn pop_front(&mut self) -> (r: Option<Entry>)
        requires
            old(self).wf(),
        ensures
            final(self).wf(),
            old(self).view().len() == 0 ==> r is None && final(self).view() == old(self).view(),
            old(self).view().len() > 0 ==> r == Some(old(self).view()[0]) && final(self).view() == old(
                self,
            ).view().skip(1),
    {
        if self.entries.len() == 0 {
            return None;
        }
        let e = self.entries.remove(0);
        assert(self.entries@ =~= old(self).view().skip(1));
        Some(e)
    }

    /// The first entry.
    pub fn front(&self) -> (r: Option<Entry>)
        ensures
            self.view().len() == 0 ==> r is None,
            self.view().len() > 0 ==> r == Some(self.view()[0]),
    {
        if self.entries.len() == 0 {
            None
        } else {
            Some(self.entries[0])
        }
    }

    /// Removes and returns the entry with this hash.
    pub fn remove(&mut self, hash: &BlockHash) -> (r: Option<Entry>)
        requires
            old(self).wf(),
        ensures
            final(self).wf(),
            r is None <==> !has_entry(old(self).view(), *hash),
            r is None ==> final(self).view() == old(self).view(),
            r matches Some(e) ==> exists|i: int|
                0 <= i < old(self).view().len() && old(self).view()[i] == e && e.hash == *hash
                    && final(self).view() == old(self).view().remove(i),
    {
        match self.position(hash) {
            None => None,
            Some(i) => {
                let ghost before = self.entries@;
                let e = self.entries.remove(i);
                proof {
                    assert forall|a: int, b: int| 0 <= a < b < self.entries@.len() implies self.entries@[a].hash
                        != self.entries@[b].hash by {
                        let a2 = if a < i { a } else { a + 1 };
                        let b2 = if b < i { b } else { b + 1 };
                        assert(self.entries@[a] == before[a2] && self.entries@[b] == before[b2]);
                    }
                }
                Some(e)
            },
        }
    }

    pub fn len(&self) -> (r: usize)
        ensures
            r == self.view().len(),
    {
        self.entries.len()
    }
}

/// How many entries a batch of at most `max_count` takes from `set`.
pub open spec fn batch_size(set: Seq<Entry>, max_count: nat) -> nat {
    if set.len() <= max_count {
        set.len()
    } else {
        max_count
    }
}

/// A batch of at most `max_count` takes the first entries of `set` and leaves the others, in
/// order: the batch, then what is left.
pub open spec fn batch_of(set: Seq<Entry>, max_count: nat) -> (Seq<Entry>, Seq<Entry>) {
    (set.take(batch_size(set, max_count) as int), set.skip(batch_size(set, max_count) as int))
}

/// The entries that a cleanup at `now` evicts from the front of `deferred`, oldest first:
/// as long as the first is older than the cutoff, or more than `max_deferred` are waiting.
pub open spec fn evicted_count(deferred: Seq<Entry>, cutoff: u64, max_deferred: nat, k: nat) -> bool {
    &&& k <= deferred.len()
    &&& forall|i: int|
        0 <= i < k ==> #[trigger] deferred[i].timestamp.millis < cutoff || deferred.len() - i > max_deferred
    &&& k < deferred.len() ==> !(deferred[k as int].timestamp.millis < cutoff || deferred.len() - k
        > max_deferred)
}

/// A cleanup leaves at most `max_deferred` blocks deferred, and the oldest one left, if any,
/// is not older than the cutoff.
pub proof fn lemma_cleanup_bounds(deferred: Seq<Entry>, cutoff: u64, max_deferred: nat, k: nat)
    requires
        evicted_count(deferred, cutoff, max_deferred, k),
    ensures
        deferred.len() - k <= max_deferred,
        k < deferred.len() ==> deferred[k as int].timestamp.millis >= cutoff,
{
}

/// The in-memory state of the set of blocks to cement.
pub struct ConfirmingSet {
    set: OrderedEntries,
    deferred: OrderedEntries,
    current: Vec<BlockHash>,
    config: ConfirmingSetConfig,
}

impl ConfirmingSet {
    /// Blocks ready to be cemented, in the order they were added.
    pub closed spec fn ready(&self) -> Seq<Entry> {
        self.set.view()
    }

    /// Blocks that could not be cemented yet (e.g. waiting for rollbacks to complete).
    pub closed spec fn deferred(&self) -> Seq<Entry> {
        self.deferred.view()
    }

    /// Blocks of the batch being cemented.
    pub closed spec fn current(&self) -> Seq<BlockHash> {
        self.current@
    }

    pub closed spec fn config_spec(&self) -> ConfirmingSetConfig {
        self.config
    }

    pub closed spec fn wf(&self) -> bool {
        self.set.wf() && self.deferred.wf()
    }

    pub fn new(config: ConfirmingSetConfig) -> (r: ConfirmingSet)
        ensures
            r.wf(),
            r.ready() == Seq::<Entry>::empty(),
            r.deferred() == Seq::<Entry>::empty(),
            r.current() == Seq::<BlockHash>::empty(),
            r.config_spec() == config,
    {
        ConfirmingSet { set: OrderedEntries::new(), deferred: OrderedEntries::new(), current: Vec::new(), config }
    }

    /// Adds a block to cement, unless it is already waiting as ready; returns whether it was
    /// added.
    pub fn add(&mut self, hash: BlockHash, now: Timestamp) -> (r: bool)
        requires
            old(self).wf(),
        ensures
            final(self).wf(),
            r == !has_entry(old(self).ready(), hash),
            final(self).ready() == if r {
                old(self).ready().push(Entry { hash, timestamp: now })
            } else {
                old(self).ready()
            },
            final(self).deferred() == old(self).deferred(),
            final(self).current() == old(self).current(),
            final(self).config_spec() == old(self).config_spec(),
            has_entry(final(self).ready(), hash),
    {
        let r = self.set.push_back(Entry { hash, timestamp: now });
        proof {
            if r {
                assert(self.ready()[self.ready().len() - 1].hash == hash);
            }
        }
        r
    }

    /// Whether a block is waiting, deferred, or being cemented: added blocks remain until the
    /// ledger has them marked as confirmed.
    pub fn contains(&self, hash: &BlockHash) -> (r: bool)
        ensures
            r == (has_entry(self.ready(), *hash) || has_entry(self.deferred(), *hash) || self.current().contains(
                *hash,
            )),
    {
        if self.set.contains(hash) || self.deferred.contains(hash) {
            return true;
        }
        let mut i: usize = 0;
        while i < self.current.len()
            invariant
                i <= self.current@.len(),
                forall|k: int| 0 <= k < i ==> self.current@[k] != *hash,
            decreases self.current@.len() - i,
        {
            if self.current[i] == *hash {
                return true;
            }
            i = i + 1;
        }
        false
    }

    /// The blocks waiting or being cemented (deferred blocks do not count: they might never be
    /// requeued).
    pub fn len(&self) -> (r: usize)
        requires
            self.ready().len() + self.current().len() <= usize::MAX,
        ensures
            r == self.ready().len() + self.current().len(),
    {
        self.set.len() + self.current.len()
    }

    pub fn info(&self) -> (r: ConfirmingSetInfo)
        ensures
            r.size == self.ready().len(),
            r.max_size == self.config_spec().max_blocks,
    {
        ConfirmingSetInfo { size: self.set.len(), max_size: self.config.max_blocks }
    }

    /// Takes the next batch (see `batch_of`) and marks its blocks as being cemented. The blocks
    /// after it stay ready, none is dropped: a block that was added stays in the set until it
    /// is cemented (or its cementing fails and it is deferred). The count is checked before an
    /// entry is taken, so no entry is taken off past a full batch, with `max_count` zero too.
    pub fn next_batch(&mut self, max_count: usize) -> (r: Vec<Entry>)
        requires
            old(self).wf(),
        ensures
            final(self).wf(),
            r@ == batch_of(old(self).ready(), max_count as nat).0,
            final(self).ready() == batch_of(old(self).ready(), max_count as nat).1,
            r@ + final(self).ready() == old(self).ready(),
            final(self).current() == old(self).current() + r@.map_values(|e: Entry| e.hash),
            final(self).deferred() == old(self).deferred(),
            final(self).config_spec() == old(self).config_spec(),
    {
        let ghost start = self.set.view();
        let ghost start_current = self.current@;
        let mut results: Vec<Entry> = Vec::new();
        loop
            invariant_except_break
                self.wf(),
                results@.len() <= max_count,
                results@.len() <= start.len(),
                results@ == start.take(results@.len() as int),
                self.set.view() == start.skip(results@.len() as int),
                self.current@ == start_current + results@.map_values(|e: Entry| e.hash),
                self.deferred == old(self).deferred,
                self.config == old(self).config,
            ensures
                self.wf(),
                results@ == batch_of(start, max_count as nat).0,
                self.set.view() == batch_of(start, max_count as nat).1,
                self.current@ == start_current + results@.map_values(|e: Entry| e.hash),
                self.deferred == old(self).deferred,
                self.config == old(self).config,
            decreases self.set.view().len(),
        {
            let ghost taken = results@.len();
            if results.len() >= max_count {
                break;
            }
            match self.set.pop_front() {
                None => {
                    assert(start.take(taken as int) =~= start);
                    assert(start.skip(taken as int).len() == 0);
                    break;
                },
                Some(entry) => {
                    results.push(entry);
                    self.current.push(entry.hash);
                    assert(start.take(taken as int + 1) =~= start.take(taken as int).push(entry));
                    assert(start.skip(taken as int).skip(1) =~= start.skip(taken as int + 1));
                    assert(results@.map_values(|e: Entry| e.hash) =~= results@.drop_last().map_values(
                        |e: Entry| e.hash,
                    ).push(entry.hash));
                },
            }
        }
        proof {
            assert(results@ + self.set.view() =~= start);
        }
        results
    }

    /// Drops deferred blocks that waited longer than the age cutoff before `now`, and the
    /// oldest ones while more than the maximum wait (see `evicted_count`); returns them.
    pub fn cleanup(&mut self, now: Timestamp) -> (r: Vec<Entry>)
        requires
            old(self).wf(),
        ensures
            final(self).wf(),
            evicted_count(
                old(self).deferred(),
                now.minus_spec(old(self).config_spec().deferred_age_cutoff).millis,
                old(self).config_spec().max_deferred as nat,
                r@.len(),
            ),
            r@ == old(self).deferred().take(r@.len() as int),
            final(self).deferred() == old(self).deferred().skip(r@.len() as int),
            final(self).ready() == old(self).ready(),
            final(self).current() == old(self).current(),
            final(self).config_spec() == old(self).config_spec(),
    {
        let cutoff = now.minus(self.config.deferred_age_cutoff);
        let ghost start = self.deferred.view();
        let mut evicted: Vec<Entry> = Vec::new();
        loop
            invariant_except_break
                self.wf(),
                evicted@.len() <= start.len(),
                evicted@ == start.take(evicted@.len() as int),
                self.deferred.view() == start.skip(evicted@.len() as int),
                forall|i: int|
                    0 <= i < evicted@.len() ==> #[trigger] start[i].timestamp.millis < cutoff.millis
                        || start.len() - i > self.config.max_deferred,
                self.set == old(self).set,
                self.current == old(self).current,
                self.config == old(self).config,
                cutoff == now.minus_spec(self.config.deferred_age_cutoff),
            ensures
                self.wf(),
                evicted_count(start, cutoff.millis, self.config.max_deferred as nat, evicted@.len()),
                evicted@ == start.take(evicted@.len() as int),
                self.deferred.view() == start.skip(evicted@.len() as int),
                self.set == old(self).set,
                self.current == old(self).current,
                self.config == old(self).config,
                cutoff == now.minus_spec(self.config.deferred_age_cutoff),
            decreases self.deferred.view().len(),
        {
            let k = evicted.len();
            let front = match self.deferred.front() {
                Some(e) => e,
                None => {
                    break;
                },
            };
            assert(front == start[k as int]);
            if front.timestamp.millis < cutoff.millis || self.deferred.len() > self.config.max_deferred {
                let e = match self.deferred.pop_front() {
                    Some(e) => e,
                    None => {
                        break;
                    },
                };
                evicted.push(e);
                assert(start.take(k + 1) =~= start.take(k as int).push(e));
                assert(start.skip(k as int).skip(1) =~= start.skip(k + 1));
            } else {
                break;
            }
        }
        evicted
    }

    /// Defers a block whose cementing failed, to be requeued later.
    pub fn defer(&mut self, entry: Entry) -> (r: bool)
        requires
            old(self).wf(),
        ensures
            final(self).wf(),
            r == !has_entry(old(self).deferred(), entry.hash),
            final(self).deferred() == if r {
                old(self).deferred().push(entry)
            } else {
                old(self).deferred()
            },
            final(self).ready() == old(self).ready(),
            final(self).current() == old(self).current(),
            final(self).config_spec() == old(self).config_spec(),
    {
        self.deferred.push_back(entry)
    }

    /// Marks the batch as done: no block is being cemented any more.
    pub fn finish_batch(&mut self)
        ensures
            final(self).current() == Seq::<BlockHash>::empty(),
            final(self).ready() == old(self).ready(),
            final(self).deferred() == old(self).deferred(),
            final(self).config_spec() == old(self).config_spec(),
            final(self).wf() == old(self).wf(),
    {
        self.current.clear();
    }

    /// Moves the deferred blocks with these hashes back to the ready ones; returns whether
    /// any moved.
    pub fn requeue(&mut self, hashes: &[BlockHash]) -> (r: bool)
        requires
            old(self).wf(),
        ensures
            final(self).wf(),
            r == exists|i: int| 0 <= i < hashes@.len() && has_entry(old(self).deferred(), #[trigger] hashes@[i]),
            forall|h: BlockHash| #[trigger] has_entry(final(self).deferred(), h) <==> (has_entry(
                old(self).deferred(),
                h,
            ) && !hashes@.contains(h)),
            forall|h: BlockHash| #[trigger] has_entry(final(self).ready(), h) <==> (has_entry(
                old(self).ready(),
                h,
            ) || (has_entry(old(self).deferred(), h) && hashes@.contains(h))),
            final(self).current() == old(self).current(),
            final(self).config_spec() == old(self).config_spec(),
    {
        let mut moved = false;
        let mut i: usize = 0;
        while i < hashes.len()
            invariant
                self.wf(),
                i <= hashes@.len(),
                moved == exists|k: int| 0 <= k < i && has_entry(old(self).deferred(), #[trigger] hashes@[k]),
                forall|h: BlockHash| #[trigger] has_entry(self.deferred.view(), h) <==> (has_entry(
                    old(self).deferred(),
                    h,
                ) && !hashes@.take(i as int).contains(h)),
                forall|h: BlockHash| #[trigger] has_entry(self.set.view(), h) <==> (has_entry(
                    old(self).ready(),
                    h,
                ) || (has_entry(old(self).deferred(), h) && hashes@.take(i as int).contains(h))),
                self.current == old(self).current,
                self.config == old(self).config,
            decreases hashes@.len() - i,
        {
            let h = hashes[i];
            let ghost d0 = self.deferred.view();
            let ghost s0 = self.set.view();
            let removed = self.deferred.remove(&h);
            match removed {
                Some(entry) => {
                    self.set.push_back(entry);
                    moved = true;
                },
                None => {},
            }
            proof {
                let t = hashes@.take(i as int);
                let t1 = hashes@.take(i + 1);
                assert(t1 =~= t.push(h));
                assert forall|x: BlockHash| #[trigger] t1.contains(x) <==> (t.contains(x) || x == h) by {
                    if t.contains(x) {
                        let k = choose|k: int| 0 <= k < t.len() && t[k] == x;
                        assert(t1[k] == x);
                    }
                    if x == h {
                        assert(t1[i as int] == h);
                    }
                    if t1.contains(x) {
                        let k = choose|k: int| 0 <= k < t1.len() && t1[k] == x;
                        if k < i {
                            assert(t[k] == x);
                        }
                    }
                }
                assert forall|x: BlockHash| #[trigger] has_entry(self.deferred.view(), x) <==> (has_entry(
                    d0,
                    x,
                ) && x != h) by {
                    if let Some(entry) = removed {
                        let j = choose|j: int|
                            0 <= j < d0.len() && d0[j] == entry && entry.hash == h && self.deferred.view()
                                == d0.remove(j);
                        if has_entry(self.deferred.view(), x) {
                            let k = choose|k: int| 0 <= k < self.deferred.view().len() && self.deferred.view()[k].hash == x;
                            let k2 = if k < j { k } else { k + 1 };
                            assert(d0[k2].hash == x);
                            assert(k2 != j);
                        }
                        if has_entry(d0, x) && x != h {
                            let k = choose|k: int| 0 <= k < d0.len() && d0[k].hash == x;
                            assert(k != j);
                            let k2 = if k < j { k } else { k - 1 };
                            assert(self.deferred.view()[k2].hash == x);
                        }
                    }
                }
                assert forall|x: BlockHash| #[trigger] has_entry(self.set.view(), x) <==> (has_entry(s0, x) || (
                has_entry(d0, x) && x == h)) by {
                    if let Some(entry) = removed {
                        if has_entry(self.set.view(), x) && !has_entry(s0, x) {
                            let k = choose|k: int| 0 <= k < self.set.view().len() && self.set.view()[k].hash == x;
                            assert(self.set.view() == s0.push(entry));
                            assert(k == s0.len());
                        }
                        if has_entry(s0, x) {
                            let k = choose|k: int| 0 <= k < s0.len() && s0[k].hash == x;
                            if has_entry(s0, entry.hash) {
                            } else {
                                assert(self.set.view()[k] == s0[k]);
                            }
                        }
                        if has_entry(d0, x) && x == h && !has_entry(s0, x) {
                            assert(self.set.view()[s0.len() as int] == entry);
                        }
                    }
                }
            }
            i = i + 1;
        }
        assert(hashes@.take(hashes@.len() as int) =~= hashes@);
        moved
    }
}

/// Where cementing a block stands after one attempt against the ledger.
#[derive(PartialEq, Eq, Structural, Clone, Copy, Debug)]
pub enum CementStep {
    /// The block is gone (rolled back): cementing failed and the block is deferred.
    Failed,
    /// The block is confirmed now.
    Cemented,
    /// The ledger confirmed only part of the chain: try again.
    Again,
}

/// The step after one attempt to cement a block, given whether the block still exists, how
/// many blocks the attempt confirmed and whether the block is confirmed afterwards; and whether
/// the attempt found the block already cemented (it existed and nothing was confirmed).
pub fn cement_step(block_exists: bool, added: usize, confirmed_now: bool) -> (r: (CementStep, bool))
    ensures
        r.0 == if !block_exists {
            CementStep::Failed
        } else if confirmed_now {
            CementStep::Cemented
        } else {
            CementStep::Again
        },
        r.1 == (block_exists && added == 0),
{
    if !block_exists {
        return (CementStep::Failed, false);
    }
    let already_cemented = added == 0;
    if confirmed_now {
        (CementStep::Cemented, already_cemented)
    } else {
        (CementStep::Again, already_cemented)
    }
}

/// A block that cementing confirmed, with the hash of the batch entry whose cementing
/// confirmed it.
#[derive(PartialEq, Eq, Structural, Clone, Copy, Debug)]
pub struct CementedBlock {
    pub block: SavedBlock,
    pub confirmation_root: BlockHash,
}

/// The blocks that `added` reports, each with `root` as its confirmation root, in order.
pub open spec fn reports_of(added: Seq<SavedBlock>, root: BlockHash) -> Seq<CementedBlock> {
    added.map_values(|b: SavedBlock| CementedBlock { block: b, confirmation_root: root })
}

/// What a batch reports to its observers: the blocks cemented since the last notification,
/// and the hashes of the entries that were found already cemented.
pub struct BatchReport {
    pub cemented: Vec<CementedBlock>,
    pub already_cemented: Vec<BlockHash>,
}

impl BatchReport {
    /// Nothing reported yet.
    pub fn new() -> (r: BatchReport)
        ensures
            r.cemented@ == Seq::<CementedBlock>::empty(),
            r.already_cemented@ == Seq::<BlockHash>::empty(),
    {
        BatchReport { cemented: Vec::new(), already_cemented: Vec::new() }
    }

    /// Records one attempt to cement the entry `root`, in which the ledger confirmed `added`:
    /// each of those blocks is reported with `root` as its confirmation root; when the attempt
    /// confirmed nothing, `root` was already cemented.
    pub fn record(&mut self, root: BlockHash, added: &[SavedBlock])
        ensures
            final(self).cemented@ == old(self).cemented@ + reports_of(added@, root),
            final(self).already_cemented@ == if added@.len() == 0 {
                old(self).already_cemented@.push(root)
            } else {
                old(self).already_cemented@
            },
    {
        let ghost start = self.cemented@;
        let mut i: usize = 0;
        while i < added.len()
            invariant
                i <= added@.len(),
                self.cemented@ == start + reports_of(added@.take(i as int), root),
                self.already_cemented@ == old(self).already_cemented@,
            decreases added@.len() - i,
        {
            self.cemented.push(CementedBlock { block: added[i], confirmation_root: root });
            assert(reports_of(added@.take(i as int + 1), root) =~= reports_of(added@.take(i as int), root).push(
                CementedBlock { block: added@[i as int], confirmation_root: root },
            ));
            i = i + 1;
        }
        assert(added@.take(added@.len() as int) =~= added@);
        if added.len() == 0 {
            self.already_cemented.push(root);
        }
    }

    /// Hands out the cemented blocks gathered so far when there are at least `max_blocks` of
    /// them (the notification in the middle of a batch), and nothing otherwise.
    pub fn take_if_full(&mut self, max_blocks: usize) -> (r: Vec<CementedBlock>)
        ensures
            old(self).cemented@.len() >= max_blocks ==> r@ == old(self).cemented@
                && final(self).cemented@ == Seq::<CementedBlock>::empty(),
            old(self).cemented@.len() < max_blocks ==> r@ == Seq::<CementedBlock>::empty()
                && final(self).cemented@ == old(self).cemented@,
            final(self).already_cemented@ == old(self).already_cemented@,
    {
        if self.cemented.len() >= max_blocks {
            self.take_cemented()
        } else {
            Vec::new()
        }
    }

    /// Hands out all cemented blocks gathered so far (the notification at the end of a batch).
    pub fn take_cemented(&mut self) -> (r: Vec<CementedBlock>)
        ensures
            r@ == old(self).cemented@,
            final(self).cemented@ == Seq::<CementedBlock>::empty(),
            final(self).already_cemented@ == old(self).already_cemented@,
    {
        let mut taken: Vec<CementedBlock> = Vec::new();
        std::mem::swap(&mut taken, &mut self.cemented);
        taken
    }
}

} // verus!
