//! The bounded backlog keeps the number of unconfirmed blocks in check: it tracks them by
//! priority bucket and picks the least prioritised ones of overfull buckets to roll back.
use crate::backlog_index::{
    bucket_len, bucket_order, has_hash, walk_result, BacklogEntry, BacklogIndex,
};
use crate::block_processing::BlockStatus;
use crate::blocks::{block_hash, priority_balance, priority_timestamp, block_priority, SavedBlock};
use crate::bucketing::{bucket_of, Bucketing};
use crate::primitives::{Account, BlockHash};
use crate::seqs::retain;
use vstd::prelude::*;

verus! {

/// Limits of the bounded backlog.
#[derive(PartialEq, Eq, Structural, Clone, Copy, Debug)]
pub struct BoundedBacklogConfig {
    pub max_backlog: usize,
    pub bucket_threshold: usize,
    pub batch_size: usize,
    pub max_queued_notifications: usize,
}

impl BoundedBacklogConfig {
    /// 100000 unconfirmed blocks, 1000 per bucket, batches of 32, 128 queued notifications.
    pub fn default_config() -> (r: BoundedBacklogConfig)
        ensures
            r.max_backlog == 100000,
            r.bucket_threshold == 1000,
            r.batch_size == 32,
            r.max_queued_notifications == 128,
    {
        BoundedBacklogConfig {
            max_backlog: 100_000,
            bucket_threshold: 1_000,
            batch_size: 32,
            max_queued_notifications: 128,
        }
    }
}

/// How many blocks to roll back in one round: the excess of the ledger's backlog over the
/// maximum, at most a batch.
pub fn rollback_target_count(backlog: usize, config: &BoundedBacklogConfig) -> (r: usize)
    ensures
        r == if backlog > config.max_backlog {
            if backlog - config.max_backlog < config.batch_size {
                backlog - config.max_backlog
            } else {
                config.batch_size as int
            }
        } else {
            0
        },
{
    let target_count = if backlog > config.max_backlog {
        backlog - config.max_backlog
    } else {
        0
    };
    if target_count < config.batch_size {
        target_count
    } else {
        config.batch_size
    }
}

/// Whether rolling back is due: both the ledger's backlog and the backlog in the index exceed the
/// maximum.
pub fn rollback_due(ledger_backlog: usize, index_len: usize, config: &BoundedBacklogConfig) -> (r: bool)
    ensures
        r == (ledger_backlog > config.max_backlog && index_len > config.max_backlog),
{
    ledger_backlog > config.max_backlog && index_len > config.max_backlog
}

/// How many targets one bucket may give: `max_count`, at most a batch.
pub open spec fn per_bucket(max_count: usize, config: BoundedBacklogConfig) -> nat {
    if max_count < config.batch_size {
        max_count as nat
    } else {
        config.batch_size as nat
    }
}

/// The parts one after another.
pub open spec fn concat_all(parts: Seq<Seq<BlockHash>>) -> Seq<BlockHash>
    decreases parts.len(),
{
    if parts.len() == 0 {
        Seq::empty()
    } else {
        concat_all(parts.drop_last()) + parts.last()
    }
}

/// `parts[b]` is what bucket `b` yields (with the filter's answers `answers[b]`): the first
/// `count` blocks of its priority order that pass the filter if it holds more than
/// `threshold` blocks, else nothing.
pub open spec fn gathered(
    entries: Seq<BacklogEntry>,
    threshold: nat,
    count: nat,
    parts: Seq<Seq<BlockHash>>,
    answers: Seq<Seq<bool>>,
) -> bool {
    &&& answers.len() == parts.len()
    &&& forall|b: int|
        0 <= b < parts.len() && bucket_len(entries, b) > threshold ==> walk_result(
            bucket_order(entries, b),
            count,
            answers[b],
            #[trigger] parts[b],
        )
    &&& forall|b: int|
        0 <= b < parts.len() && !(bucket_len(entries, b) > threshold) ==> (#[trigger] parts[b]).len() == 0
            && answers[b].len() == 0
}

/// What the rollback of one target came to.
pub enum RollbackOutcome {
    /// The target may not be rolled back now.
    Skipped,
    /// The target is no longer in the ledger.
    Missing,
    /// These blocks were rolled back (the target and its dependents).
    RolledBack(Vec<BlockHash>),
}

/// The hashes that a rollback outcome removes from the index: the rolled back blocks, or a
/// target that is gone; nothing for a skipped one.
pub open spec fn removed_by(target: BlockHash, outcome: RollbackOutcome) -> Seq<BlockHash> {
    match outcome {
        RollbackOutcome::Skipped => Seq::empty(),
        RollbackOutcome::Missing => seq![target],
        RollbackOutcome::RolledBack(list) => list@,
    }
}

/// The unconfirmed blocks the node tracks, by priority bucket.
/// The index entry of a saved block (`previous` is the block before it): in the bucket of its
/// priority balance, ordered by its priority timestamp.
pub open spec fn entry_of(buckets: Seq<int>, block: SavedBlock, previous: Option<&SavedBlock>) -> BacklogEntry {
    BacklogEntry {
        hash: block_hash(block.block),
        account: block.sideband.account,
        bucket_index: bucket_of(buckets, priority_balance(block, previous) as int) as usize,
        priority: crate::primitives::UnixTimestamp { secs: priority_timestamp(block, previous) },
    }
}

/// The entries with `e` added, unless its hash is in already.
pub open spec fn with_entry(entries: Seq<BacklogEntry>, e: BacklogEntry) -> Seq<BacklogEntry> {
    if has_hash(entries, e.hash) {
        entries
    } else {
        entries.push(e)
    }
}

/// The entries after inserting, in order, the saved blocks of the processing results that
/// made progress (each with the block before it).
pub open spec fn after_inserts(
    entries: Seq<BacklogEntry>,
    buckets: Seq<int>,
    batch: Seq<(BlockStatus, Option<SavedBlock>, Option<SavedBlock>)>,
) -> Seq<BacklogEntry>
    decreases batch.len(),
{
    if batch.len() == 0 {
        entries
    } else {
        let before = after_inserts(entries, buckets, batch.drop_last());
        let (status, saved, previous) = batch.last();
        match saved {
            Some(block) => if status == BlockStatus::Progress {
                with_entry(before, entry_of(buckets, block, match previous {
                    Some(p) => Some(&p),
                    None => None,
                }))
            } else {
                before
            },
            None => before,
        }
    }
}

pub struct BoundedBacklog {
    index: BacklogIndex,
    bucketing: Bucketing,
    config: BoundedBacklogConfig,
}

impl BoundedBacklog {
    pub closed spec fn entries(&self) -> Seq<BacklogEntry> {
        self.index.entries()
    }

    pub closed spec fn buckets(&self) -> Seq<int> {
        self.bucketing.minimums()
    }

    pub closed spec fn config_spec(&self) -> BoundedBacklogConfig {
        self.config
    }

    pub closed spec fn wf(&self) -> bool {
        self.index.wf() && self.index.bucket_count() == self.bucketing.minimums().len()
    }

    pub fn new(bucketing: Bucketing, config: BoundedBacklogConfig) -> (r: BoundedBacklog)
        ensures
            r.wf(),
            r.entries() == Seq::<BacklogEntry>::empty(),
            r.buckets() == bucketing.minimums(),
            r.config_spec() == config,
    {
        let index = BacklogIndex::new(bucketing.bucket_count());
        BoundedBacklog { index, bucketing, config }
    }

    /// Adds a saved block (`previous` is the block before it) to the index in the bucket of its
    /// priority balance, ordered by its priority timestamp; returns whether it was new.
    pub fn insert(&mut self, block: &SavedBlock, previous: Option<&SavedBlock>) -> (r: bool)
        requires
            old(self).wf(),
            old(self).entries().len() < usize::MAX,
        ensures
            final(self).wf(),
            final(self).buckets() == old(self).buckets(),
            final(self).config_spec() == old(self).config_spec(),
            r == !has_hash(old(self).entries(), block_hash(block.block)),
            final(self).entries() == with_entry(
                old(self).entries(),
                entry_of(old(self).buckets(), *block, previous),
            ),
    {
        let (balance, timestamp) = block_priority(block, previous);
        let bucket_index = self.bucketing.bucket_index(balance);
        self.index.insert(
            BacklogEntry { hash: block.hash(), account: block.account(), bucket_index, priority: timestamp },
        )
    }

    /// Inserts the saved blocks of the processing results that made progress, in order (each
    /// result carries the block before its block, if any).
    pub fn insert_batch(&mut self, batch: &[(BlockStatus, Option<SavedBlock>, Option<SavedBlock>)])
        requires
            old(self).wf(),
            old(self).entries().len() + batch@.len() < usize::MAX,
        ensures
            final(self).wf(),
            final(self).buckets() == old(self).buckets(),
            final(self).config_spec() == old(self).config_spec(),
            final(self).entries() == after_inserts(old(self).entries(), old(self).buckets(), batch@),
    {
        let mut i: usize = 0;
        while i < batch.len()
            invariant
                i <= batch@.len(),
                self.wf(),
                self.buckets() == old(self).buckets(),
                self.config_spec() == old(self).config_spec(),
                self.entries() == after_inserts(old(self).entries(), old(self).buckets(), batch@.take(i as int)),
                self.entries().len() <= old(self).entries().len() + i,
                old(self).entries().len() + batch@.len() < usize::MAX,
            decreases batch@.len() - i,
        {
            assert(batch@.take(i + 1).drop_last() =~= batch@.take(i as int));
            let (status, saved, previous) = &batch[i];
            match saved {
                Some(block) => {
                    if *status == BlockStatus::Progress {
                        let prev = match previous {
                            Some(p) => Some(p),
                            None => None,
                        };
                        self.insert(block, prev);
                    }
                },
                None => {},
            }
            i = i + 1;
        }
        assert(batch@.take(batch@.len() as int) =~= batch@);
    }

    /// One step of activating an account from its head block down: a block at the
    /// confirmed frontier, or one already in the index, ends the walk; any other block enters it
    /// and the walk goes on to its previous block. Returns whether it goes on.
    pub fn activate_step(&mut self, block: &SavedBlock, previous: Option<&SavedBlock>, confirmed_frontier: &BlockHash) -> (r: bool)
        requires
            old(self).wf(),
            old(self).entries().len() < usize::MAX,
        ensures
            final(self).wf(),
            final(self).buckets() == old(self).buckets(),
            final(self).config_spec() == old(self).config_spec(),
            r == (block_hash(block.block) != *confirmed_frontier && !has_hash(
                old(self).entries(),
                block_hash(block.block),
            )),
            !r ==> final(self).entries() == old(self).entries(),
            r ==> final(self).entries() == old(self).entries().push(
                entry_of(old(self).buckets(), *block, previous),
            ),
    {
        let hash = block.hash();
        if hash == *confirmed_frontier {
            return false;
        }
        if self.index.contains(&hash) {
            return false;
        }
        self.insert(block, previous)
    }

    /// Stops tracking the blocks of these accounts.
    pub fn erase_accounts(&mut self, accounts: &[Account])
        requires
            old(self).wf(),
        ensures
            final(self).wf(),
            final(self).buckets() == old(self).buckets(),
            final(self).config_spec() == old(self).config_spec(),
            final(self).entries() == retain(old(self).entries(), |e: BacklogEntry| !accounts@.contains(e.account)),
    {
        let ghost start = self.index.entries();
        proof {
            let p0 = |e: BacklogEntry| !accounts@.take(0).contains(e.account);
            crate::seqs::lemma_retain_all_none(start, p0);
            assert forall|k: int| 0 <= k < start.len() implies p0(start[k]) by {
                assert(accounts@.take(0) =~= Seq::<Account>::empty());
            }
        }
        let mut i: usize = 0;
        while i < accounts.len()
            invariant
                i <= accounts@.len(),
                self.wf(),
                self.buckets() == old(self).buckets(),
                self.config == old(self).config,
                start == old(self).entries(),
                self.index.entries() == retain(start, |e: BacklogEntry| !accounts@.take(i as int).contains(e.account)),
            decreases accounts@.len() - i,
        {
            let ghost before = self.index.entries();
            self.index.erase_account(&accounts[i]);
            proof {
                let a = accounts@[i as int];
                let p = |e: BacklogEntry| !accounts@.take(i as int).contains(e.account);
                let q = |e: BacklogEntry| e.account != a;
                let pq = |e: BacklogEntry| !accounts@.take(i + 1).contains(e.account);
                crate::seqs::lemma_retain_retain(start, p, q);
                assert forall|e: BacklogEntry| #[trigger] pq(e) == (p(e) && q(e)) by {
                    let t = accounts@.take(i as int);
                    let t1 = accounts@.take(i + 1);
                    assert(t1 =~= t.push(a));
                    if t.contains(e.account) {
                        let k = choose|k: int| 0 <= k < t.len() && t[k] == e.account;
                        assert(t1[k] == e.account);
                    }
                    if e.account == a {
                        assert(t1[i as int] == a);
                    }
                    if t1.contains(e.account) {
                        let k = choose|k: int| 0 <= k < t1.len() && t1[k] == e.account;
                        if k < i {
                            assert(t[k] == e.account);
                        }
                    }
                }
                assert((|e: BacklogEntry| p(e) && q(e)) =~= pq);
            }
            i = i + 1;
        }
        assert(accounts@.take(accounts@.len() as int) =~= accounts@);
    }

    /// Stops tracking these blocks.
    pub fn erase_hashes(&mut self, hashes: &[BlockHash])
        requires
            old(self).wf(),
        ensures
            final(self).wf(),
            final(self).buckets() == old(self).buckets(),
            final(self).config_spec() == old(self).config_spec(),
            final(self).entries() == retain(old(self).entries(), |e: BacklogEntry| !hashes@.contains(e.hash)),
    {
        let ghost start = self.index.entries();
        proof {
            let p0 = |e: BacklogEntry| !hashes@.take(0).contains(e.hash);
            crate::seqs::lemma_retain_all_none(start, p0);
            assert forall|k: int| 0 <= k < start.len() implies p0(start[k]) by {
                assert(hashes@.take(0) =~= Seq::<BlockHash>::empty());
            }
        }
        let mut i: usize = 0;
        while i < hashes.len()
            invariant
                i <= hashes@.len(),
                self.wf(),
                self.buckets() == old(self).buckets(),
                self.config == old(self).config,
                start == old(self).entries(),
                self.index.entries() == retain(start, |e: BacklogEntry| !hashes@.take(i as int).contains(e.hash)),
            decreases hashes@.len() - i,
        {
            self.index.erase_hash(&hashes[i]);
            proof {
                let h = hashes@[i as int];
                let p = |e: BacklogEntry| !hashes@.take(i as int).contains(e.hash);
                let q = |e: BacklogEntry| e.hash != h;
                let pq = |e: BacklogEntry| !hashes@.take(i + 1).contains(e.hash);
                crate::seqs::lemma_retain_retain(start, p, q);
                assert forall|e: BacklogEntry| #[trigger] pq(e) == (p(e) && q(e)) by {
                    let t = hashes@.take(i as int);
                    let t1 = hashes@.take(i + 1);
                    assert(t1 =~= t.push(h));
                    if t.contains(e.hash) {
                        let k = choose|k: int| 0 <= k < t.len() && t[k] == e.hash;
                        assert(t1[k] == e.hash);
                    }
                    if e.hash == h {
                        assert(t1[i as int] == h);
                    }
                    if t1.contains(e.hash) {
                        let k = choose|k: int| 0 <= k < t1.len() && t1[k] == e.hash;
                        if k < i {
                            assert(t[k] == e.hash);
                        }
                    }
                }
                assert((|e: BacklogEntry| p(e) && q(e)) =~= pq);
            }
            i = i + 1;
        }
        assert(hashes@.take(hashes@.len() as int) =~= hashes@);
    }

    /// Whether a block is in the index.
    pub fn contains(&self, hash: &BlockHash) -> (r: bool)
        ensures
            r == has_hash(self.entries(), *hash),
    {
        self.index.contains(hash)
    }

    /// The number of blocks in the index.
    pub fn len(&self) -> (r: usize)
        ensures
            r == self.entries().len(),
    {
        self.index.len()
    }

    /// The blocks to roll back: from the lowest bucket up, of each bucket that holds more than
    /// the bucket threshold, the least prioritised blocks that `can_rollback` lets go, at most
    /// `min(max_count, batch size)` of each.
    pub fn gather_targets<F: Fn(&BlockHash) -> bool>(&self, max_count: usize, can_rollback: &F) -> (r: Vec<BlockHash>)
        requires
            self.wf(),
            forall|h: BlockHash| call_requires(can_rollback, (&h,)),
        ensures
            exists|parts: Seq<Seq<BlockHash>>, answers: Seq<Seq<bool>>|
                parts.len() == self.buckets().len() && #[trigger] gathered(
                    self.entries(),
                    self.config_spec().bucket_threshold as nat,
                    per_bucket(max_count, self.config_spec()),
                    parts,
                    answers,
                ) && r@ == concat_all(parts) && forall|b: int, i: int|
                    0 <= b < answers.len() && 0 <= i < answers[b].len() ==> call_ensures(
                        can_rollback,
                        (&bucket_order(self.entries(), b)[i],),
                        #[trigger] answers[b][i],
                    ),
    {
        let count = if max_count < self.config.batch_size {
            max_count
        } else {
            self.config.batch_size
        };
        let bucket_count = self.bucketing.bucket_count();
        let mut targets: Vec<BlockHash> = Vec::new();
        let ghost mut parts: Seq<Seq<BlockHash>> = Seq::empty();
        let ghost mut answers: Seq<Seq<bool>> = Seq::empty();
        let mut bucket: usize = 0;
        while bucket < bucket_count
            invariant
                self.wf(),
                bucket <= bucket_count,
                bucket_count == self.index.bucket_count(),
                forall|h: BlockHash| call_requires(can_rollback, (&h,)),
                parts.len() == bucket,
                gathered(self.index.entries(), self.config.bucket_threshold as nat, count as nat, parts, answers),
                targets@ == concat_all(parts),
                forall|b: int, i: int|
                    0 <= b < answers.len() && 0 <= i < answers[b].len() ==> call_ensures(
                        can_rollback,
                        (&bucket_order(self.index.entries(), b)[i],),
                        #[trigger] answers[b][i],
                    ),
            decreases bucket_count - bucket,
        {
            let ghost old_parts = parts;
            let ghost old_answers = answers;
            let ghost old_targets = targets@;
            if self.index.len_of_bucket(bucket) > self.config.bucket_threshold {
                let top = self.index.top(bucket, count, can_rollback);
                let ghost d = choose|d: Seq<bool>|
                    walk_result(bucket_order(self.index.entries(), bucket as int), count as nat, d, top@)
                        && forall|i: int|
                        0 <= i < d.len() ==> call_ensures(
                            can_rollback,
                            (&bucket_order(self.index.entries(), bucket as int)[i],),
                            #[trigger] d[i],
                        );
                let mut k: usize = 0;
                while k < top.len()
                    invariant
                        k <= top@.len(),
                        targets@ == old_targets + top@.take(k as int),
                    decreases top@.len() - k,
                {
                    targets.push(top[k]);
                    assert(top@.take(k + 1) =~= top@.take(k as int).push(top@[k as int]));
                    k = k + 1;
                }
                assert(top@.take(top@.len() as int) =~= top@);
                proof {
                    parts = old_parts.push(top@);
                    answers = old_answers.push(d);
                    assert(bucket_len(self.index.entries(), bucket as int) > self.config.bucket_threshold as nat);
                }
            } else {
                proof {
                    parts = old_parts.push(Seq::empty());
                    answers = old_answers.push(Seq::empty());
                    assert(!(bucket_len(self.index.entries(), bucket as int) > self.config.bucket_threshold as nat));
                }
            }
            proof {
                assert(parts.drop_last() =~= old_parts);
                assert(targets@ =~= concat_all(parts));
                lemma_gathered_push(self.index.entries(), self.config.bucket_threshold as nat, count as nat, old_parts, old_answers, parts.last(), answers.last());
                assert(old_parts.push(parts.last()) =~= parts);
                assert(old_answers.push(answers.last()) =~= answers);
                assert forall|b: int, i: int|
                    0 <= b < answers.len() && 0 <= i < answers[b].len() implies call_ensures(
                        can_rollback,
                        (&bucket_order(self.index.entries(), b)[i],),
                        #[trigger] answers[b][i],
                    ) by {
                    if b < bucket {
                        assert(answers[b] == old_answers[b]);
                    }
                }
            }
            bucket = bucket + 1;
        }
        assert(count as nat == per_bucket(max_count, self.config));
        // the parts and answers gathered are the witnesses of the postcondition
        assert(gathered(self.entries(), self.config_spec().bucket_threshold as nat, per_bucket(max_count, self.config_spec()), parts, answers));
        targets
    }
}

/// Adding the part of the next bucket keeps `gathered`.
#[verifier::spinoff_prover]
proof fn lemma_gathered_push(
    entries: Seq<BacklogEntry>,
    threshold: nat,
    count: nat,
    parts: Seq<Seq<BlockHash>>,
    answers: Seq<Seq<bool>>,
    part: Seq<BlockHash>,
    ans: Seq<bool>,
)
    requires
        gathered(entries, threshold, count, parts, answers),
        bucket_len(entries, parts.len() as int) > threshold ==> walk_result(
            bucket_order(entries, parts.len() as int),
            count,
            ans,
            part,
        ),
        !(bucket_len(entries, parts.len() as int) > threshold) ==> part.len() == 0 && ans.len() == 0,
    ensures
        gathered(entries, threshold, count, parts.push(part), answers.push(ans)),
{
    let p2 = parts.push(part);
    let a2 = answers.push(ans);
    assert forall|b: int| 0 <= b < p2.len() && bucket_len(entries, b) > threshold implies walk_result(
        bucket_order(entries, b),
        count,
        a2[b],
        #[trigger] p2[b],
    ) by {
        if b < parts.len() {
            assert(p2[b] == parts[b] && a2[b] == answers[b]);
        } else {
            assert(p2[b] == part && a2[b] == ans);
        }
    }
    assert forall|b: int| 0 <= b < p2.len() && !(bucket_len(entries, b) > threshold) implies (
    #[trigger] p2[b]).len() == 0 && a2[b].len() == 0 by {
        if b < parts.len() {
            assert(p2[b] == parts[b] && a2[b] == answers[b]);
        } else {
            assert(p2[b] == part && a2[b] == ans);
        }
    }
}

/// The hashes to remove from the index after a round of rollbacks: for each target in order,
/// what its outcome removes.
pub fn removed_after_rollbacks(targets: &[BlockHash], outcomes: &[RollbackOutcome]) -> (r: Vec<BlockHash>)
    requires
        targets@.len() == outcomes@.len(),
    ensures
        r@ == concat_all(Seq::new(targets@.len(), |i: int| removed_by(targets@[i], outcomes@[i]))),
{
    let mut processed: Vec<BlockHash> = Vec::new();
    let mut i: usize = 0;
    while i < targets.len()
        invariant
            i <= targets@.len(),
            targets@.len() == outcomes@.len(),
            processed@ == concat_all(Seq::new(i as nat, |j: int| removed_by(targets@[j], outcomes@[j]))),
        decreases targets@.len() - i,
    {
        let ghost before = processed@;
        match &outcomes[i] {
            RollbackOutcome::Skipped => {},
            RollbackOutcome::Missing => {
                processed.push(targets[i]);
            },
            RollbackOutcome::RolledBack(list) => {
                let mut k: usize = 0;
                while k < list.len()
                    invariant
                        k <= list@.len(),
                        processed@ == before + list@.take(k as int),
                    decreases list@.len() - k,
                {
                    processed.push(list[k]);
                    assert(list@.take(k + 1) =~= list@.take(k as int).push(list@[k as int]));
                    k = k + 1;
                }
                assert(list@.take(list@.len() as int) =~= list@);
            },
        }
        proof {
            let s = Seq::new((i + 1) as nat, |j: int| removed_by(targets@[j], outcomes@[j]));
            assert(s.drop_last() =~= Seq::new(i as nat, |j: int| removed_by(targets@[j], outcomes@[j])));
            assert(processed@ =~= concat_all(s));
        }
        i = i + 1;
    }
    processed
}

} // verus!
