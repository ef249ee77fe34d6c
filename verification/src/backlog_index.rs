//! The index of unconfirmed blocks that the bounded backlog keeps: by hash, by account and,
//! per bucket, by priority.
use crate::primitives::{Account, BlockHash, UnixTimestamp};
use crate::seqs::{
    lemma_retain_contains, lemma_retain_len, lemma_retain_push, lemma_retain_split_count,
    lemma_retain_unique, retain,
};
use vstd::prelude::*;

verus! {

/// An unconfirmed block in the backlog.
#[derive(PartialEq, Eq, Structural, Clone, Copy, Debug)]
pub struct BacklogEntry {
    pub hash: BlockHash,
    pub account: Account,
    pub bucket_index: usize,
    pub priority: UnixTimestamp,
}

impl BacklogEntry {
    pub fn new_test_instance() -> (r: BacklogEntry)
        ensures
            r.hash.number() == 100 && r.account.number() == 200 && r.bucket_index == 1
                && r.priority.secs == 300,
    {
        BacklogEntry {
            hash: BlockHash::from_u64(100),
            account: Account::from_u64(200),
            bucket_index: 1,
            priority: UnixTimestamp::new(300),
        }
    }
}

/// The entries of bucket `b`.
pub open spec fn in_bucket(b: int) -> spec_fn(BacklogEntry) -> bool {
    |e: BacklogEntry| e.bucket_index == b
}

/// How many entries lie in bucket `b`.
pub open spec fn bucket_len(s: Seq<BacklogEntry>, b: int) -> nat {
    retain(s, in_bucket(b)).len()
}

/// Whether an entry with this hash is present.
pub open spec fn has_hash(s: Seq<BacklogEntry>, hash: BlockHash) -> bool {
    exists|i: int| 0 <= i < s.len() && s[i].hash == hash
}

/// Which entries an erase removes.
#[derive(PartialEq, Eq, Structural, Clone, Copy, Debug)]
pub enum EraseCriterion {
    Hash(BlockHash),
    Account(Account),
}

pub open spec fn matches_criterion(c: EraseCriterion, e: BacklogEntry) -> bool {
    match c {
        EraseCriterion::Hash(h) => e.hash == h,
        EraseCriterion::Account(a) => e.account == a,
    }
}

/// The entries that an erase keeps.
pub open spec fn kept_by(c: EraseCriterion) -> spec_fn(BacklogEntry) -> bool {
    |e: BacklogEntry| !matches_criterion(c, e)
}

/// `e` goes before every entry of lower priority and after those of the same or higher
/// priority: the insertion step of a stable sort by descending priority timestamp.
pub open spec fn insert_by_priority(s: Seq<BacklogEntry>, e: BacklogEntry) -> Seq<BacklogEntry>
    decreases s.len(),
{
    if s.len() == 0 {
        seq![e]
    } else if s[0].priority.secs < e.priority.secs {
        seq![e] + s
    } else {
        seq![s[0]] + insert_by_priority(s.drop_first(), e)
    }
}

/// The entries sorted by descending priority timestamp, entries of equal timestamp in
/// their order in `s`.
pub open spec fn priority_order(s: Seq<BacklogEntry>) -> Seq<BacklogEntry>
    decreases s.len(),
{
    if s.len() == 0 {
        Seq::empty()
    } else {
        insert_by_priority(priority_order(s.drop_last()), s.last())
    }
}

/// The hashes of bucket `b`, highest priority timestamp first.
pub open spec fn bucket_order(s: Seq<BacklogEntry>, b: int) -> Seq<BlockHash> {
    priority_order(retain(s, in_bucket(b))).map_values(|e: BacklogEntry| e.hash)
}

/// The elements of `s` for which the decisions `d` (one per leading element) are true.
pub open spec fn select(s: Seq<BlockHash>, d: Seq<bool>) -> Seq<BlockHash>
    decreases d.len(),
{
    if d.len() == 0 {
        Seq::empty()
    } else {
        let r = select(s, d.drop_last());
        if d.last() {
            r.push(s[d.len() - 1])
        } else {
            r
        }
    }
}

/// Tracks unconfirmed blocks: each hash occurs once, and for every bucket the index knows
/// how many of its blocks it holds.
pub struct BacklogIndex {
    entries: Vec<BacklogEntry>,
    bucket_lens: Vec<usize>,
}

impl BacklogIndex {
    /// The entries, in the order they were inserted.
    pub closed spec fn entries(&self) -> Seq<BacklogEntry> {
        self.entries@
    }

    pub closed spec fn bucket_count(&self) -> nat {
        self.bucket_lens@.len()
    }

    pub closed spec fn wf(&self) -> bool {
        &&& forall|i: int, j: int|
            0 <= i < j < self.entries@.len() ==> self.entries@[i].hash != self.entries@[j].hash
        &&& forall|i: int|
            0 <= i < self.entries@.len() ==> #[trigger] self.entries@[i].bucket_index
                < self.bucket_lens@.len()
        &&& forall|b: int|
            0 <= b < self.bucket_lens@.len() ==> #[trigger] self.bucket_lens@[b] == bucket_len(
                self.entries@,
                b,
            )
    }

    /// An empty index with `bucket_count` buckets.
    pub fn new(bucket_count: usize) -> (r: BacklogIndex)
        ensures
            r.wf(),
            r.entries() == Seq::<BacklogEntry>::empty(),
            r.bucket_count() == bucket_count,
    {
        let mut bucket_lens: Vec<usize> = Vec::new();
        let mut i: usize = 0;
        while i < bucket_count
            invariant
                i <= bucket_count,
                bucket_lens@.len() == i,
                forall|b: int| 0 <= b < i ==> #[trigger] bucket_lens@[b] == 0,
            decreases bucket_count - i,
        {
            bucket_lens.push(0);
            i = i + 1;
        }
        let r = BacklogIndex { entries: Vec::new(), bucket_lens };
        assert forall|b: int| 0 <= b < r.bucket_lens@.len() implies #[trigger] r.bucket_lens@[b]
            == bucket_len(r.entries@, b) by {
            assert(retain(Seq::<BacklogEntry>::empty(), in_bucket(b)) =~= Seq::<BacklogEntry>::empty());
        }
        r
    }

    /// Adds an entry unless its hash is present; returns whether it was added.
    pub fn insert(&mut self, entry: BacklogEntry) -> (r: bool)
        requires
            old(self).wf(),
            entry.bucket_index < old(self).bucket_count(),
            old(self).entries().len() < usize::MAX,
        ensures
            final(self).wf(),
            r == !has_hash(old(self).entries(), entry.hash),
            final(self).entries() == if r {
                old(self).entries().push(entry)
            } else {
                old(self).entries()
            },
            final(self).bucket_count() == old(self).bucket_count(),
    {
        if self.contains(&entry.hash) {
            return false;
        }
        let ghost old_entries = self.entries@;
        let b = entry.bucket_index;
        proof {
            lemma_retain_len(old_entries, in_bucket(b as int));
            lemma_retain_push(old_entries, entry, in_bucket(b as int));
            assert forall|c: int| 0 <= c < self.bucket_lens@.len() && c != b implies bucket_len(
                old_entries.push(entry),
                c,
            ) == bucket_len(old_entries, c) by {
                lemma_retain_push(old_entries, entry, in_bucket(c));
            }
        }
        self.entries.push(entry);
        let len = self.bucket_lens[b];
        self.bucket_lens.set(b, len + 1);
        assert forall|i: int, j: int| 0 <= i < j < self.entries@.len() implies self.entries@[i].hash
            != self.entries@[j].hash by {
            if j == old_entries.len() {
                assert(self.entries@[i] == old_entries[i]);
            }
        }
        true
    }

    /// Removes the entries that meet the criterion; returns whether there were any.
    fn remove_where(&mut self, criterion: EraseCriterion) -> (r: bool)
        requires
            old(self).wf(),
        ensures
            final(self).wf(),
            r == exists|i: int|
                0 <= i < old(self).entries().len() && matches_criterion(
                    criterion,
                    #[trigger] old(self).entries()[i],
                ),
            final(self).entries() == retain(old(self).entries(), kept_by(criterion)),
            final(self).bucket_count() == old(self).bucket_count(),
    {
        let ghost old_entries = self.entries@;
        let ghost keep = kept_by(criterion);
        let ghost drop = |e: BacklogEntry| !keep(e);
        let mut kept: Vec<BacklogEntry> = Vec::new();
        let mut removed_any = false;
        let n = self.entries.len();
        let mut i: usize = 0;
        assert(old_entries.take(0) =~= Seq::<BacklogEntry>::empty());
        while i < n
            invariant
                n == old_entries.len(),
                self.entries@ == old_entries,
                i <= n,
                kept@ == retain(old_entries.take(i as int), keep),
                keep == kept_by(criterion),
                drop == (|e: BacklogEntry| !keep(e)),
                self.bucket_lens@.len() == old(self).bucket_lens@.len(),
                forall|j: int|
                    0 <= j < old_entries.len() ==> #[trigger] old_entries[j].bucket_index
                        < self.bucket_lens@.len(),
                forall|b: int|
                    0 <= b < self.bucket_lens@.len() ==> #[trigger] self.bucket_lens@[b] + bucket_len(
                        retain(old_entries.take(i as int), drop),
                        b,
                    ) == bucket_len(old_entries, b),
                removed_any == exists|j: int|
                    0 <= j < i && matches_criterion(criterion, #[trigger] old_entries[j]),
            decreases n - i,
        {
            let e = self.entries[i];
            let ghost prefix = old_entries.take(i as int);
            proof {
                assert(old_entries.take(i + 1) =~= prefix.push(e));
                lemma_retain_push(prefix, e, keep);
                lemma_retain_push(prefix, e, drop);
                assert forall|b: int| 0 <= b < self.bucket_lens@.len() implies bucket_len(
                    retain(prefix.push(e), drop),
                    b,
                ) == bucket_len(retain(prefix, drop), b) + (if drop(e) && e.bucket_index == b {
                    1int
                } else {
                    0int
                }) by {
                    lemma_retain_push(retain(prefix, drop), e, in_bucket(b));
                }
            }
            let matched = match criterion {
                EraseCriterion::Hash(h) => e.hash == h,
                EraseCriterion::Account(a) => e.account == a,
            };
            if matched {
                let b = e.bucket_index;
                proof {
                    lemma_prefix_bucket_len(old_entries, (i + 1) as int, b as int);
                    lemma_retain_split_count(old_entries.take(i + 1), keep, in_bucket(b as int));
                    assert(drop =~= (|x: BacklogEntry| !keep(x)));
                    assert(bucket_len(retain(prefix.push(e), drop), b as int) <= bucket_len(
                        old_entries.take(i + 1),
                        b as int,
                    ));
                    assert(bucket_len(retain(prefix.push(e), drop), b as int) == bucket_len(
                        retain(prefix, drop),
                        b as int,
                    ) + 1);
                    assert(self.bucket_lens@[b as int] >= 1);
                }
                let len = self.bucket_lens[b];
                self.bucket_lens.set(b, len - 1);
                removed_any = true;
            } else {
                kept.push(e);
            }
            i = i + 1;
        }
        proof {
            assert(old_entries.take(n as int) =~= old_entries);
            lemma_retain_unique(old_entries, keep, |e: BacklogEntry| e.hash);
            lemma_retain_contains(old_entries, keep);
            assert(drop =~= (|x: BacklogEntry| !keep(x)));
            assert forall|b: int| 0 <= b < self.bucket_lens@.len() implies #[trigger] self.bucket_lens@[b]
                == bucket_len(kept@, b) by {
                lemma_retain_split_count(old_entries, keep, in_bucket(b));
            }
            assert forall|j: int| 0 <= j < kept@.len() implies #[trigger] kept@[j].bucket_index
                < self.bucket_lens@.len() by {
                assert(kept@.contains(kept@[j]));
                let k = choose|k: int| 0 <= k < old_entries.len() && old_entries[k] == kept@[j];
            }
        }
        self.entries = kept;
        assert(old(self).entries() == old_entries);
        removed_any
    }

    /// Removes every entry of `account`; returns whether there was one.
    pub fn erase_account(&mut self, account: &Account) -> (r: bool)
        requires
            old(self).wf(),
        ensures
            final(self).wf(),
            r == exists|i: int|
                0 <= i < old(self).entries().len() && #[trigger] old(self).entries()[i].account
                    == *account,
            final(self).entries() == retain(
                old(self).entries(),
                |e: BacklogEntry| e.account != *account,
            ),
            final(self).bucket_count() == old(self).bucket_count(),
    {
        let r = self.remove_where(EraseCriterion::Account(*account));
        assert(kept_by(EraseCriterion::Account(*account)) =~= (|e: BacklogEntry| e.account
            != *account));
        r
    }

    /// Removes the entry with this hash; returns whether there was one.
    pub fn erase_hash(&mut self, hash: &BlockHash) -> (r: bool)
        requires
            old(self).wf(),
        ensures
            final(self).wf(),
            r == has_hash(old(self).entries(), *hash),
            final(self).entries() == retain(old(self).entries(), |e: BacklogEntry| e.hash != *hash),
            final(self).bucket_count() == old(self).bucket_count(),
    {
        let r = self.remove_where(EraseCriterion::Hash(*hash));
        assert(kept_by(EraseCriterion::Hash(*hash)) =~= (|e: BacklogEntry| e.hash != *hash));
        r
    }

    pub fn contains(&self, hash: &BlockHash) -> (r: bool)
        ensures
            r == has_hash(self.entries(), *hash),
    {
        let mut i: usize = 0;
        while i < self.entries.len()
            invariant
                i <= self.entries@.len(),
                forall|j: int| 0 <= j < i ==> self.entries@[j].hash != *hash,
            decreases self.entries@.len() - i,
        {
            if self.entries[i].hash == *hash {
                return true;
            }
            i = i + 1;
        }
        false
    }

    /// The entries of a bucket sorted by descending priority timestamp.
    fn sorted_bucket(&self, bucket_index: usize) -> (r: Vec<BacklogEntry>)
        ensures
            r@ == priority_order(retain(self.entries(), in_bucket(bucket_index as int))),
    {
        let ghost p = in_bucket(bucket_index as int);
        let ghost all = self.entries@;
        let mut sorted: Vec<BacklogEntry> = Vec::new();
        let mut i: usize = 0;
        assert(all.take(0) =~= Seq::<BacklogEntry>::empty());
        while i < self.entries.len()
            invariant
                all == self.entries@,
                i <= all.len(),
                p == in_bucket(bucket_index as int),
                sorted@ == priority_order(retain(all.take(i as int), p)),
            decreases all.len() - i,
        {
            let e = self.entries[i];
            proof {
                assert(all.take(i + 1) =~= all.take(i as int).push(e));
                lemma_retain_push(all.take(i as int), e, p);
            }
            if e.bucket_index == bucket_index {
                let mut j: usize = 0;
                while j < sorted.len() && sorted[j].priority.secs >= e.priority.secs
                    invariant
                        j <= sorted@.len(),
                        forall|k: int| 0 <= k < j ==> sorted@[k].priority.secs >= e.priority.secs,
                    decreases sorted@.len() - j,
                {
                    j = j + 1;
                }
                proof {
                    lemma_insert_by_priority(sorted@, e, j as int);
                    let t = retain(all.take(i as int), p).push(e);
                    assert(t.drop_last() =~= retain(all.take(i as int), p));
                }
                sorted.insert(j, e);
            }
            i = i + 1;
        }
        assert(all.take(all.len() as int) =~= all);
        sorted
    }

    /// Up to `count` hashes of bucket `bucket_index` that pass `filter`, highest priority
    /// timestamp first; the filter is asked about the hashes in that order until `count`
    /// passed.
    pub fn top(&self, bucket_index: usize, count: usize, filter: impl Fn(&BlockHash) -> bool) -> (r:
        Vec<BlockHash>)
        requires
            forall|h: BlockHash| call_requires(filter, (&h,)),
        ensures
            exists|d: Seq<bool>|
                walk_result(bucket_order(self.entries(), bucket_index as int), count as nat, d, r@)
                    && forall|i: int|
                    0 <= i < d.len() ==> call_ensures(
                        filter,
                        (&bucket_order(self.entries(), bucket_index as int)[i],),
                        #[trigger] d[i],
                    ),
    {
        let sorted = self.sorted_bucket(bucket_index);
        let ghost order = bucket_order(self.entries(), bucket_index as int);
        assert(order =~= sorted@.map_values(|e: BacklogEntry| e.hash));
        let mut result: Vec<BlockHash> = Vec::new();
        let ghost mut d: Seq<bool> = Seq::empty();
        let mut k: usize = 0;
        while k < sorted.len() && result.len() < count
            invariant
                order == sorted@.map_values(|e: BacklogEntry| e.hash),
                k <= sorted@.len(),
                d.len() == k,
                result@ == select(order, d),
                result@.len() <= count,
                d.len() > 0 ==> select(order, d.drop_last()).len() < count,
                forall|i: int| 0 <= i < d.len() ==> call_ensures(filter, (&order[i],), #[trigger] d[i]),
                forall|h: BlockHash| call_requires(filter, (&h,)),
            decreases sorted@.len() - k,
        {
            let hash = sorted[k].hash;
            let pass = filter(&hash);
            proof {
                let d2 = d.push(pass);
                assert(d2.drop_last() =~= d);
                assert(order[k as int] == hash);
                d = d2;
            }
            if pass {
                result.push(hash);
            }
            k = k + 1;
        }
        assert(walk_result(order, count as nat, d, result@));
        result
    }

    /// Up to `count` hashes greater than `last`, in ascending order: the next hashes after
    /// `last` in hash order.
    pub fn next(&self, last: &BlockHash, count: usize) -> (r: Vec<BlockHash>)
        ensures
            r@.len() <= count,
            forall|k: int|
                0 <= k < r@.len() ==> has_hash(self.entries(), r@[k]) && #[trigger] r@[k].number()
                    > last.number(),
            forall|i: int, j: int| 0 <= i < j < r@.len() ==> r@[i].number() < r@[j].number(),
            forall|k: int|
                0 <= k < self.entries().len() && #[trigger] self.entries()[k].hash.number()
                    > last.number() ==> r@.contains(self.entries()[k].hash) || (r@.len() == count
                    && (count == 0 || self.entries()[k].hash.number() > r@.last().number())),
    {
        let mut result: Vec<BlockHash> = Vec::new();
        let mut bound = *last;
        while result.len() < count
            invariant
                result@.len() <= count,
                bound == if result@.len() == 0 {
                    *last
                } else {
                    result@.last()
                },
                forall|k: int|
                    0 <= k < result@.len() ==> has_hash(self.entries(), result@[k])
                        && #[trigger] result@[k].number() > last.number(),
                forall|i: int, j: int|
                    0 <= i < j < result@.len() ==> result@[i].number() < result@[j].number(),
                forall|k: int|
                    0 <= k < self.entries().len() && last.number()
                        < #[trigger] self.entries()[k].hash.number() <= bound.number()
                        ==> result@.contains(self.entries()[k].hash),
            decreases count - result@.len(),
        {
            match self.min_above(&bound) {
                Some(h) => {
                    let ghost old_result = result@;
                    result.push(h);
                    proof {
                        assert forall|k: int|
                            0 <= k < self.entries().len() && last.number()
                                < #[trigger] self.entries()[k].hash.number() <= h.number()
                                implies result@.contains(self.entries()[k].hash) by {
                            if self.entries()[k].hash.number() <= bound.number() {
                                assert(old_result.contains(self.entries()[k].hash));
                                let t = choose|t: int| 0 <= t < old_result.len() && old_result[t]
                                    == self.entries()[k].hash;
                                assert(result@[t] == old_result[t]);
                            } else {
                                assert(self.entries()[k].hash.number() == h.number());
                                crate::primitives::lemma_number_order(
                                    self.entries()[k].hash.hi,
                                    self.entries()[k].hash.lo,
                                    h.hi,
                                    h.lo,
                                );
                                assert(result@[result@.len() - 1] == h);
                            }
                        }
                        assert forall|i: int, j: int|
                            0 <= i < j < result@.len() implies result@[i].number()
                            < result@[j].number() by {
                            if j == result@.len() - 1 && i < j {
                                if old_result.len() > 0 {
                                    assert(old_result[i].number() <= old_result.last().number());
                                }
                            }
                        }
                    }
                    bound = h;
                },
                None => {
                    proof {
                        assert forall|k: int|
                            0 <= k < self.entries().len() && #[trigger] self.entries()[k].hash.number()
                                > last.number() implies result@.contains(self.entries()[k].hash) by {
                            if self.entries()[k].hash.number() > bound.number() {
                                assert(self.entries()[k].hash.number() <= bound.number());
                            }
                        }
                    }
                    return result;
                },
            }
        }
        result
    }

    /// The smallest hash greater than `bound`, if there is one.
    fn min_above(&self, bound: &BlockHash) -> (r: Option<BlockHash>)
        ensures
            r is None ==> forall|k: int|
                0 <= k < self.entries().len() ==> #[trigger] self.entries()[k].hash.number()
                    <= bound.number(),
            r matches Some(h) ==> has_hash(self.entries(), h) && h.number() > bound.number()
                && forall|k: int|
                0 <= k < self.entries().len() && #[trigger] self.entries()[k].hash.number()
                    > bound.number() ==> h.number() <= self.entries()[k].hash.number(),
    {
        let mut best: Option<BlockHash> = None;
        let mut i: usize = 0;
        while i < self.entries.len()
            invariant
                i <= self.entries@.len(),
                best is None ==> forall|k: int|
                    0 <= k < i ==> #[trigger] self.entries@[k].hash.number() <= bound.number(),
                best matches Some(h) ==> has_hash(self.entries@, h) && h.number() > bound.number()
                    && forall|k: int|
                    0 <= k < i && #[trigger] self.entries@[k].hash.number() > bound.number()
                        ==> h.number() <= self.entries@[k].hash.number(),
            decreases self.entries@.len() - i,
        {
            let h = self.entries[i].hash;
            if bound.less_than(&h) {
                match best {
                    Some(b) => {
                        if h.less_than(&b) {
                            best = Some(h);
                        }
                    },
                    None => {
                        best = Some(h);
                    },
                }
            }
            i = i + 1;
        }
        best
    }

    pub fn len(&self) -> (r: usize)
        ensures
            r == self.entries().len(),
    {
        self.entries.len()
    }

    /// The lengths of the buckets add up to the number of entries.
    pub proof fn lemma_bucket_lens_add_up(&self)
        requires
            self.wf(),
        ensures
            bucket_total(self.entries(), self.bucket_count()) == self.entries().len(),
    {
        lemma_bucket_lens_sum(self.entries@, self.bucket_lens@.len());
    }

    /// How many entries bucket `bucket_index` holds.
    pub fn len_of_bucket(&self, bucket_index: usize) -> (r: usize)
        requires
            self.wf(),
            bucket_index < self.bucket_count(),
        ensures
            r == bucket_len(self.entries(), bucket_index as int),
    {
        self.bucket_lens[bucket_index]
    }
}

/// Whether `r` is what walking `order`, asking the filter about each element (its answers are
/// `d`) and stopping as soon as `count` elements passed, yields.
pub open spec fn walk_result(order: Seq<BlockHash>, count: nat, d: Seq<bool>, r: Seq<BlockHash>) -> bool {
    &&& d.len() <= order.len()
    &&& r == select(order, d)
    &&& r.len() <= count
    &&& (d.len() < order.len() ==> r.len() == count)
    &&& (d.len() > 0 ==> select(order, d.drop_last()).len() < count)
}

/// Inserting at the first position whose priority is lower is `insert_by_priority`.
pub proof fn lemma_insert_by_priority(s: Seq<BacklogEntry>, e: BacklogEntry, j: int)
    requires
        0 <= j <= s.len(),
        forall|k: int| 0 <= k < j ==> s[k].priority.secs >= e.priority.secs,
        j == s.len() || s[j].priority.secs < e.priority.secs,
    ensures
        insert_by_priority(s, e) == s.insert(j, e),
    decreases j,
{
    if j == 0 {
        if s.len() == 0 {
            assert(s.insert(0, e) =~= seq![e]);
        } else {
            assert(s.insert(0, e) =~= seq![e] + s);
        }
    } else {
        lemma_insert_by_priority(s.drop_first(), e, j - 1);
        assert(s.insert(j, e) =~= seq![s[0]] + s.drop_first().insert(j - 1, e));
    }
}

/// A prefix holds no more entries of a bucket than the whole sequence.
pub proof fn lemma_prefix_bucket_len(s: Seq<BacklogEntry>, k: int, b: int)
    requires
        0 <= k <= s.len(),
    ensures
        bucket_len(s.take(k), b) <= bucket_len(s, b),
    decreases s.len() - k,
{
    if k < s.len() {
        lemma_prefix_bucket_len(s, k + 1, b);
        assert(s.take(k + 1) =~= s.take(k).push(s[k]));
        lemma_retain_push(s.take(k), s[k], in_bucket(b));
    } else {
        assert(s.take(k) =~= s);
    }
}

/// The number of entries in buckets `0..n`.
pub open spec fn bucket_total(s: Seq<BacklogEntry>, n: nat) -> nat
    decreases n,
{
    if n == 0 {
        0
    } else {
        bucket_total(s, (n - 1) as nat) + bucket_len(s, n - 1)
    }
}

proof fn lemma_bucket_total_push(s: Seq<BacklogEntry>, e: BacklogEntry, n: nat)
    ensures
        bucket_total(s.push(e), n) == bucket_total(s, n) + if e.bucket_index < n {
            1nat
        } else {
            0nat
        },
    decreases n,
{
    if n > 0 {
        lemma_bucket_total_push(s, e, (n - 1) as nat);
        lemma_retain_push(s, e, in_bucket(n - 1));
    }
}

/// Every entry lies in one of the buckets `0..n`, so the buckets' lengths add up to the
/// number of entries.
pub proof fn lemma_bucket_lens_sum(s: Seq<BacklogEntry>, n: nat)
    requires
        forall|i: int| 0 <= i < s.len() ==> #[trigger] s[i].bucket_index < n,
    ensures
        bucket_total(s, n) == s.len(),
    decreases s.len(),
{
    if s.len() == 0 {
        assert forall|b: int| 0 <= b < n implies bucket_len(s, b) == 0 by {
            assert(retain(s, in_bucket(b)) =~= Seq::<BacklogEntry>::empty());
        }
        lemma_bucket_total_zero(s, n);
    } else {
        let init = s.drop_last();
        assert forall|i: int| 0 <= i < init.len() implies #[trigger] init[i].bucket_index < n by {
            assert(init[i] == s[i]);
        }
        lemma_bucket_lens_sum(init, n);
        assert(init.push(s.last()) =~= s);
        lemma_bucket_total_push(init, s.last(), n);
    }
}

proof fn lemma_bucket_total_zero(s: Seq<BacklogEntry>, n: nat)
    requires
        s.len() == 0,
    ensures
        bucket_total(s, n) == 0,
    decreases n,
{
    if n > 0 {
        lemma_bucket_total_zero(s, (n - 1) as nat);
        assert(retain(s, in_bucket(n - 1)) =~= Seq::<BacklogEntry>::empty());
    }
}

/// Erasing the hash of an entry that was just inserted as new leaves the entries as they
/// were before the insert.
pub proof fn lemma_erase_undoes_insert(s: Seq<BacklogEntry>, e: BacklogEntry)
    requires
        !has_hash(s, e.hash),
    ensures
        retain(s.push(e), |x: BacklogEntry| x.hash != e.hash) == s,
{
    let p = |x: BacklogEntry| x.hash != e.hash;
    lemma_retain_push(s, e, p);
    crate::seqs::lemma_retain_all_none(s, p);
    assert forall|i: int| 0 <= i < s.len() implies p(s[i]) by {
        if s[i].hash == e.hash {
            assert(has_hash(s, e.hash));
        }
    }
}

} // verus!
