//! The trended online weight: the median of the online weight samples of the last period.
use crate::messages::Networks;
use crate::primitives::Amount;
use vstd::prelude::*;
use vstd::multiset::Multiset;
use vstd::relations::{sorted_by, total_ordering};
use vstd::seq_lib::{lemma_multiset_commutative, lemma_sorted_unique};

verus! {

/// Numbers in ascending order.
pub open spec fn raw_leq() -> spec_fn(u128, u128) -> bool {
    |a: u128, b: u128| a <= b
}

/// The raw amounts of the samples.
pub open spec fn raws(items: Seq<Amount>) -> Seq<u128> {
    items.map_values(|a: Amount| a.raw)
}

/// The median of the samples: the middle one (the upper of the two middle ones for an even
/// count) in ascending order; zero without samples.
pub open spec fn median_raw(items: Seq<Amount>) -> u128 {
    if items.len() == 0 {
        0
    } else {
        raws(items).sort_by(raw_leq())[(items.len() / 2) as int]
    }
}

/// How many samples are kept: one day of them on the test network, two weeks elsewhere.
pub open spec fn max_samples_of(network: Networks) -> nat {
    if network == Networks::NanoTestNetwork {
        288
    } else {
        4032
    }
}

/// How many samples are kept (see `max_samples_of`).
pub fn max_samples(network: Networks) -> (r: usize)
    ensures
        r == max_samples_of(network),
{
    match network {
        Networks::NanoTestNetwork => 288,
        _ => 4032,
    }
}

proof fn lemma_raw_leq_total()
    ensures
        total_ordering(raw_leq()),
{
}

/// Inserting keeps the multiset, plus the new element.
proof fn lemma_insert_multiset(s: Seq<u128>, p: int, x: u128)
    requires
        0 <= p <= s.len(),
    ensures
        s.insert(p, x).to_multiset() == s.to_multiset().insert(x),
{
    broadcast use vstd::seq_lib::group_to_multiset_ensures;
    let a = s.take(p);
    let b = s.skip(p);
    assert(s =~= a + b);
    assert(s.insert(p, x) =~= a.push(x) + b);
    lemma_multiset_commutative(a.push(x), b);
    lemma_multiset_commutative(a, b);
    assert(a.push(x).to_multiset() =~= a.to_multiset().insert(x));
    assert(s.insert(p, x).to_multiset() =~= s.to_multiset().insert(x));
}

/// Keeping the items that satisfy `p` keeps all of them when they all do.
proof fn lemma_filter_all(s: Seq<u128>, p: spec_fn(u128) -> bool)
    requires
        forall|i: int| 0 <= i < s.len() ==> p(#[trigger] s[i]),
    ensures
        s.filter(p) == s,
    decreases s.len(),
{
    reveal(Seq::filter);
    if s.len() > 0 {
        lemma_filter_all(s.drop_last(), p);
        assert(s.drop_last().push(s.last()) =~= s);
    }
}

/// Filtering a sequence filters its multiset.
proof fn lemma_filter_multiset(s: Seq<u128>, p: spec_fn(u128) -> bool)
    ensures
        s.filter(p).to_multiset() =~= s.to_multiset().filter(p),
    decreases s.len(),
{
    broadcast use vstd::seq_lib::group_to_multiset_ensures;
    broadcast use vstd::multiset::group_multiset_axioms;
    reveal(Seq::filter);
    if s.len() > 0 {
        lemma_filter_multiset(s.drop_last(), p);
        assert(s.drop_last().push(s.last()) =~= s);
        assert(s.to_multiset() =~= s.drop_last().to_multiset().insert(s.last()));
    } else {
        assert(s.to_multiset() =~= Multiset::empty());
    }
}

/// Two orderings of the same items have as many items that satisfy `p`.
proof fn lemma_filter_len_perm(a: Seq<u128>, b: Seq<u128>, p: spec_fn(u128) -> bool)
    requires
        a.to_multiset() == b.to_multiset(),
    ensures
        a.filter(p).len() == b.filter(p).len(),
{
    broadcast use vstd::seq_lib::group_to_multiset_ensures;
    lemma_filter_multiset(a, p);
    lemma_filter_multiset(b, p);
    a.filter(p).to_multiset_ensures();
    b.filter(p).to_multiset_ensures();
}

/// The trend is one of the samples, and it splits them in two: more than half of them are no
/// larger, and at least half are no smaller.
pub proof fn lemma_median_is_a_sample(items: Seq<Amount>)
    requires
        items.len() > 0,
    ensures
        exists|i: int| 0 <= i < items.len() && #[trigger] items[i].raw == median_raw(items),
        raws(items).filter(|x: u128| x <= median_raw(items)).len() > items.len() / 2,
        raws(items).filter(|x: u128| x >= median_raw(items)).len() >= items.len() - items.len() / 2,
{
    broadcast use vstd::seq_lib::group_to_multiset_ensures;
    lemma_raw_leq_total();
    let r = raws(items);
    let sorted = r.sort_by(raw_leq());
    r.lemma_sort_by_ensures(raw_leq());
    let m = (items.len() / 2) as int;
    let med = sorted[m];
    assert(median_raw(items) == med);
    assert(sorted.len() == r.len()) by {
        sorted.to_multiset_ensures();
        r.to_multiset_ensures();
    }
    assert(sorted.contains(med));
    assert(r.contains(med));
    let i = choose|i: int| 0 <= i < r.len() && r[i] == med;
    assert(items[i].raw == med);
    let lo = |x: u128| x <= med;
    let hi = |x: u128| x >= med;
    let front = sorted.take(m + 1);
    let back = sorted.skip(m + 1);
    assert(sorted =~= front + back);
    assert forall|k: int| 0 <= k < front.len() implies lo(#[trigger] front[k]) by {
        if k < m {
            assert((raw_leq())(sorted[k], sorted[m]));
        }
    }
    lemma_filter_all(front, lo);
    Seq::filter_distributes_over_add(front, back, lo);
    let front2 = sorted.take(m);
    let back2 = sorted.skip(m);
    assert(sorted =~= front2 + back2);
    assert forall|k: int| 0 <= k < back2.len() implies hi(#[trigger] back2[k]) by {
        if k > 0 {
            assert((raw_leq())(sorted[m], sorted[m + k]));
        }
    }
    lemma_filter_all(back2, hi);
    Seq::filter_distributes_over_add(front2, back2, hi);
    lemma_filter_len_perm(r, sorted, lo);
    lemma_filter_len_perm(r, sorted, hi);
}

/// The median of the samples (see `median_raw`).
pub fn medium_weight(items: &Vec<Amount>) -> (r: Amount)
    ensures
        r.raw == median_raw(items@),
{
    if items.len() == 0 {
        return Amount::zero();
    }
    broadcast use vstd::seq_lib::group_to_multiset_ensures;
    let mut sorted: Vec<u128> = Vec::new();
    let mut i: usize = 0;
    while i < items.len()
        invariant
            i <= items@.len(),
            sorted@.len() == i,
            sorted_by(sorted@, raw_leq()),
            sorted@.to_multiset() == raws(items@.take(i as int)).to_multiset(),
        decreases items@.len() - i,
    {
        let x = items[i].raw;
        let mut p: usize = 0;
        while p < sorted.len() && sorted[p] <= x
            invariant
                p <= sorted@.len(),
                forall|k: int| 0 <= k < p ==> sorted@[k] <= x,
                sorted_by(sorted@, raw_leq()),
                sorted@.len() == i,
                i < items@.len(),
                x == items@[i as int].raw,
                sorted@.to_multiset() == raws(items@.take(i as int)).to_multiset(),
            decreases sorted@.len() - p,
        {
            p = p + 1;
        }
        let ghost before = sorted@;
        sorted.insert(p, x);
        proof {
            broadcast use vstd::seq_lib::group_to_multiset_ensures;
            lemma_insert_multiset(before, p as int, x);
            assert(raws(items@.take(i + 1)) =~= raws(items@.take(i as int)).push(x));
            assert(raws(items@.take(i as int)).push(x).to_multiset() =~= raws(items@.take(i as int)).to_multiset().insert(x));
            let s = sorted@;
            assert forall|a: int, b: int| 0 <= a < b < s.len() implies (raw_leq())(s[a], s[b]) by {
                if b < p {
                    assert(s[a] == before[a] && s[b] == before[b]);
                } else if b == p {
                    assert(s[a] == before[a]);
                } else if a < p {
                    assert(s[a] == before[a] && s[b] == before[b - 1]);
                } else if a == p {
                    assert(s[b] == before[b - 1]);
                    assert(before[p as int] > x);
                    assert((raw_leq())(before[p as int], before[b - 1]));
                } else {
                    assert(s[a] == before[a - 1] && s[b] == before[b - 1]);
                }
            }
        }
        i = i + 1;
    }
    proof {
        assert(items@.take(items@.len() as int) =~= items@);
        lemma_raw_leq_total();
        raws(items@).lemma_sort_by_ensures(raw_leq());
        lemma_sorted_unique(sorted@, raws(items@).sort_by(raw_leq()), raw_leq());
    }
    let median_idx = items.len() / 2;
    Amount::raw(sorted[median_idx])
}

/// The weights of a list of timestamped samples.
pub open spec fn sample_weights(samples: Seq<(u64, Amount)>) -> Seq<Amount> {
    samples.map_values(|e: (u64, Amount)| e.1)
}

/// Timestamps strictly ascending.
pub open spec fn ascending_keys(samples: Seq<(u64, Amount)>) -> bool {
    forall|i: int, j: int| 0 <= i < j < samples.len() ==> samples[i].0 < samples[j].0
}

/// The samples kept when a new one comes: the newest `max - 1` of them.
pub open spec fn kept_samples(samples: Seq<(u64, Amount)>, max: nat) -> Seq<(u64, Amount)> {
    if samples.len() >= max {
        samples.skip(samples.len() - max + 1)
    } else {
        samples
    }
}

/// Where a sample taken at `key` goes among samples in ascending order: after all earlier ones.
pub open spec fn insert_pos(samples: Seq<(u64, Amount)>, key: u64) -> nat
    decreases samples.len(),
{
    if samples.len() == 0 {
        0
    } else if samples.last().0 < key {
        samples.len()
    } else {
        insert_pos(samples.drop_last(), key)
    }
}

/// The samples with the weight `weight` taken at `key`: it replaces a sample taken at the
/// same time, or goes in its place in time.
pub open spec fn put_sample(samples: Seq<(u64, Amount)>, key: u64, weight: Amount) -> Seq<(u64, Amount)> {
    let p = insert_pos(samples, key) as int;
    if p < samples.len() && samples[p].0 == key {
        samples.update(p, (key, weight))
    } else {
        samples.insert(p, (key, weight))
    }
}

/// `insert_pos` lies in the list, with the earlier samples before it and the rest after.
proof fn lemma_insert_pos(samples: Seq<(u64, Amount)>, key: u64)
    requires
        ascending_keys(samples),
    ensures
        insert_pos(samples, key) <= samples.len(),
        forall|i: int| 0 <= i < insert_pos(samples, key) ==> #[trigger] samples[i].0 < key,
        forall|i: int| insert_pos(samples, key) <= i < samples.len() ==> #[trigger] samples[i].0 >= key,
    decreases samples.len(),
{
    if samples.len() > 0 {
        let t = samples.drop_last();
        assert(ascending_keys(t));
        lemma_insert_pos(t, key);
        if samples.last().0 < key {
            assert forall|i: int| 0 <= i < samples.len() implies #[trigger] samples[i].0 < key by {
                if i < samples.len() - 1 {
                    assert(samples[i].0 < samples[samples.len() - 1].0);
                }
            }
        } else {
            assert forall|i: int| insert_pos(samples, key) <= i < samples.len() implies #[trigger] samples[i].0
                >= key by {
                if i < samples.len() - 1 {
                    assert(t[i] == samples[i]);
                }
            }
            assert forall|i: int| 0 <= i < insert_pos(samples, key) implies #[trigger] samples[i].0 < key by {
                assert(t[i] == samples[i]);
            }
        }
    }
}

/// Storing a sample keeps the samples in ascending order of time, and the sample is stored.
pub proof fn lemma_put_sample_ascending(k: Seq<(u64, Amount)>, now: u64, weight: Amount)
    requires
        ascending_keys(k),
    ensures
        ascending_keys(put_sample(k, now, weight)),
        put_sample(k, now, weight).contains((now, weight)),
        put_sample(k, now, weight).len() <= k.len() + 1,
{
    lemma_insert_pos(k, now);
    let p = insert_pos(k, now) as int;
    let r = put_sample(k, now, weight);
    assert(r[p] == (now, weight));
    assert forall|a: int, b: int| 0 <= a < b < r.len() implies r[a].0 < r[b].0 by {
        if p < k.len() && k[p].0 == now {
            if a != p && b != p {
                assert(r[a] == k[a] && r[b] == k[b]);
            } else if a == p {
                assert(r[b] == k[b]);
            } else {
                assert(r[a] == k[a]);
            }
        } else {
            if b < p {
                assert(r[a] == k[a] && r[b] == k[b]);
            } else if b == p {
                assert(r[a] == k[a]);
            } else if a < p {
                assert(r[a] == k[a] && r[b] == k[b - 1]);
            } else if a == p {
                assert(r[b] == k[b - 1]);
                assert(k[p].0 >= now);
            } else {
                assert(r[a] == k[a - 1] && r[b] == k[b - 1]);
            }
        }
    }
}

/// After a sample no more than `max` samples are kept, the newest is among them, and each one
/// kept is one that was there before or the new one.
pub proof fn lemma_sample_keeps_at_most_max(
    samples: Seq<(u64, Amount)>,
    max: nat,
    now: u64,
    weight: Amount,
)
    requires
        max >= 1,
        ascending_keys(samples),
    ensures
        put_sample(kept_samples(samples, max), now, weight).len() <= max,
        put_sample(kept_samples(samples, max), now, weight).contains((now, weight)),
        forall|e: (u64, Amount)|
            #[trigger] put_sample(kept_samples(samples, max), now, weight).contains(e) ==> e == (
                now,
                weight,
            ) || samples.contains(e),
{
    let k = kept_samples(samples, max);
    assert(ascending_keys(k)) by {
        if samples.len() >= max {
            let d = samples.len() - max + 1;
            assert forall|a: int, b: int| 0 <= a < b < k.len() implies k[a].0 < k[b].0 by {
                assert(k[a] == samples[a + d] && k[b] == samples[b + d]);
            }
        }
    }
    lemma_put_sample_ascending(k, now, weight);
    lemma_insert_pos(k, now);
    let p = insert_pos(k, now) as int;
    let r = put_sample(k, now, weight);
    assert forall|e: (u64, Amount)| #[trigger] r.contains(e) implies e == (now, weight) || samples.contains(e) by {
        let j = choose|j: int| 0 <= j < r.len() && r[j] == e;
        if e != (now, weight) {
            let kj = if p < k.len() && k[p].0 == now {
                j
            } else if j < p {
                j
            } else {
                j - 1
            };
            assert(k[kj] == e);
            if samples.len() >= max {
                let d = samples.len() - max + 1;
                assert(samples[kj + d] == e);
            } else {
                assert(samples[kj] == e);
            }
        }
    }
}

/// Keeps the online weight samples of the last period, one per sampling time.
pub struct OnlineWeightSampler {
    samples: Vec<(u64, Amount)>,
    max_samples: usize,
}

impl OnlineWeightSampler {
    /// The samples with the times they were taken at, oldest first.
    pub closed spec fn samples(&self) -> Seq<(u64, Amount)> {
        self.samples@
    }

    pub closed spec fn max(&self) -> nat {
        self.max_samples as nat
    }

    pub closed spec fn wf(&self) -> bool {
        &&& self.max_samples >= 1
        &&& ascending_keys(self.samples@)
    }

    /// No samples yet; keeps as many as `max_samples` gives for the network.
    pub fn new(network: Networks) -> (r: OnlineWeightSampler)
        ensures
            r.wf(),
            r.samples() == Seq::<(u64, Amount)>::empty(),
            r.max() == max_samples_of(network),
    {
        OnlineWeightSampler { samples: Vec::new(), max_samples: max_samples(network) }
    }

    /// The trend: the median of the sampled weights.
    pub fn calculate_trend(&self) -> (r: Amount)
        ensures
            r.raw == median_raw(sample_weights(self.samples())),
    {
        let mut items: Vec<Amount> = Vec::new();
        let mut i: usize = 0;
        while i < self.samples.len()
            invariant
                i <= self.samples@.len(),
                items@ == sample_weights(self.samples@.take(i as int)),
            decreases self.samples@.len() - i,
        {
            items.push(self.samples[i].1);
            assert(sample_weights(self.samples@.take(i + 1)) =~= sample_weights(self.samples@.take(i as int)).push(
                self.samples@[i as int].1,
            ));
            i = i + 1;
        }
        assert(self.samples@.take(self.samples@.len() as int) =~= self.samples@);
        medium_weight(&items)
    }

    /// Records the online weight `current_online_weight` sampled at `now`: drops the oldest
    /// samples until there is room for one more, then stores it (replacing a sample taken at
    /// the same time).
    pub fn sample(&mut self, current_online_weight: Amount, now: u64)
        requires
            old(self).wf(),
        ensures
            final(self).wf(),
            final(self).max() == old(self).max(),
            final(self).samples() == put_sample(
                kept_samples(old(self).samples(), old(self).max()),
                now,
                current_online_weight,
            ),
    {
        let ghost start = self.samples@;
        let mut drop: usize = 0;
        if self.samples.len() >= self.max_samples {
            drop = self.samples.len() - self.max_samples + 1;
        }
        let mut kept: Vec<(u64, Amount)> = Vec::new();
        let mut i: usize = drop;
        while i < self.samples.len()
            invariant
                drop <= i <= self.samples@.len(),
                self.samples@ == start,
                kept@ == start.subrange(drop as int, i as int),
            decreases self.samples@.len() - i,
        {
            kept.push(self.samples[i]);
            assert(start.subrange(drop as int, i + 1) =~= start.subrange(drop as int, i as int).push(start[i as int]));
            i = i + 1;
        }
        let ghost k = kept@;
        assert(k =~= kept_samples(start, self.max_samples as nat));
        assert(ascending_keys(k)) by {
            assert forall|a: int, b: int| 0 <= a < b < k.len() implies k[a].0 < k[b].0 by {
                assert(k[a] == start[a + drop] && k[b] == start[b + drop]);
            }
        }
        // find where the new sample goes, scanning from the newest
        let mut p: usize = kept.len();
        assert(k.take(p as int) =~= k);
        while p > 0 && kept[p - 1].0 >= now
            invariant
                p <= k.len(),
                kept@ == k,
                ascending_keys(k),
                insert_pos(k, now) == insert_pos(k.take(p as int), now),
            decreases p,
        {
            assert(k.take(p as int).drop_last() =~= k.take(p - 1));
            p = p - 1;
        }
        proof {
            if p > 0 {
                assert(k.take(p as int).last() == k[p - 1]);
            }
            assert(insert_pos(k.take(p as int), now) == p);
            lemma_insert_pos(k, now);
        }
        if p < kept.len() && kept[p].0 == now {
            kept.set(p, (now, current_online_weight));
        } else {
            kept.insert(p, (now, current_online_weight));
        }
        proof {
            lemma_put_sample_ascending(k, now, current_online_weight);
        }
        self.samples = kept;
    }
}

} // verus!
