use crate::primitives::Amount;
use vstd::prelude::*;

verus! {

pub const TWO_POW_79: u128 = 604462909807314587353088;
pub const TWO_POW_88: u128 = 309485009821345068724781056;
pub const TWO_POW_92: u128 = 4951760157141521099596496896;
pub const TWO_POW_96: u128 = 79228162514264337593543950336;
pub const TWO_POW_100: u128 = 1267650600228229401496703205376;
pub const TWO_POW_104: u128 = 20282409603651670423947251286016;
pub const TWO_POW_108: u128 = 324518553658426726783156020576256;
pub const TWO_POW_112: u128 = 5192296858534827628530496329220096;
pub const TWO_POW_116: u128 = 83076749736557242056487941267521536;
pub const TWO_POW_120: u128 = 1329227995784915872903807060280344576;
pub const TWO_POW_127: u128 = 170141183460469231731687303715884105728;

/// The minimum balances of a region `[begin, end)` split into `count` equal parts.
pub open spec fn region(begin: int, end: int, count: int) -> Seq<int> {
    Seq::new(count as nat, |i: int| begin + i * ((end - begin) / count))
}

/// The minimum balance of each bucket, in ascending order.
pub open spec fn default_minimums() -> Seq<int> {
    region(0, TWO_POW_79 as int, 1)
        + region(TWO_POW_79 as int, TWO_POW_88 as int, 1)
        + region(TWO_POW_88 as int, TWO_POW_92 as int, 2)
        + region(TWO_POW_92 as int, TWO_POW_96 as int, 4)
        + region(TWO_POW_96 as int, TWO_POW_100 as int, 8)
        + region(TWO_POW_100 as int, TWO_POW_104 as int, 16)
        + region(TWO_POW_104 as int, TWO_POW_108 as int, 16)
        + region(TWO_POW_108 as int, TWO_POW_112 as int, 8)
        + region(TWO_POW_112 as int, TWO_POW_116 as int, 4)
        + region(TWO_POW_116 as int, TWO_POW_120 as int, 2)
        + region(TWO_POW_120 as int, TWO_POW_127 as int, 1)
}

/// Strictly ascending, starting at zero.
pub open spec fn minimums_wf(m: Seq<int>) -> bool {
    &&& m.len() >= 1
    &&& m[0] == 0
    &&& forall|i: int, j: int| 0 <= i < j < m.len() ==> m[i] < m[j]
}

/// The bucket of a balance: the last bucket whose minimum it reaches.
pub open spec fn bucket_of(m: Seq<int>, balance: int) -> int
    recommends
        minimums_wf(m),
{
    choose|i: int| 0 <= i < m.len() && #[trigger] m[i] <= balance && (i + 1 == m.len() || balance < m[i + 1])
}

/// Splits the balance range into buckets; a balance belongs to the last bucket whose
/// minimum balance it reaches.
pub struct Bucketing {
    minimums: Vec<Amount>,
}

impl Bucketing {
    /// The bucket minimums as integers.
    pub closed spec fn minimums(&self) -> Seq<int> {
        self.minimums@.map_values(|a: Amount| a.raw as int)
    }

    #[verifier::type_invariant]
    closed spec fn wf(&self) -> bool {
        minimums_wf(self.minimums())
    }

    /// The default buckets.
    pub fn new() -> (r: Bucketing)
        ensures
            r.minimums() == default_minimums(),
            r.minimums().len() == 63,
    {
        Self::default_buckets()
    }

    /// The default buckets: 63 buckets over eleven regions whose bounds are powers of two.
    pub fn default_buckets() -> (r: Bucketing)
        ensures
            r.minimums() == default_minimums(),
            r.minimums().len() == 63,
    {
        let mut minimums: Vec<Amount> = Vec::new();
        build_region(&mut minimums, 0, TWO_POW_79, 1);
        build_region(&mut minimums, TWO_POW_79, TWO_POW_88, 1);
        build_region(&mut minimums, TWO_POW_88, TWO_POW_92, 2);
        build_region(&mut minimums, TWO_POW_92, TWO_POW_96, 4);
        build_region(&mut minimums, TWO_POW_96, TWO_POW_100, 8);
        build_region(&mut minimums, TWO_POW_100, TWO_POW_104, 16);
        build_region(&mut minimums, TWO_POW_104, TWO_POW_108, 16);
        build_region(&mut minimums, TWO_POW_108, TWO_POW_112, 8);
        build_region(&mut minimums, TWO_POW_112, TWO_POW_116, 4);
        build_region(&mut minimums, TWO_POW_116, TWO_POW_120, 2);
        build_region(&mut minimums, TWO_POW_120, TWO_POW_127, 1);
        let r = Bucketing { minimums };
        assert(r.minimums() =~= default_minimums());
        r
    }

    /// Index of the bucket that a balance falls into.
    pub fn bucket_index(&self, balance: Amount) -> (r: usize)
        ensures
            r < self.minimums().len(),
            self.minimums()[r as int] <= balance.raw,
            r + 1 < self.minimums().len() ==> balance.raw < self.minimums()[r + 1],
            r == bucket_of(self.minimums(), balance.raw as int),
    {
        proof {
            use_type_invariant(self);
        }
        let ghost m = self.minimums();
        let mut i = self.minimums.len();
        while i > 0
            invariant
                i <= self.minimums@.len(),
                m == self.minimums(),
                minimums_wf(m),
                forall|j: int| i <= j < m.len() ==> balance.raw < m[j],
            decreases i,
        {
            if balance.raw >= self.minimums[i - 1].raw {
                proof {
                    lemma_bucket_of_unique(m, balance.raw as int, (i - 1) as int);
                }
                return i - 1;
            }
            i = i - 1;
        }
        // The first minimum is zero, so the loop always returns.
        assert(m[0] == 0);
        assert(false);
        0
    }

    pub fn bucket_count(&self) -> (r: usize)
        ensures
            r == self.minimums().len(),
    {
        self.minimums.len()
    }
}

/// `bucket_of` names the one index that meets its condition.
pub proof fn lemma_bucket_of_unique(m: Seq<int>, balance: int, i: int)
    requires
        minimums_wf(m),
        0 <= i < m.len(),
        m[i] <= balance,
        i + 1 == m.len() || balance < m[i + 1],
    ensures
        bucket_of(m, balance) == i,
{
    let k = bucket_of(m, balance);
    assert(0 <= k < m.len() && m[k] <= balance && (k + 1 == m.len() || balance < m[k + 1]));
    if k < i {
        assert(m[k + 1] <= m[i]);
    } else if k > i {
        assert(m[i + 1] <= m[k]);
    }
}

/// Every balance falls into exactly one bucket.
pub proof fn lemma_every_balance_has_a_bucket(m: Seq<int>, balance: int)
    requires
        minimums_wf(m),
        balance >= 0,
    ensures
        0 <= bucket_of(m, balance) < m.len(),
        m[bucket_of(m, balance)] <= balance,
        bucket_of(m, balance) + 1 < m.len() ==> balance < m[bucket_of(m, balance) + 1],
{
    let i = lemma_last_reached(m, balance, m.len() - 1);
    lemma_bucket_of_unique(m, balance, i);
}

/// A larger balance never falls into a lower bucket.
pub proof fn lemma_bucket_monotone(m: Seq<int>, lower: int, higher: int)
    requires
        minimums_wf(m),
        0 <= lower <= higher,
    ensures
        bucket_of(m, lower) <= bucket_of(m, higher),
{
    lemma_every_balance_has_a_bucket(m, lower);
    lemma_every_balance_has_a_bucket(m, higher);
    let i = bucket_of(m, lower);
    let j = bucket_of(m, higher);
    if j < i {
        assert(m[j + 1] <= m[i]);
    }
}

proof fn lemma_last_reached(m: Seq<int>, balance: int, k: int) -> (i: int)
    requires
        minimums_wf(m),
        balance >= 0,
        0 <= k < m.len(),
        forall|j: int| k < j < m.len() ==> balance < m[j],
    ensures
        0 <= i < m.len(),
        m[i] <= balance,
        i + 1 == m.len() || balance < m[i + 1],
    decreases k,
{
    if m[k] <= balance {
        k
    } else {
        lemma_last_reached(m, balance, k - 1)
    }
}

/// Appends the minimums of the region `[begin, end)` split into `count` equal parts.
fn build_region(minimums: &mut Vec<Amount>, begin: u128, end: u128, count: u128)
    requires
        begin < end,
        0 < count <= end - begin,
        old(minimums)@.len() + count <= usize::MAX,
        forall|j: int|
            0 <= j < old(minimums)@.len() ==> #[trigger] old(minimums)@[j].raw < begin,
        forall|i: int, j: int|
            0 <= i < j < old(minimums)@.len() ==> old(minimums)@[i].raw < old(minimums)@[j].raw,
    ensures
        final(minimums)@.len() == old(minimums)@.len() + count,
        final(minimums)@.map_values(|a: Amount| a.raw as int) == old(minimums)@.map_values(
            |a: Amount| a.raw as int,
        ) + region(begin as int, end as int, count as int),
        forall|j: int|
            0 <= j < final(minimums)@.len() ==> #[trigger] final(minimums)@[j].raw < end,
        forall|i: int, j: int|
            0 <= i < j < final(minimums)@.len() ==> final(minimums)@[i].raw
                < final(minimums)@[j].raw,
{
    let ghost start = minimums@;
    let width = (end - begin) / count;
    assert(width >= 1 && width * count <= end - begin) by (nonlinear_arith)
        requires
            width as int == (end - begin) as int / count as int,
            0 < count <= end - begin,
    ;
    let mut i: u128 = 0;
    while i < count
        invariant
            0 < count <= end - begin,
            begin < end,
            width as int == (end - begin) as int / count as int,
            width >= 1,
            width * count <= end - begin,
            i <= count,
            start.len() + count <= usize::MAX,
            minimums@.len() == start.len() + i,
            minimums@.subrange(0, start.len() as int) == start,
            forall|j: int| 0 <= j < start.len() ==> #[trigger] start[j].raw < begin,
            forall|k: int|
                0 <= k < i ==> #[trigger] minimums@[start.len() + k].raw == begin + k * width,
            forall|i1: int, j1: int|
                0 <= i1 < j1 < start.len() ==> start[i1].raw < start[j1].raw,
        decreases count - i,
    {
        assert(begin + i * width < end && i * width <= end) by (nonlinear_arith)
            requires
                i < count,
                width * count <= end - begin,
                width >= 1,
        ;
        minimums.push(Amount { raw: begin + i * width });
        i = i + 1;
    }
    let ghost fin = minimums@;
    assert forall|j: int| 0 <= j < fin.len() implies #[trigger] fin[j].raw < end by {
        if j < start.len() {
            assert(fin[j] == start[j]);
        } else {
            let k = j - start.len();
            assert(fin[start.len() + k].raw == begin + k * width);
            assert(begin + k * width < end) by (nonlinear_arith)
                requires
                    0 <= k < count,
                    width * count <= end - begin,
                    width >= 1,
            ;
        }
    }
    assert forall|i1: int, j1: int| 0 <= i1 < j1 < fin.len() implies fin[i1].raw < fin[j1].raw by {
        if j1 < start.len() {
            assert(fin[i1] == start[i1]);
            assert(fin[j1] == start[j1]);
        } else if i1 < start.len() {
            assert(fin[i1] == start[i1]);
            assert(fin[start.len() + (j1 - start.len())].raw == begin + (j1 - start.len()) * width);
            assert(0 <= (j1 - start.len()) * width) by (nonlinear_arith)
                requires
                    j1 - start.len() >= 0,
                    width >= 1,
            ;
        } else {
            let a = i1 - start.len();
            let b = j1 - start.len();
            assert(fin[start.len() + a].raw == begin + a * width);
            assert(fin[start.len() + b].raw == begin + b * width);
            assert(a * width < b * width) by (nonlinear_arith)
                requires
                    0 <= a < b,
                    width >= 1,
            ;
        }
    }
    let ghost r = region(begin as int, end as int, count as int);
    let ghost fm = fin.map_values(|a: Amount| a.raw as int);
    let ghost sm = start.map_values(|a: Amount| a.raw as int);
    assert forall|j: int| 0 <= j < fin.len() implies #[trigger] fm[j] == (sm + r)[j] by {
        if j < start.len() {
            assert(fin[j] == start[j]);
        } else {
            assert(fin[start.len() + (j - start.len())].raw == begin + (j - start.len()) * width);
        }
    }
    assert(fm =~= sm + r);
}


} // verus!
