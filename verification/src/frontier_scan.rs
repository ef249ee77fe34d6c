//! Frontier scan: the account space is split into ranges (heads) that are scanned for
//! outdated frontiers in parallel; this tracks the progress of each range.
use crate::ordered_heads::{has_start, is_member, modified, FrontierHead, OrderedHeads};
use crate::primitives::{two_pow_128, Account, BlockHash, Duration, Timestamp};
use vstd::prelude::*;

verus! {

/// The largest 256-bit number.
pub open spec fn u256_max() -> nat {
    (two_pow_128() * two_pow_128() - 1) as nat
}

/// `primitive_types::U256` division by a `usize`: the quotient rounded down.
#[verifier::external_body]
fn u256_div(a: Account, divisor: usize) -> (r: Account)
    requires
        divisor > 0,
    ensures
        r.number() == a.number() / (divisor as nat),
{
    let x = primitive_types::U256([a.lo as u64, (a.lo >> 64) as u64, a.hi as u64, (a.hi >> 64) as u64]);
    let w = (x / divisor).0;
    Account { hi: ((w[3] as u128) << 64) | w[2] as u128, lo: ((w[1] as u128) << 64) | w[0] as u128 }
}

/// `primitive_types::U256` multiplication by a `usize`, which panics on overflow.
#[verifier::external_body]
fn u256_mul(a: Account, factor: usize) -> (r: Account)
    requires
        a.number() * factor <= u256_max(),
    ensures
        r.number() == a.number() * factor,
{
    let x = primitive_types::U256([a.lo as u64, (a.lo >> 64) as u64, a.hi as u64, (a.hi >> 64) as u64]);
    let w = (x * factor).0;
    Account { hi: ((w[3] as u128) << 64) | w[2] as u128, lo: ((w[1] as u128) << 64) | w[0] as u128 }
}

/// `primitive_types::U256` addition, which panics on overflow.
#[verifier::external_body]
fn u256_add(a: Account, b: Account) -> (r: Account)
    requires
        a.number() + b.number() <= u256_max(),
    ensures
        r.number() == a.number() + b.number(),
{
    let x = primitive_types::U256([a.lo as u64, (a.lo >> 64) as u64, a.hi as u64, (a.hi >> 64) as u64]);
    let y = primitive_types::U256([b.lo as u64, (b.lo >> 64) as u64, b.hi as u64, (b.hi >> 64) as u64]);
    let w = (x + y).0;
    Account { hi: ((w[3] as u128) << 64) | w[2] as u128, lo: ((w[1] as u128) << 64) | w[0] as u128 }
}

#[derive(PartialEq, Eq, Structural, Clone, Copy, Debug)]
pub struct FrontierScanConfig {
    pub head_parallelism: usize,
    pub consideration_count: usize,
    pub candidates: usize,
    pub cooldown: Duration,
    pub max_pending: usize,
}

impl FrontierScanConfig {
    /// 128 heads, 4 requests per head, 1000 candidates, 5 s cooldown, 16 pending.
    pub fn default_config() -> (r: FrontierScanConfig)
        ensures
            r.head_parallelism == 128 && r.consideration_count == 4 && r.candidates == 1000
                && r.cooldown.millis == 5000 && r.max_pending == 16,
    {
        FrontierScanConfig {
            head_parallelism: 128,
            consideration_count: 4,
            candidates: 1000,
            cooldown: Duration::from_secs(5),
            max_pending: 16,
        }
    }
}

impl Default for FrontierScanConfig {
    fn default() -> (r: FrontierScanConfig)
        ensures
            r.head_parallelism == 128 && r.consideration_count == 4 && r.candidates == 1000
                && r.cooldown.millis == 5000 && r.max_pending == 16,
    {
        Self::default_config()
    }
}

/// The frontier (latest block) of an account.
#[derive(PartialEq, Eq, Structural, Clone, Copy, Debug)]
pub struct Frontier {
    pub account: Account,
    pub hash: BlockHash,
}

/// Strictly ascending accounts.
pub open spec fn ascending(s: Seq<Account>) -> bool {
    forall|i: int, j: int| 0 <= i < j < s.len() ==> s[i].number() < s[j].number()
}

/// The start of head `i` of `p`: 1 for the first (skipping the burn account), else `i`
/// range sizes.
pub open spec fn head_start(range: nat, p: nat, i: nat) -> nat {
    if i == 0 {
        1
    } else {
        range * i
    }
}

/// The end of head `i` of `p`: the largest account for the last head, else one range size
/// after its start.
pub open spec fn head_end(range: nat, p: nat, i: nat) -> nat {
    if i + 1 == p {
        u256_max()
    } else {
        head_start(range, p, i) + range
    }
}

/// Whether a head covers one of the first `n` ranges of `p`.
pub open spec fn in_some_range(h: FrontierHead, range: nat, p: nat, n: nat) -> bool {
    exists|j: nat|
        j < n && h.start.number() == #[trigger] head_start(range, p, j) && h.end.number()
            == head_end(range, p, j)
}

/// Whether some head starts range `j` of `p`.
pub open spec fn range_started(heads: Seq<FrontierHead>, range: nat, p: nat, j: nat) -> bool {
    exists|k: int| 0 <= k < heads.len() && #[trigger] heads[k].start.number() == head_start(range, p, j)
}

/// A head that has not been asked or answered yet.
pub open spec fn fresh_head(h: FrontierHead) -> bool {
    h.candidates@.len() == 0 && h.requests == 0 && h.completed == 0 && h.timestamp.millis == 0
        && h.processed == 0 && h.next == h.start
}

/// Whether `a` may be the next candidate of a head: it was a candidate, or a frontier of the
/// response that lies beyond the head's next account.
pub open spec fn merged_candidate(h: FrontierHead, response: Seq<Frontier>, a: Account) -> bool {
    h.candidates@.contains(a) || exists|k: int|
        0 <= k < response.len() && response[k].account == a && a.number() > h.next.number()
}

/// `c` holds, in ascending order, the `limit` smallest of the merged candidates (all of them
/// if there are fewer).
pub open spec fn trimmed_merge(c: Seq<Account>, h: FrontierHead, response: Seq<Frontier>, limit: nat) -> bool {
    &&& ascending(c)
    &&& c.len() <= limit
    &&& forall|k: int| 0 <= k < c.len() ==> merged_candidate(h, response, #[trigger] c[k])
    &&& forall|a: Account|
        #[trigger] merged_candidate(h, response, a) ==> c.contains(a) || (c.len() == limit && (
        limit == 0 || a.number() > c.last().number()))
}

/// The head after a response was processed with candidates `c` (see `trimmed_merge`): when
/// it has been asked often enough and has candidates (the end of its range stands in when it
/// found none after twice the requests) it moves its next account to the largest candidate,
/// wrapping around at the end of its range, and starts over; otherwise it keeps the candidates.
pub open spec fn processed_head(
    h: FrontierHead,
    c: Seq<Account>,
    consideration_count: nat,
    r: FrontierHead,
    done: bool,
) -> bool {
    let completed = h.completed + 1;
    let c3 = if completed >= 2 * consideration_count && c.len() == 0 {
        seq![h.end]
    } else {
        c
    };
    &&& r.start == h.start && r.end == h.end
    &&& done == (completed >= consideration_count && c3.len() > 0)
    &&& done ==> {
        &&& r.next == if c3.last().number() >= h.end.number() {
            h.start
        } else {
            c3.last()
        }
        &&& r.processed == h.processed + c3.len()
        &&& r.candidates@.len() == 0
        &&& r.requests == 0
        &&& r.completed == 0
        &&& r.timestamp.millis == 0
    }
    &&& !done ==> {
        &&& r.next == h.next
        &&& r.processed == h.processed
        &&& r.candidates@ == c3
        &&& r.requests == h.requests
        &&& r.completed == completed
        &&& r.timestamp == h.timestamp
    }
}

/// A head's own invariant: it scans from a point inside its range, and its candidates lie
/// beyond that point, in ascending order.
pub open spec fn head_ok(h: FrontierHead) -> bool {
    &&& h.start.number() <= h.next.number() < h.end.number()
    &&& ascending(h.candidates@)
    &&& forall|i: int| 0 <= i < h.candidates@.len() ==> (#[trigger] h.candidates@[i]).number() > h.next.number()
}

/// Whether the head may be asked for its next account: it has not been asked often enough,
/// or not since the cutoff.
pub open spec fn eligible(h: FrontierHead, consideration_count: nat, cutoff: Timestamp) -> bool {
    h.requests < consideration_count || h.timestamp.millis < cutoff.millis
}

/// The latest timestamp that is `cooldown` before `now` (the clock's origin if there is none).
pub open spec fn cutoff_of(now: Timestamp, cooldown: Duration) -> Timestamp {
    Timestamp {
        millis: if now.millis >= cooldown.millis {
            (now.millis - cooldown.millis) as u64
        } else {
            0
        },
    }
}

/// Head `i` is the first in timestamp order that may be asked.
pub open spec fn first_eligible(heads: Seq<FrontierHead>, consideration_count: nat, cutoff: Timestamp, i: int) -> bool {
    &&& 0 <= i < heads.len()
    &&& eligible(heads[i], consideration_count, cutoff)
    &&& forall|k: int| 0 <= k < i ==> !eligible(#[trigger] heads[k], consideration_count, cutoff)
}

/// `n` is head `h` after it was asked for its next account at `now`.
pub open spec fn requested_head(h: FrontierHead, n: FrontierHead, now: Timestamp) -> bool {
    &&& n.start == h.start
    &&& n.end == h.end
    &&& n.next == h.next
    &&& n.candidates@ == h.candidates@
    &&& n.requests == h.requests + 1
    &&& n.completed == h.completed
    &&& n.processed == h.processed
    &&& n.timestamp == now
}

/// Head `k` is the one with the largest start that is at most `account`.
pub open spec fn closest_head_at_or_below(heads: Seq<FrontierHead>, account: Account, k: int) -> bool {
    &&& 0 <= k < heads.len()
    &&& heads[k].start.number() <= account.number()
    &&& forall|j: int|
        0 <= j < heads.len() && #[trigger] heads[j].start.number() <= account.number() ==> heads[j].start.number()
            <= heads[k].start.number()
}

/// Inserts `a` into an ascending sequence unless it is present.
fn insert_sorted(v: &mut Vec<Account>, a: Account)
    requires
        ascending(old(v)@),
    ensures
        ascending(final(v)@),
        forall|x: Account| #[trigger] final(v)@.contains(x) <==> (old(v)@.contains(x) || x == a),
{
    let mut p: usize = 0;
    while p < v.len() && v[p].less_than(&a)
        invariant
            p <= v@.len(),
            forall|k: int| 0 <= k < p ==> v@[k].number() < a.number(),
        decreases v@.len() - p,
    {
        p = p + 1;
    }
    if p < v.len() && v[p] == a {
        return;
    }
    let ghost before = v@;
    proof {
        if p < before.len() {
            crate::primitives::lemma_number_order(a.hi, a.lo, before[p as int].hi, before[p as int].lo);
            assert(a.number() < before[p as int].number());
        }
    }
    v.insert(p, a);
    proof {
        let r = v@;
        assert forall|i: int, j: int| 0 <= i < j < r.len() implies r[i].number() < r[j].number() by {
            if j < p {
                assert(r[i] == before[i] && r[j] == before[j]);
            } else if j == p {
                assert(r[i] == before[i]);
            } else if i < p {
                assert(r[i] == before[i] && r[j] == before[j - 1]);
                assert(before[p as int].number() <= before[j - 1].number());
            } else if i == p {
                assert(r[j] == before[j - 1]);
                assert(before[p as int].number() <= before[j - 1].number());
            } else {
                assert(r[i] == before[i - 1] && r[j] == before[j - 1]);
            }
        }
        assert forall|x: Account| #[trigger] r.contains(x) <==> (before.contains(x) || x == a) by {
            if r.contains(x) {
                let k = choose|k: int| 0 <= k < r.len() && r[k] == x;
                if k < p {
                    assert(before[k] == x);
                } else if k > p {
                    assert(before[k - 1] == x);
                }
            }
            if before.contains(x) {
                let k = choose|k: int| 0 <= k < before.len() && before[k] == x;
                if k < p {
                    assert(r[k] == x);
                } else {
                    assert(r[k + 1] == x);
                }
            }
            if x == a {
                assert(r[p as int] == a);
            }
        }
    }
}

/// The candidates of `head` merged with the response's frontiers beyond its next account,
/// cut down to the `limit` smallest.
fn merge_candidates(head: &FrontierHead, response: &[Frontier], limit: usize) -> (r: Vec<Account>)
    requires
        ascending(head.candidates@),
    ensures
        trimmed_merge(r@, *head, response@, limit as nat),
{
    let mut v: Vec<Account> = Vec::new();
    let mut i: usize = 0;
    while i < head.candidates.len()
        invariant
            i <= head.candidates@.len(),
            ascending(head.candidates@),
            v@ == head.candidates@.take(i as int),
        decreases head.candidates@.len() - i,
    {
        v.push(head.candidates[i]);
        assert(head.candidates@.take(i + 1) =~= head.candidates@.take(i as int).push(head.candidates@[i as int]));
        i = i + 1;
    }
    assert(head.candidates@.take(head.candidates@.len() as int) =~= head.candidates@);
    let mut k: usize = 0;
    while k < response.len()
        invariant
            k <= response@.len(),
            ascending(v@),
            forall|x: Account| #[trigger] v@.contains(x) <==> (head.candidates@.contains(x) || exists|j: int|
                0 <= j < k && response@[j].account == x && x.number() > head.next.number()),
        decreases response@.len() - k,
    {
        let a = response[k].account;
        if head.next.less_than(&a) {
            insert_sorted(&mut v, a);
        }
        proof {
            assert forall|x: Account| #[trigger] v@.contains(x) <==> (head.candidates@.contains(x)
                || exists|j: int|
                0 <= j < k + 1 && response@[j].account == x && x.number() > head.next.number()) by {
                if exists|j: int|
                    0 <= j < k + 1 && response@[j].account == x && x.number() > head.next.number() {
                    let j = choose|j: int|
                        0 <= j < k + 1 && response@[j].account == x && x.number() > head.next.number();
                    if j < k {
                        assert(exists|j2: int|
                            0 <= j2 < k && response@[j2].account == x && x.number() > head.next.number());
                    }
                }
            }
        }
        k = k + 1;
    }
    let ghost full = v@;
    while v.len() > limit
        invariant
            ascending(full),
            v@.len() <= full.len(),
            v@ == full.take(v@.len() as int),
            v@.len() >= limit || v@ == full,
        decreases v@.len(),
    {
        v.pop();
        assert(full.take(v@.len() as int) =~= v@);
    }
    proof {
        let c = v@;
        assert(forall|x: Account| #[trigger] full.contains(x) <==> merged_candidate(*head, response@, x));
        assert forall|j: int| 0 <= j < c.len() implies merged_candidate(*head, response@, #[trigger] c[j]) by {
            assert(full[j] == c[j]);
            assert(full.contains(c[j]));
        }
        assert forall|a: Account| #[trigger] merged_candidate(*head, response@, a) implies c.contains(a) || (
        c.len() == limit && (limit == 0 || a.number() > c.last().number())) by {
            assert(full.contains(a));
            let j = choose|j: int| 0 <= j < full.len() && full[j] == a;
            if j < c.len() {
                assert(c[j] == a);
            } else {
                if limit > 0 {
                    assert(c.last() == full[c.len() - 1]);
                }
            }
        }
        assert forall|i1: int, j1: int| 0 <= i1 < j1 < c.len() implies c[i1].number() < c[j1].number() by {
            assert(c[i1] == full[i1] && c[j1] == full[j1]);
        }
    }
    v
}

/// Processes a response for `head` (see `processed_head`) and returns the new head and
/// whether the head is done with its current range step.
fn process_head(head: &FrontierHead, response: &[Frontier], config: &FrontierScanConfig) -> (r: (
    FrontierHead,
    bool,
))
    requires
        ascending(head.candidates@),
        head.completed < usize::MAX,
        config.consideration_count * 2 <= usize::MAX,
        head.processed + config.candidates + 1 <= usize::MAX,
    ensures
        exists|c: Seq<Account>|
            trimmed_merge(c, *head, response@, config.candidates as nat) && processed_head(
                *head,
                c,
                config.consideration_count as nat,
                r.0,
                r.1,
            ),
        ascending(r.0.candidates@),
{
    let completed = head.completed + 1;
    let mut candidates = merge_candidates(head, response, config.candidates);
    let ghost c = candidates@;
    if completed >= config.consideration_count * 2 && candidates.len() == 0 {
        candidates.push(head.end);
    }
    let ghost c3 = candidates@;
    if completed >= config.consideration_count && candidates.len() > 0 {
        let last = candidates[candidates.len() - 1];
        let next = if last.less_than(&head.end) {
            last
        } else {
            head.start
        };
        let new_head = FrontierHead {
            start: head.start,
            end: head.end,
            next,
            candidates: Vec::new(),
            requests: 0,
            completed: 0,
            timestamp: Timestamp::zero(),
            processed: head.processed + candidates.len(),
        };
        assert(c3 =~= (if completed >= 2 * config.consideration_count && c.len() == 0 {
            seq![head.end]
        } else {
            c
        }));
        assert(processed_head(*head, c, config.consideration_count as nat, new_head, true));
        (new_head, true)
    } else {
        let new_head = FrontierHead {
            start: head.start,
            end: head.end,
            next: head.next,
            candidates,
            requests: head.requests,
            completed,
            timestamp: head.timestamp,
            processed: head.processed,
        };
        assert(c3 =~= (if completed >= 2 * config.consideration_count && c.len() == 0 {
            seq![head.end]
        } else {
            c
        }));
        assert(processed_head(*head, c, config.consideration_count as nat, new_head, false));
        (new_head, false)
    }
}

/// Tracks the progress of scanning each range of the account space.
pub struct FrontierScan {
    config: FrontierScanConfig,
    heads: OrderedHeads,
}

/// The heads after pushing the head of range `i` keep the shape that `new` promises.
proof fn lemma_initial_head_step(
    before: Seq<FrontierHead>,
    after: Seq<FrontierHead>,
    head: FrontierHead,
    range: nat,
    p: nat,
    i: nat,
)
    requires
        head.start.number() == head_start(range, p, i),
        head.end.number() == head_end(range, p, i),
        fresh_head(head),
        has_start(before, head.start) ==> after == before,
        !has_start(before, head.start) ==> after == before.push(head),
        forall|k: int| 0 <= k < before.len() ==> fresh_head(#[trigger] before[k]),
        forall|k: int| 0 <= k < before.len() ==> in_some_range(#[trigger] before[k], range, p, i),
        forall|j: nat| j < i ==> #[trigger] range_started(before, range, p, j),
    ensures
        after.len() <= before.len() + 1,
        forall|k: int| 0 <= k < after.len() ==> fresh_head(#[trigger] after[k]),
        forall|k: int| 0 <= k < after.len() ==> in_some_range(#[trigger] after[k], range, p, i + 1),
        forall|j: nat| j < i + 1 ==> #[trigger] range_started(after, range, p, j),
{
    assert forall|k: int| 0 <= k < after.len() implies in_some_range(#[trigger] after[k], range, p, i + 1) by {
        if k < before.len() {
            assert(after[k] == before[k]);
            assert(in_some_range(before[k], range, p, i));
            let j = choose|j: nat|
                j < i && before[k].start.number() == #[trigger] head_start(range, p, j)
                    && before[k].end.number() == head_end(range, p, j);
            assert(head_start(range, p, j) == head_start(range, p, j));
        } else {
            assert(after[k] == head);
            assert(head_start(range, p, i) == head_start(range, p, i));
        }
    }
    assert forall|k: int| 0 <= k < after.len() implies fresh_head(#[trigger] after[k]) by {
        if k < before.len() {
            assert(after[k] == before[k]);
        } else {
            assert(after[k] == head);
        }
    }
    assert forall|j: nat| j < i + 1 implies #[trigger] range_started(after, range, p, j) by {
        if j < i {
            assert(range_started(before, range, p, j));
            let k = choose|k: int|
                0 <= k < before.len() && #[trigger] before[k].start.number() == head_start(range, p, j);
            assert(after[k] == before[k]);
        } else if has_start(before, head.start) {
            let k = choose|k: int| 0 <= k < before.len() && before[k].start == head.start;
            assert(after[k].start.number() == head_start(range, p, j));
        } else {
            assert(after[before.len() as int] == head);
        }
    }
}

/// A modification with a head that keeps its invariant keeps every head's invariant.
proof fn lemma_modified_ok(heads: Seq<FrontierHead>, i: int, n: FrontierHead)
    requires
        0 <= i < heads.len(),
        forall|k: int| 0 <= k < heads.len() ==> head_ok(#[trigger] heads[k]),
        head_ok(n),
    ensures
        forall|k: int| 0 <= k < modified(heads, i, n).len() ==> head_ok(#[trigger] modified(heads, i, n)[k]),
{
    crate::ordered_heads::lemma_modified_members(heads, i, n);
    assert forall|k: int| 0 <= k < modified(heads, i, n).len() implies head_ok(
        #[trigger] modified(heads, i, n)[k],
    ) by {
        let m = modified(heads, i, n)[k];
        if m != n {
            assert(is_member(heads, m));
            let j = choose|j: int| 0 <= j < heads.len() && heads[j] == m;
            assert(head_ok(heads[j]));
        }
    }
}

/// A processed head keeps the head invariant: a new next account is a candidate, which lies
/// beyond the old one, or, past the end of the range, the start.
proof fn lemma_processed_ok(
    h: FrontierHead,
    c: Seq<Account>,
    consideration_count: nat,
    n: FrontierHead,
    done: bool,
    response: Seq<Frontier>,
    limit: nat,
)
    requires
        head_ok(h),
        trimmed_merge(c, h, response, limit),
        processed_head(h, c, consideration_count, n, done),
    ensures
        head_ok(n),
{
    assert forall|k: int| 0 <= k < c.len() implies (#[trigger] c[k]).number() > h.next.number() by {
        assert(merged_candidate(h, response, c[k]));
        if h.candidates@.contains(c[k]) {
            let i = choose|i: int| 0 <= i < h.candidates@.len() && h.candidates@[i] == c[k];
            assert(h.candidates@[i].number() > h.next.number());
        }
    }
    let completed = h.completed + 1;
    if completed >= 2 * consideration_count && c.len() == 0 {
        let c3 = seq![h.end];
        if done {
            assert(c3.last() == h.end);
        } else {
            assert(n.candidates@ == c3);
            assert(ascending(c3));
        }
    } else {
        if done {
            if c.last().number() < h.end.number() {
                assert(c.last() == c[c.len() - 1]);
            }
        }
    }
}

/// Head `j` of `p` ranges of size `range` over the account numbers is not empty.
proof fn lemma_head_range_nonempty(range: nat, p: nat, j: nat)
    requires
        j < p,
        1 <= p <= usize::MAX,
        range == u256_max() / p,
    ensures
        head_start(range, p, j) < head_end(range, p, j),
{
    assert(u256_max() > usize::MAX);
    assert(range >= 1 && range * p <= u256_max()) by (nonlinear_arith)
        requires
            range == u256_max() / p,
            1 <= p <= usize::MAX,
            u256_max() > usize::MAX,
    ;
    if j + 1 == p && j > 0 {
        assert(range * j + range == range * p) by (nonlinear_arith)
            requires
                j + 1 == p,
        ;
    }
}

impl FrontierScan {
    pub closed spec fn config_spec(&self) -> FrontierScanConfig {
        self.config
    }

    pub closed spec fn heads(&self) -> Seq<FrontierHead> {
        self.heads.heads()
    }

    pub closed spec fn wf(&self) -> bool {
        &&& self.heads.wf()
        &&& forall|k: int| 0 <= k < self.heads.heads().len() ==> head_ok(#[trigger] self.heads.heads()[k])
    }

    /// Every head scans from a point inside its range, and all its candidates lie beyond
    /// that point.
    pub proof fn lemma_heads_in_range(&self)
        requires
            self.wf(),
        ensures
            forall|k: int|
                0 <= k < self.heads().len() ==> (#[trigger] self.heads()[k]).start.number()
                    <= self.heads()[k].next.number() < self.heads()[k].end.number(),
            forall|k: int, i: int|
                0 <= k < self.heads().len() && 0 <= i < self.heads()[k].candidates@.len() ==> (
                #[trigger] self.heads()[k].candidates@[i]).number() > self.heads()[k].next.number(),
    {
        assert forall|k: int, i: int|
            0 <= k < self.heads().len() && 0 <= i < self.heads()[k].candidates@.len() implies (
            #[trigger] self.heads()[k].candidates@[i]).number() > self.heads()[k].next.number() by {
            assert(head_ok(self.heads.heads()[k]));
        }
    }

    /// Splits the account range into `head_parallelism` consecutive ranges of equal size;
    /// the first starts at 1, skipping the burn account, and the last ends at the largest
    /// account.
    pub fn new(config: FrontierScanConfig) -> (r: FrontierScan)
        requires
            config.head_parallelism > 0,
        ensures
            r.wf(),
            r.config_spec() == config,
            r.heads().len() <= config.head_parallelism,
            forall|k: int| 0 <= k < r.heads().len() ==> fresh_head(#[trigger] r.heads()[k]),
            forall|k: int|
                0 <= k < r.heads().len() ==> in_some_range(
                    #[trigger] r.heads()[k],
                    u256_max() / (config.head_parallelism as nat),
                    config.head_parallelism as nat,
                    config.head_parallelism as nat,
                ),
            forall|j: nat|
                j < config.head_parallelism ==> #[trigger] range_started(
                    r.heads(),
                    u256_max() / (config.head_parallelism as nat),
                    config.head_parallelism as nat,
                    j,
                ),
    {
        let p = config.head_parallelism;
        let max_account = Account::max();
        let range_size = u256_div(max_account, p);
        let ghost range = range_size.number();
        assert(range * p <= u256_max()) by (nonlinear_arith)
            requires
                range == u256_max() / (p as nat),
                p > 0,
        ;
        let mut heads = OrderedHeads::new();
        assert(u256_max() > usize::MAX);
        let mut i: usize = 0;
        while i < p
            invariant
                0 < p == config.head_parallelism,
                i <= p,
                range == range_size.number(),
                range == u256_max() / (p as nat),
                range * p <= u256_max(),
                max_account.number() == u256_max(),
                heads.wf(),
                heads.heads().len() <= i,
                forall|k: int| 0 <= k < heads.heads().len() ==> fresh_head(#[trigger] heads.heads()[k]),
                forall|k: int|
                    0 <= k < heads.heads().len() ==> in_some_range(#[trigger] heads.heads()[k], range, p as nat, i as nat),
                forall|j: nat| j < i ==> #[trigger] range_started(heads.heads(), range, p as nat, j),
            decreases p - i,
        {
            assert(range * i <= u256_max() && (i + 1 < p ==> range * (i + 1) <= u256_max())) by (nonlinear_arith)
                requires
                    range * p <= u256_max(),
                    i < p,
            ;
            let start = if i == 0 {
                Account::from_u64(1)
            } else {
                u256_mul(range_size, i)
            };
            proof {
                if i == 0 && i + 1 < p {
                    assert(range * 2 <= range * p && range >= 1) by (nonlinear_arith)
                        requires
                            p >= 2,
                            range == u256_max() / (p as nat),
                            p <= usize::MAX,
                            u256_max() > usize::MAX,
                    ;
                }
            }
            proof {
                if i > 0 && i + 1 < p {
                    assert(range * i + range == range * (i + 1)) by (nonlinear_arith);
                }
            }
            let end = if i == p - 1 {
                max_account
            } else {
                u256_add(start, range_size)
            };
            let ghost before = heads.heads();
            let head = FrontierHead::new(start, end);
            proof {
                heads.lemma_wf();
                crate::ordered_heads::lemma_ts_insert_pos(before, 0, before.len() as int);
                assert(before.insert(before.len() as int, head) =~= before.push(head));
            }
            heads.push_back(head);
            proof {
                lemma_initial_head_step(before, heads.heads(), head, range, p as nat, i as nat);
            }
            i = i + 1;
        }
        proof {
            assert forall|k: int| 0 <= k < heads.heads().len() implies head_ok(#[trigger] heads.heads()[k]) by {
                let h = heads.heads()[k];
                assert(in_some_range(h, range, p as nat, p as nat));
                let j = choose|j: nat|
                    j < p && h.start.number() == #[trigger] head_start(range, p as nat, j) && h.end.number()
                        == head_end(range, p as nat, j);
                lemma_head_range_nonempty(range, p as nat, j);
                assert(fresh_head(h));
                assert(h.candidates@.len() == 0);
            }
        }
        FrontierScan { config, heads }
    }

    /// The next account to ask for frontiers: the next account of the first head in timestamp
    /// order that has been asked fewer than `consideration_count` times or not since the
    /// cooldown before `now`. That head counts the request and takes `now` as its timestamp.
    /// The zero account when no head may be asked.
    pub fn next(&mut self, now: Timestamp) -> (r: Account)
        requires
            old(self).wf(),
            forall|k: int| 0 <= k < old(self).heads().len() ==> #[trigger] old(self).heads()[k].requests < usize::MAX,
        ensures
            final(self).wf(),
            final(self).config_spec() == old(self).config_spec(),
            (forall|k: int|
                0 <= k < old(self).heads().len() ==> !eligible(
                    #[trigger] old(self).heads()[k],
                    old(self).config_spec().consideration_count as nat,
                    cutoff_of(now, old(self).config_spec().cooldown),
                )) ==> r.number() == 0 && final(self).heads() == old(self).heads(),
            forall|i: int|
                #[trigger] first_eligible(
                    old(self).heads(),
                    old(self).config_spec().consideration_count as nat,
                    cutoff_of(now, old(self).config_spec().cooldown),
                    i,
                ) ==> {
                    &&& r == old(self).heads()[i].next
                    &&& r.number() == 0 ==> final(self).heads() == old(self).heads()
                    &&& r.number() != 0 ==> exists|n: FrontierHead|
                        requested_head(old(self).heads()[i], n, now) && final(self).heads() == #[trigger] modified(
                            old(self).heads(),
                            i,
                            n,
                        )
                },
    {
        let cutoff = now.minus(self.config.cooldown);
        let ghost hs = self.heads.heads();
        let ghost cc = self.config.consideration_count as nat;
        let count = self.heads.len();
        let mut i: usize = 0;
        let mut found = false;
        while i < count
            invariant_except_break
                count == hs.len(),
                i <= count,
                !found,
                self.heads.heads() == hs,
                cc == self.config.consideration_count as nat,
                forall|k: int| 0 <= k < i ==> !eligible(#[trigger] hs[k], cc, cutoff),
            ensures
                self.heads.heads() == hs,
                found ==> first_eligible(hs, cc, cutoff, i as int),
                !found ==> forall|k: int| 0 <= k < hs.len() ==> !eligible(#[trigger] hs[k], cc, cutoff),
            decreases count - i,
        {
            let head = self.heads.get(i);
            if head.requests < self.config.consideration_count || head.timestamp.less_than(&cutoff) {
                found = true;
                assert(eligible(hs[i as int], cc, cutoff));
                break;
            }
            assert(!eligible(hs[i as int], cc, cutoff));
            i = i + 1;
        }
        assert(cutoff == cutoff_of(now, self.config.cooldown));
        assert(hs == old(self).heads());
        assert(found ==> eligible(old(self).heads()[i as int], cc, cutoff));
        if !found {
            return Account::zero();
        }
        let next_account = self.heads.get(i).next;
        let it = self.heads.get(i).start;
        if next_account.is_zero() {
            return next_account;
        }
        let bump = |h: FrontierHead| -> (n: FrontierHead)
            requires
                h.requests < usize::MAX,
            ensures
                requested_head(h, n, now),
        {
            FrontierHead {
                start: h.start,
                end: h.end,
                next: h.next,
                candidates: h.candidates,
                requests: h.requests + 1,
                completed: h.completed,
                timestamp: now,
                processed: h.processed,
            }
        };
        proof {
            self.heads.lemma_wf();
            assert(hs[i as int].start == it);
            assert(hs[i as int].requests < usize::MAX);
            assert(call_requires(bump, (hs[i as int],)));
            assert forall|j: int| 0 <= j < hs.len() && hs[j].start == it implies j == i by {
                if j != i {
                    if j < i {
                        assert(hs[j].start != hs[i as int].start);
                    } else {
                        assert(hs[i as int].start != hs[j].start);
                    }
                }
            }
        }
        self.heads.modify(&it, bump);
        proof {
            let m = self.heads.heads();
            let (j, n) = choose|j: int, n: FrontierHead|
                0 <= j < hs.len() && hs[j].start == it && #[trigger] call_ensures(bump, (hs[j],), n) && m
                    == modified(hs, j, n);
            assert(j == i);
            assert(requested_head(hs[j], n, now));
            assert(head_ok(hs[j]));
            assert(n.candidates@ == hs[j].candidates@);
            assert(head_ok(n));
            lemma_modified_ok(hs, j, n);
            assert forall|k: int| 0 <= k < i implies !eligible(#[trigger] hs[k], cc, cutoff) by {}
            assert forall|i2: int| #[trigger] first_eligible(hs, cc, cutoff, i2) implies i2 == i by {
                if i2 < i {
                    assert(!eligible(hs[i2], cc, cutoff));
                } else if i2 > i {
                    assert(!eligible(hs[i as int], cc, cutoff));
                }
            }
        }
        next_account
    }

    /// Takes the response (frontiers from `start` on) for the head with the largest start that
    /// is at most `start`; returns whether that head is done with its current step (see
    /// `processed_head`). Such a head must exist.
    pub fn process(&mut self, start: Account, response: &[Frontier]) -> (r: bool)
        requires
            old(self).wf(),
            exists|k: int|
                0 <= k < old(self).heads().len() && #[trigger] old(self).heads()[k].start.number() <= start.number(),
            old(self).config_spec().consideration_count * 2 <= usize::MAX,
            forall|k: int|
                #[trigger] closest_head_at_or_below(old(self).heads(), start, k) ==> old(self).heads()[k].completed
                    < usize::MAX && old(self).heads()[k].processed + old(self).config_spec().candidates + 1
                    <= usize::MAX,
        ensures
            final(self).wf(),
            final(self).config_spec() == old(self).config_spec(),
            exists|k: int, c: Seq<Account>, n: FrontierHead|
                #[trigger] closest_head_at_or_below(old(self).heads(), start, k) && #[trigger] trimmed_merge(
                    c,
                    old(self).heads()[k],
                    response@,
                    old(self).config_spec().candidates as nat,
                ) && #[trigger] processed_head(
                    old(self).heads()[k],
                    c,
                    old(self).config_spec().consideration_count as nat,
                    n,
                    r,
                ) && final(self).heads() == modified(old(self).heads(), k, n),
    {
        let ghost hs = self.heads.heads();
        let it = match self.heads.find_first_less_than_or_equal_to(start) {
            Some(it) => it,
            None => {
                proof {
                    let k = choose|k: int| 0 <= k < hs.len() && #[trigger] hs[k].start.number() <= start.number();
                }
                return false;
            },
        };
        let i = match self.heads.find(&it) {
            Some(i) => i,
            None => {
                return false;
            },
        };
        proof {
            self.heads.lemma_wf();
            assert(closest_head_at_or_below(hs, start, i as int));
        }
        let (updated, done) = process_head(self.heads.get(i), response, &self.config);
        let ghost target = updated;
        let replace = move |h: FrontierHead| -> (n: FrontierHead)
            ensures
                n == target,
        {
            updated
        };
        proof {
            assert forall|j: int| 0 <= j < hs.len() && hs[j].start == it implies j == i by {
                if j != i {
                    if j < i {
                        assert(hs[j].start != hs[i as int].start);
                    } else {
                        assert(hs[i as int].start != hs[j].start);
                    }
                }
            }
        }
        self.heads.modify(&it, replace);
        proof {
            let m = self.heads.heads();
            let (j, n) = choose|j: int, n: FrontierHead|
                0 <= j < hs.len() && hs[j].start == it && #[trigger] call_ensures(replace, (hs[j],), n) && m
                    == modified(hs, j, n);
            assert(j == i);
            assert(n == target);
            let c = choose|c: Seq<Account>|
                trimmed_merge(c, hs[j], response@, self.config.candidates as nat) && processed_head(
                    hs[j],
                    c,
                    self.config.consideration_count as nat,
                    target,
                    done,
                );
            assert(head_ok(hs[j]));
            lemma_processed_ok(hs[j], c, self.config.consideration_count as nat, target, done, response@, self.config.candidates as nat);
            lemma_modified_ok(hs, j, n);
            assert(closest_head_at_or_below(hs, start, j));
        }
        done
    }
}

} // verus!
