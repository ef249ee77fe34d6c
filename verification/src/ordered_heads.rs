//! The frontier heads of a frontier scan, ordered by the time of their last request.
use crate::primitives::{Account, Timestamp};
use vstd::prelude::*;

verus! {

/// A range of accounts to scan, `[start, end)`. Once the whole range is scanned (the scan goes
/// past `end`) the head wraps around to `start`.
pub struct FrontierHead {
    pub start: Account,
    pub end: Account,
    /// The scan queries frontiers from here on and gathers candidates.
    pub next: Account,
    /// Candidate next accounts, strictly ascending.
    pub candidates: Vec<Account>,
    pub requests: usize,
    pub completed: usize,
    pub timestamp: Timestamp,
    /// Total number of accounts processed.
    pub processed: usize,
}

impl FrontierHead {
    pub fn new(start: Account, end: Account) -> (r: FrontierHead)
        ensures
            r.start == start,
            r.end == end,
            r.next == start,
            r.candidates@ == Seq::<Account>::empty(),
            r.requests == 0,
            r.completed == 0,
            r.timestamp.millis == 0,
            r.processed == 0,
    {
        FrontierHead {
            start,
            end,
            next: start,
            candidates: Vec::new(),
            requests: 0,
            completed: 0,
            timestamp: Timestamp::zero(),
            processed: 0,
        }
    }
}

/// Whether `heads` is ordered by timestamp.
pub open spec fn ts_sorted(heads: Seq<FrontierHead>) -> bool {
    forall|i: int, j: int|
        0 <= i < j < heads.len() ==> heads[i].timestamp.millis <= heads[j].timestamp.millis
}

/// No start occurs twice.
pub open spec fn starts_unique(heads: Seq<FrontierHead>) -> bool {
    forall|i: int, j: int| 0 <= i < j < heads.len() ==> heads[i].start != heads[j].start
}

/// Whether `h` is one of the heads.
pub open spec fn is_member(heads: Seq<FrontierHead>, h: FrontierHead) -> bool {
    exists|j: int| 0 <= j < heads.len() && heads[j] == h
}

/// The heads after the head at `i` became `n`: in place if its timestamp is unchanged, else
/// at the end of its new timestamp group.
pub open spec fn modified(heads: Seq<FrontierHead>, i: int, n: FrontierHead) -> Seq<FrontierHead> {
    if n.timestamp == heads[i].timestamp {
        heads.update(i, n)
    } else {
        heads.remove(i).insert(ts_insert_pos(heads.remove(i), n.timestamp.millis), n)
    }
}

/// Whether a head with this start is present.
pub open spec fn has_start(heads: Seq<FrontierHead>, start: Account) -> bool {
    exists|i: int| 0 <= i < heads.len() && heads[i].start == start
}

/// The position where a head with timestamp `t` joins: after every head whose timestamp is
/// not later.
pub open spec fn ts_insert_pos(heads: Seq<FrontierHead>, t: u64) -> int {
    choose|p: int| is_ts_insert_pos(heads, t, p)
}

/// Whether `p` lies after every head whose timestamp is not later than `t`, and before the others.
pub open spec fn is_ts_insert_pos(heads: Seq<FrontierHead>, t: u64, p: int) -> bool {
    &&& 0 <= p <= heads.len()
    &&& forall|k: int| 0 <= k < p ==> heads[k].timestamp.millis <= t
    &&& p == heads.len() || heads[p].timestamp.millis > t
}

/// Frontier heads, each start once, ordered by timestamp; heads of equal timestamp keep the
/// order in which they took that timestamp.
pub struct OrderedHeads {
    heads: Vec<FrontierHead>,
}

impl OrderedHeads {
    /// The heads in timestamp order.
    pub closed spec fn heads(&self) -> Seq<FrontierHead> {
        self.heads@
    }

    pub closed spec fn wf(&self) -> bool {
        ts_sorted(self.heads@) && starts_unique(self.heads@)
    }

    /// A well-formed index is ordered by timestamp and holds each start once.
    pub proof fn lemma_wf(&self)
        requires
            self.wf(),
        ensures
            ts_sorted(self.heads()),
            starts_unique(self.heads()),
    {
    }

    pub fn new() -> (r: OrderedHeads)
        ensures
            r.wf(),
            r.heads() == Seq::<FrontierHead>::empty(),
    {
        OrderedHeads { heads: Vec::new() }
    }

    /// The position where a head with timestamp `t` joins its timestamp group.
    fn insert_position(&self, t: Timestamp) -> (r: usize)
        requires
            self.wf(),
        ensures
            r <= self.heads@.len(),
            forall|k: int| 0 <= k < r ==> self.heads@[k].timestamp.millis <= t.millis,
            r == self.heads@.len() || self.heads@[r as int].timestamp.millis > t.millis,
    {
        let mut p: usize = self.heads.len();
        while p > 0 && self.heads[p - 1].timestamp.millis > t.millis
            invariant
                p <= self.heads@.len(),
                ts_sorted(self.heads@),
                forall|k: int| p <= k < self.heads@.len() ==> self.heads@[k].timestamp.millis > t.millis,
            decreases p,
        {
            p = p - 1;
        }
        p
    }

    /// Adds a head unless one with its start is present.
    pub fn push_back(&mut self, head: FrontierHead)
        requires
            old(self).wf(),
        ensures
            final(self).wf(),
            has_start(old(self).heads(), head.start) ==> final(self).heads() == old(self).heads(),
            !has_start(old(self).heads(), head.start) ==> final(self).heads() == old(self).heads().insert(
                ts_insert_pos(old(self).heads(), head.timestamp.millis),
                head,
            ),
    {
        if self.find(&head.start).is_some() {
            return;
        }
        let p = self.insert_position(head.timestamp);
        proof {
            lemma_ts_insert_pos(self.heads@, head.timestamp.millis, p as int);
        }
        let ghost before = self.heads@;
        self.heads.insert(p, head);
        proof {
            lemma_insert_keeps_order(before, head, p as int);
        }
    }

    /// The index of the head with this start.
    pub fn find(&self, start: &Account) -> (r: Option<usize>)
        ensures
            r is None <==> !has_start(self.heads(), *start),
            r matches Some(i) ==> i < self.heads().len() && self.heads()[i as int].start == *start,
    {
        let mut i: usize = 0;
        while i < self.heads.len()
            invariant
                i <= self.heads@.len(),
                forall|k: int| 0 <= k < i ==> self.heads@[k].start != *start,
            decreases self.heads@.len() - i,
        {
            if self.heads[i].start == *start {
                return Some(i);
            }
            i = i + 1;
        }
        None
    }

    /// The heads in timestamp order.
    pub fn ordered_by_timestamp(&self) -> (r: Vec<&FrontierHead>)
        ensures
            r@.len() == self.heads().len(),
            forall|i: int| 0 <= i < r@.len() ==> *r@[i] == self.heads()[i],
    {
        let mut r: Vec<&FrontierHead> = Vec::new();
        let mut i: usize = 0;
        while i < self.heads.len()
            invariant
                i <= self.heads@.len(),
                r@.len() == i,
                forall|k: int| 0 <= k < i ==> *r@[k] == self.heads@[k],
            decreases self.heads@.len() - i,
        {
            r.push(&self.heads[i]);
            i = i + 1;
        }
        r
    }

    /// The head at a position of the timestamp order.
    pub fn get(&self, index: usize) -> (r: &FrontierHead)
        requires
            index < self.heads().len(),
        ensures
            *r == self.heads()[index as int],
    {
        &self.heads[index]
    }

    /// Replaces the head with this start by what `f` makes of it. A head whose timestamp
    /// changes moves to the end of its new timestamp group. The head must exist and `f` must
    /// keep its start.
    #[verifier::rlimit(30)]
    pub fn modify<F: FnOnce(FrontierHead) -> FrontierHead>(&mut self, start: &Account, f: F)
        requires
            old(self).wf(),
            has_start(old(self).heads(), *start),
            forall|i: int|
                0 <= i < old(self).heads().len() && old(self).heads()[i].start == *start ==> call_requires(
                    f,
                    (#[trigger] old(self).heads()[i],),
                ),
            forall|i: int, n: FrontierHead|
                0 <= i < old(self).heads().len() && old(self).heads()[i].start == *start
                    && #[trigger] call_ensures(f, (old(self).heads()[i],), n) ==> n.start == *start,
        ensures
            final(self).wf(),
            exists|i: int, n: FrontierHead|
                0 <= i < old(self).heads().len() && old(self).heads()[i].start == *start
                    && #[trigger] call_ensures(f, (old(self).heads()[i],), n) && final(self).heads()
                    == modified(old(self).heads(), i, n),
    {
        let i = match self.find(start) {
            Some(i) => i,
            None => {
                assert(false);
                0
            },
        };
        let ghost before = self.heads@;
        let head = self.heads.remove(i);
        assert(head == before[i as int]);
        assert(call_requires(f, (before[i as int],)));
        let old_timestamp = head.timestamp;
        let updated = f(head);
        let ghost n = updated;
        assert(call_ensures(f, (before[i as int],), updated));
        if updated.timestamp == old_timestamp {
            self.heads.insert(i, updated);
            proof {
                assert(before.remove(i as int).insert(i as int, updated) =~= before.update(i as int, updated));
                assert forall|a: int, b: int| 0 <= a < b < self.heads@.len() implies self.heads@[a].start
                    != self.heads@[b].start by {
                    assert(self.heads@[a].start == before[a].start);
                    assert(self.heads@[b].start == before[b].start);
                }
            }
        } else {
            let ghost removed = self.heads@;
            proof {
                assert forall|a: int, b: int| 0 <= a < b < removed.len() implies removed[a].timestamp.millis
                    <= removed[b].timestamp.millis by {
                    let a2 = if a < i { a } else { a + 1 };
                    let b2 = if b < i { b } else { b + 1 };
                    assert(removed[a] == before[a2] && removed[b] == before[b2]);
                }
                assert forall|a: int, b: int| 0 <= a < b < removed.len() implies removed[a].start
                    != removed[b].start by {
                    let a2 = if a < i { a } else { a + 1 };
                    let b2 = if b < i { b } else { b + 1 };
                    assert(removed[a] == before[a2] && removed[b] == before[b2]);
                }
                assert(!has_start(removed, updated.start)) by {
                    if has_start(removed, updated.start) {
                        let k = choose|k: int| 0 <= k < removed.len() && removed[k].start == updated.start;
                        let k2 = if k < i { k } else { k + 1 };
                        assert(before[k2].start == before[i as int].start);
                    }
                }
            }
            let p = self.insert_position(updated.timestamp);
            proof {
                lemma_ts_insert_pos(removed, updated.timestamp.millis, p as int);
            }
            self.heads.insert(p, updated);
            proof {
                lemma_insert_keeps_order(removed, updated, p as int);
                assert(removed == before.remove(i as int));
            }
        }
        assert(old(self).heads() == before);
        assert(self.heads@ == modified(before, i as int, n));
        assert(call_ensures(f, (old(self).heads()[i as int],), n));
    }

    /// The largest start that is at most `account`.
    pub fn find_first_less_than_or_equal_to(&self, account: Account) -> (r: Option<Account>)
        ensures
            r is None ==> forall|k: int|
                0 <= k < self.heads().len() ==> #[trigger] self.heads()[k].start.number()
                    > account.number(),
            r matches Some(s) ==> has_start(self.heads(), s) && s.number() <= account.number()
                && forall|k: int|
                0 <= k < self.heads().len() && #[trigger] self.heads()[k].start.number()
                    <= account.number() ==> self.heads()[k].start.number() <= s.number(),
    {
        let mut best: Option<Account> = None;
        let mut i: usize = 0;
        while i < self.heads.len()
            invariant
                i <= self.heads@.len(),
                best is None ==> forall|k: int|
                    0 <= k < i ==> #[trigger] self.heads@[k].start.number() > account.number(),
                best matches Some(s) ==> has_start(self.heads@, s) && s.number() <= account.number()
                    && forall|k: int|
                    0 <= k < i && #[trigger] self.heads@[k].start.number() <= account.number()
                        ==> self.heads@[k].start.number() <= s.number(),
            decreases self.heads@.len() - i,
        {
            let s = self.heads[i].start;
            if s.less_or_equal(&account) {
                match best {
                    Some(b) => {
                        if b.less_than(&s) {
                            best = Some(s);
                        }
                    },
                    None => {
                        best = Some(s);
                    },
                }
            }
            i = i + 1;
        }
        best
    }

    /// The heads in ascending order of their start.
    pub fn iter(&self) -> (r: Vec<&FrontierHead>)
        requires
            self.wf(),
        ensures
            r@.len() == self.heads().len(),
            forall|k: int| 0 <= k < r@.len() ==> has_start(self.heads(), r@[k].start),
            forall|k: int| 0 <= k < r@.len() ==> is_member(self.heads(), *#[trigger] r@[k]),
            forall|a: int, b: int| 0 <= a < b < r@.len() ==> r@[a].start.number() < r@[b].start.number(),
    {
        let mut r: Vec<&FrontierHead> = Vec::new();
        let mut i: usize = 0;
        while i < self.heads.len()
            invariant
                self.wf(),
                i <= self.heads@.len(),
                r@.len() == i,
                forall|k: int|
                    0 <= k < r@.len() ==> exists|j: int| 0 <= j < i && *#[trigger] r@[k] == self.heads@[j],
                forall|a: int, b: int|
                    0 <= a < b < r@.len() ==> r@[a].start.number() < r@[b].start.number(),
            decreases self.heads@.len() - i,
        {
            let h = &self.heads[i];
            let mut p: usize = r.len();
            while p > 0 && h.start.less_than(&r[p - 1].start)
                invariant
                    p <= r@.len(),
                    forall|k: int| p <= k < r@.len() ==> h.start.number() < r@[k].start.number(),
                decreases p,
            {
                p = p - 1;
            }
            proof {
                if p > 0 {
                    let j = choose|j: int| 0 <= j < i && *r@[p - 1] == self.heads@[j];
                    assert(self.heads@[j].start != self.heads@[i as int].start);
                    crate::primitives::lemma_number_order(
                        h.start.hi,
                        h.start.lo,
                        r@[p - 1].start.hi,
                        r@[p - 1].start.lo,
                    );
                }
            }
            let ghost before = r@;
            r.insert(p, h);
            proof {
                assert forall|k: int| 0 <= k < r@.len() implies exists|j: int|
                    0 <= j < i + 1 && *#[trigger] r@[k] == self.heads@[j] by {
                    if k < p {
                        assert(r@[k] == before[k]);
                    } else if k == p {
                        assert(*r@[k] == self.heads@[i as int]);
                    } else {
                        assert(r@[k] == before[k - 1]);
                    }
                }
                assert forall|a: int, b: int| 0 <= a < b < r@.len() implies r@[a].start.number()
                    < r@[b].start.number() by {
                    if b < p {
                        assert(r@[a] == before[a] && r@[b] == before[b]);
                    } else if b == p {
                        assert(r@[a] == before[a]);
                    } else if a < p {
                        assert(r@[a] == before[a] && r@[b] == before[b - 1]);
                        if p < before.len() {
                            assert(h.start.number() < before[p as int].start.number());
                        }
                    } else if a == p {
                        assert(r@[b] == before[b - 1]);
                    } else {
                        assert(r@[a] == before[a - 1] && r@[b] == before[b - 1]);
                    }
                }
            }
            i = i + 1;
        }
        proof {
            assert forall|k: int| 0 <= k < r@.len() implies has_start(self.heads(), r@[k].start)
                && is_member(self.heads(), *#[trigger] r@[k]) by {
                assert(*r@[k] == *r@[k]);
                let j = choose|j: int| 0 <= j < self.heads@.len() && *r@[k] == self.heads@[j];
                assert(self.heads()[j] == self.heads@[j]);
                assert(self.heads()[j].start == r@[k].start);
            }
        }
        r
    }

    /// The number of heads.
    pub fn len(&self) -> (r: usize)
        ensures
            r == self.heads().len(),
    {
        self.heads.len()
    }
}

/// `ts_insert_pos` names the position that the search finds.
pub proof fn lemma_ts_insert_pos(heads: Seq<FrontierHead>, t: u64, p: int)
    requires
        ts_sorted(heads),
        0 <= p <= heads.len(),
        forall|k: int| 0 <= k < p ==> heads[k].timestamp.millis <= t,
        p == heads.len() || heads[p].timestamp.millis > t,
    ensures
        ts_insert_pos(heads, t) == p,
{
    assert(is_ts_insert_pos(heads, t, p));
    let q = ts_insert_pos(heads, t);
    assert(is_ts_insert_pos(heads, t, q));
    if q < p {
        assert(heads[q].timestamp.millis <= t);
    } else if q > p {
        assert(heads[p].timestamp.millis <= t);
    }
}

/// Inserting a head with a new start at its timestamp position keeps the order.
pub proof fn lemma_insert_keeps_order(heads: Seq<FrontierHead>, h: FrontierHead, p: int)
    requires
        ts_sorted(heads),
        starts_unique(heads),
        !has_start(heads, h.start),
        0 <= p <= heads.len(),
        forall|k: int| 0 <= k < p ==> heads[k].timestamp.millis <= h.timestamp.millis,
        p == heads.len() || heads[p].timestamp.millis > h.timestamp.millis,
    ensures
        ts_sorted(heads.insert(p, h)),
        starts_unique(heads.insert(p, h)),
{
    let r = heads.insert(p, h);
    assert forall|a: int, b: int| 0 <= a < b < r.len() implies r[a].timestamp.millis
        <= r[b].timestamp.millis && r[a].start != r[b].start by {
        if b < p {
            assert(r[a] == heads[a] && r[b] == heads[b]);
        } else if b == p {
            assert(r[a] == heads[a]);
        } else if a < p {
            assert(r[a] == heads[a] && r[b] == heads[b - 1]);
            assert(heads[p].timestamp.millis <= heads[b - 1].timestamp.millis);
        } else if a == p {
            assert(r[b] == heads[b - 1]);
            assert(heads[p].timestamp.millis <= heads[b - 1].timestamp.millis);
        } else {
            assert(r[a] == heads[a - 1] && r[b] == heads[b - 1]);
        }
    }
}

/// Some position joins a head of timestamp `t` to `heads`, whatever their order.
pub proof fn lemma_ts_insert_pos_exists(heads: Seq<FrontierHead>, t: u64)
    ensures
        exists|p: int| is_ts_insert_pos(heads, t, p),
    decreases heads.len(),
{
    if heads.len() == 0 {
        assert(is_ts_insert_pos(heads, t, 0));
    } else {
        let init = heads.drop_last();
        lemma_ts_insert_pos_exists(init, t);
        let p = choose|p: int| is_ts_insert_pos(init, t, p);
        assert forall|k: int| 0 <= k < p implies heads[k].timestamp.millis <= t by {
            assert(init[k] == heads[k]);
        }
        if p < init.len() {
            assert(init[p] == heads[p]);
            assert(is_ts_insert_pos(heads, t, p));
        } else if heads.last().timestamp.millis > t {
            assert(is_ts_insert_pos(heads, t, p));
        } else {
            assert(is_ts_insert_pos(heads, t, heads.len() as int));
        }
    }
}

/// A modification keeps the number of heads, and each head afterwards is the new one or was
/// there before.
pub proof fn lemma_modified_members(heads: Seq<FrontierHead>, i: int, n: FrontierHead)
    requires
        0 <= i < heads.len(),
    ensures
        modified(heads, i, n).len() == heads.len(),
        forall|k: int|
            0 <= k < heads.len() ==> #[trigger] modified(heads, i, n)[k] == n || is_member(
                heads,
                modified(heads, i, n)[k],
            ),
{
    let m = modified(heads, i, n);
    if n.timestamp == heads[i].timestamp {
        assert forall|k: int| 0 <= k < heads.len() implies #[trigger] m[k] == n || is_member(heads, m[k]) by {
            if k != i {
                assert(m[k] == heads[k]);
            }
        }
    } else {
        let r = heads.remove(i);
        lemma_ts_insert_pos_exists(r, n.timestamp.millis);
        let p = ts_insert_pos(r, n.timestamp.millis);
        assert(is_ts_insert_pos(r, n.timestamp.millis, p));
        assert forall|k: int| 0 <= k < heads.len() implies #[trigger] m[k] == n || is_member(heads, m[k]) by {
            if k < p {
                assert(m[k] == r[k]);
                let k2 = if k < i { k } else { k + 1 };
                assert(r[k] == heads[k2]);
            } else if k > p {
                assert(m[k] == r[k - 1]);
                let k2 = if k - 1 < i { k - 1 } else { k };
                assert(r[k - 1] == heads[k2]);
            }
        }
    }
}

} // verus!
