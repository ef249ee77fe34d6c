//! Order-preserving selection from sequences, and the facts about it that the indexes use.
use vstd::prelude::*;

verus! {

/// The elements of `s` that satisfy `p`, in their order in `s`.
pub open spec fn retain<A>(s: Seq<A>, p: spec_fn(A) -> bool) -> Seq<A>
    decreases s.len(),
{
    if s.len() == 0 {
        Seq::empty()
    } else {
        let r = retain(s.drop_last(), p);
        if p(s.last()) {
            r.push(s.last())
        } else {
            r
        }
    }
}

pub proof fn lemma_retain_push<A>(s: Seq<A>, x: A, p: spec_fn(A) -> bool)
    ensures
        retain(s.push(x), p) == if p(x) {
            retain(s, p).push(x)
        } else {
            retain(s, p)
        },
{
    assert(s.push(x).drop_last() =~= s);
}

pub proof fn lemma_retain_len<A>(s: Seq<A>, p: spec_fn(A) -> bool)
    ensures
        retain(s, p).len() <= s.len(),
    decreases s.len(),
{
    if s.len() > 0 {
        lemma_retain_len(s.drop_last(), p);
    }
}

/// What `retain` keeps is exactly what `s` holds and `p` accepts.
pub proof fn lemma_retain_contains<A>(s: Seq<A>, p: spec_fn(A) -> bool)
    ensures
        forall|x: A| #[trigger] retain(s, p).contains(x) <==> (s.contains(x) && p(x)),
    decreases s.len(),
{
    if s.len() > 0 {
        let t = s.drop_last();
        lemma_retain_contains(t, p);
        assert(s =~= t.push(s.last()));
        assert forall|x: A| #[trigger] retain(s, p).contains(x) <==> (s.contains(x) && p(x)) by {
            if s.contains(x) && p(x) {
                let i = choose|i: int| 0 <= i < s.len() && s[i] == x;
                if i < s.len() - 1 {
                    assert(t[i] == x);
                    assert(t.contains(x));
                    assert(retain(t, p).contains(x));
                    let j = choose|j: int| 0 <= j < retain(t, p).len() && retain(t, p)[j] == x;
                    if p(s.last()) {
                        assert(retain(s, p)[j] == x);
                    }
                } else {
                    assert(retain(s, p).last() == x);
                }
            }
            if retain(s, p).contains(x) {
                let j = choose|j: int| 0 <= j < retain(s, p).len() && retain(s, p)[j] == x;
                if p(s.last()) && j == retain(s, p).len() - 1 {
                    assert(s[s.len() - 1] == x);
                } else {
                    assert(retain(t, p)[j] == x);
                    assert(retain(t, p).contains(x));
                    let i = choose|i: int| 0 <= i < t.len() && t[i] == x;
                    assert(s[i] == x);
                }
            }
        }
    }
}

/// When a key function tells the elements of `s` apart, it tells those `retain` keeps apart.
pub proof fn lemma_retain_unique<A, K>(s: Seq<A>, p: spec_fn(A) -> bool, key: spec_fn(A) -> K)
    requires
        forall|i: int, j: int| 0 <= i < j < s.len() ==> key(s[i]) != key(s[j]),
    ensures
        forall|i: int, j: int|
            0 <= i < j < retain(s, p).len() ==> key(retain(s, p)[i]) != key(retain(s, p)[j]),
    decreases s.len(),
{
    if s.len() > 0 {
        let t = s.drop_last();
        lemma_retain_unique(t, p, key);
        lemma_retain_contains(t, p);
        let r = retain(s, p);
        let rt = retain(t, p);
        if p(s.last()) {
            assert forall|i: int, j: int| 0 <= i < j < r.len() implies key(r[i]) != key(r[j]) by {
                if j == r.len() - 1 {
                    assert(rt.contains(rt[i]));
                    let k = choose|k: int| 0 <= k < t.len() && t[k] == rt[i];
                    assert(s[k] == rt[i]);
                    assert(key(s[k]) != key(s[s.len() - 1]));
                } else {
                    assert(r[i] == rt[i] && r[j] == rt[j]);
                }
            }
        }
    }
}

/// Splitting by `p` and then selecting by `q` selects, in total, as many as selecting by `q`.
pub proof fn lemma_retain_split_count<A>(s: Seq<A>, p: spec_fn(A) -> bool, q: spec_fn(A) -> bool)
    ensures
        retain(retain(s, p), q).len() + retain(retain(s, |x: A| !p(x)), q).len() == retain(
            s,
            q,
        ).len(),
    decreases s.len(),
{
    if s.len() > 0 {
        let t = s.drop_last();
        let x = s.last();
        let np = |x: A| !p(x);
        lemma_retain_split_count(t, p, q);
        assert(s =~= t.push(x));
        lemma_retain_push(t, x, p);
        lemma_retain_push(t, x, np);
        lemma_retain_push(t, x, q);
        lemma_retain_push(retain(t, p), x, q);
        lemma_retain_push(retain(t, np), x, q);
    }
}

/// Selecting from a sequence in two steps is selecting by both predicates.
pub proof fn lemma_retain_retain<A>(s: Seq<A>, p: spec_fn(A) -> bool, q: spec_fn(A) -> bool)
    ensures
        retain(retain(s, p), q) == retain(s, |x: A| p(x) && q(x)),
    decreases s.len(),
{
    if s.len() > 0 {
        let t = s.drop_last();
        let x = s.last();
        lemma_retain_retain(t, p, q);
        assert(s =~= t.push(x));
        lemma_retain_push(t, x, p);
        lemma_retain_push(retain(t, p), x, q);
        lemma_retain_push(t, x, |x: A| p(x) && q(x));
    }
}

/// A predicate that rejects every element keeps nothing; one that accepts all keeps all.
pub proof fn lemma_retain_all_none<A>(s: Seq<A>, p: spec_fn(A) -> bool)
    ensures
        (forall|i: int| 0 <= i < s.len() ==> !p(s[i])) ==> retain(s, p) == Seq::<A>::empty(),
        (forall|i: int| 0 <= i < s.len() ==> p(s[i])) ==> retain(s, p) == s,
    decreases s.len(),
{
    if s.len() > 0 {
        lemma_retain_all_none(s.drop_last(), p);
        assert(s.drop_last().push(s.last()) =~= s);
        if forall|i: int| 0 <= i < s.len() ==> !p(s[i]) {
            assert(!p(s[s.len() - 1]));
            assert(forall|i: int| 0 <= i < s.drop_last().len() ==> !p(#[trigger] s.drop_last()[i])
                ==> !p(s[i]));
        }
        if forall|i: int| 0 <= i < s.len() ==> p(s[i]) {
            assert(p(s[s.len() - 1]));
            assert(forall|i: int| 0 <= i < s.drop_last().len() ==> p(#[trigger] s.drop_last()[i])
                ==> p(s[i]));
        }
    } else {
        assert(s =~= Seq::<A>::empty());
    }
}

/// When `p` rejects the first `d` elements and accepts the rest, `retain` keeps the rest.
pub proof fn lemma_retain_suffix<A>(s: Seq<A>, p: spec_fn(A) -> bool, d: int)
    requires
        0 <= d <= s.len(),
        forall|i: int| 0 <= i < d ==> !p(#[trigger] s[i]),
        forall|i: int| d <= i < s.len() ==> p(#[trigger] s[i]),
    ensures
        retain(s, p) == s.skip(d),
    decreases s.len(),
{
    if s.len() > 0 {
        let t = s.drop_last();
        if d < s.len() {
            assert forall|i: int| 0 <= i < d implies !p(#[trigger] t[i]) by {
                assert(t[i] == s[i]);
            }
            assert forall|i: int| d <= i < t.len() implies p(#[trigger] t[i]) by {
                assert(t[i] == s[i]);
            }
            lemma_retain_suffix(t, p, d);
            assert(p(s[s.len() - 1]));
            assert(t.skip(d).push(s.last()) =~= s.skip(d));
        } else {
            assert forall|i: int| 0 <= i < t.len() implies !p(#[trigger] t[i]) by {
                assert(t[i] == s[i]);
            }
            lemma_retain_suffix(t, p, t.len() as int);
            assert(!p(s[s.len() - 1]));
            assert(t.skip(t.len() as int) =~= s.skip(d));
        }
    } else {
        assert(s.skip(d) =~= Seq::<A>::empty());
    }
}

} // verus!
