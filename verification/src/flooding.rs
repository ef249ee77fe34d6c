//! Flooding a message to principal representatives and some other peers.
use crate::network::ChannelId;
use crate::peer_scoring::contains_id;
use crate::seqs::{lemma_retain_len, lemma_retain_push, retain};
use vstd::prelude::*;

verus! {

/// The first `count` elements of `s`, or all of them.
pub open spec fn truncated<A>(s: Seq<A>, count: nat) -> Seq<A> {
    if s.len() <= count {
        s
    } else {
        s.take(count as int)
    }
}

/// The channels that are no principal representative's, in their order.
pub open spec fn non_pr(channels: Seq<ChannelId>, prs: Seq<ChannelId>) -> Seq<ChannelId> {
    retain(channels, |c: ChannelId| !prs.contains(c))
}

/// The channels that a flood reaches besides the principal representatives: of `channels`
/// (shuffled by the caller), those that are no representative's, at most `count` of them.
pub fn non_pr_channels(channels: &[ChannelId], prs: &[ChannelId], count: usize) -> (r: Vec<ChannelId>)
    ensures
        r@ == truncated(non_pr(channels@, prs@), count as nat),
{
    let ghost p = |c: ChannelId| !prs@.contains(c);
    let mut out: Vec<ChannelId> = Vec::new();
    let mut i: usize = 0;
    while i < channels.len()
        invariant
            i <= channels@.len(),
            p == (|c: ChannelId| !prs@.contains(c)),
            out@ == truncated(retain(channels@.take(i as int), p), count as nat),
        decreases channels@.len() - i,
    {
        let c = channels[i];
        let is_pr = contains_id(prs, c);
        proof {
            let before = channels@.take(i as int);
            assert(channels@.take(i + 1) =~= before.push(c));
            lemma_retain_push(before, c, p);
            lemma_retain_len(before, p);
            let k = retain(before, p);
            if k.len() > count {
                assert(k.push(c).take(count as int) =~= k.take(count as int));
            }
        }
        if !is_pr && out.len() < count {
            out.push(c);
        }
        i = i + 1;
    }
    assert(channels@.take(channels@.len() as int) =~= channels@);
    out
}

} // verus!
