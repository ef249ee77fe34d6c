//! Scoring of peers for bootstrapping: how many requests each channel has outstanding, so that
//! requests go to channels that are not saturated.
use crate::assoc::{
    assoc_map, has_key, keys_unique, lemma_assoc_index, lemma_assoc_len, lemma_assoc_push,
    lemma_assoc_update,
};
use crate::network::ChannelId;
use vstd::prelude::*;

verus! {

/// The requests sent to a peer and answered by it.
#[derive(PartialEq, Eq, Structural, Clone, Copy, Debug)]
pub struct PeerScore {
    /// Number of outstanding requests to the peer.
    pub outstanding: usize,
    pub request_count_total: usize,
    pub response_count_total: usize,
}

/// One more, wrapping around at the end of the range of `usize`.
pub open spec fn inc_wrapping(x: usize) -> usize {
    if x == usize::MAX {
        0
    } else {
        (x + 1) as usize
    }
}

fn inc_wrapping_exec(x: usize) -> (r: usize)
    ensures
        r == inc_wrapping(x),
{
    if x == usize::MAX {
        0
    } else {
        x + 1
    }
}

/// Whether a channel has as many requests outstanding as the limit allows.
pub open spec fn limit_exceeded(scores: Map<ChannelId, PeerScore>, id: ChannelId, limit: nat) -> bool {
    scores.contains_key(id) && scores[id].outstanding >= limit
}

/// Whether a request may go to a channel: its queue has room and it is under the limit.
pub open spec fn selectable(
    scores: Map<ChannelId, PeerScore>,
    limit: nat,
    full: Seq<ChannelId>,
    id: ChannelId,
) -> bool {
    !full.contains(id) && !limit_exceeded(scores, id, limit)
}

/// The score of a channel after a request was sent to it: one more outstanding request, or a
/// first score.
pub open spec fn after_request(scores: Map<ChannelId, PeerScore>, id: ChannelId) -> PeerScore {
    if scores.contains_key(id) {
        PeerScore {
            outstanding: (scores[id].outstanding + 1) as usize,
            request_count_total: inc_wrapping(scores[id].request_count_total),
            response_count_total: scores[id].response_count_total,
        }
    } else {
        PeerScore { outstanding: 1, request_count_total: 1, response_count_total: 0 }
    }
}

/// A score after a timeout: one outstanding request fewer, if there was any.
pub open spec fn decayed(p: PeerScore) -> PeerScore {
    PeerScore {
        outstanding: if p.outstanding > 0 {
            (p.outstanding - 1) as usize
        } else {
            0
        },
        ..p
    }
}

/// The most requests a channel can have outstanding: the limit, or one for a zero limit (a
/// channel without a score always takes a first request).
pub open spec fn outstanding_bound(limit: nat) -> nat {
    if limit == 0 {
        1
    } else {
        limit
    }
}

/// Tracks the channels to bootstrap from and a score for each channel a request went to.
pub struct PeerScoring {
    scores: Vec<(ChannelId, PeerScore)>,
    channel_limit: usize,
    channels: Vec<ChannelId>,
}

impl PeerScoring {
    pub closed spec fn scores(&self) -> Map<ChannelId, PeerScore> {
        assoc_map(self.scores@)
    }

    /// The channels to choose from, in the order they were synchronized.
    pub closed spec fn channels(&self) -> Seq<ChannelId> {
        self.channels@
    }

    pub closed spec fn channel_limit(&self) -> nat {
        self.channel_limit as nat
    }

    /// No channel has more requests outstanding than `outstanding_bound` allows.
    pub closed spec fn wf(&self) -> bool {
        &&& keys_unique(self.scores@)
        &&& forall|i: int|
            0 <= i < self.scores@.len() ==> #[trigger] self.scores@[i].1.outstanding
                <= outstanding_bound(self.channel_limit as nat)
    }

    /// Every score keeps within the bound.
    pub proof fn lemma_outstanding_bounded(&self, id: ChannelId)
        requires
            self.wf(),
            self.scores().contains_key(id),
        ensures
            self.scores()[id].outstanding <= outstanding_bound(self.channel_limit()),
    {
        let i = choose|i: int| 0 <= i < self.scores@.len() && self.scores@[i].0 == id;
        lemma_assoc_index(self.scores@, i);
    }

    /// No scores and no channels yet; at most `channel_limit` requests outstanding per channel.
    pub fn new(channel_limit: usize) -> (r: PeerScoring)
        ensures
            r.wf(),
            r.scores() == Map::<ChannelId, PeerScore>::empty(),
            r.channels() == Seq::<ChannelId>::empty(),
            r.channel_limit() == channel_limit,
    {
        let r = PeerScoring { scores: Vec::new(), channel_limit, channels: Vec::new() };
        assert(r.scores() =~= Map::<ChannelId, PeerScore>::empty());
        r
    }

    /// The index of a channel's score.
    fn find(&self, id: ChannelId) -> (r: Option<usize>)
        requires
            self.wf(),
        ensures
            r is None <==> !has_key(self.scores@, id),
            r matches Some(i) ==> i < self.scores@.len() && self.scores@[i as int].0 == id,
    {
        let mut i: usize = 0;
        while i < self.scores.len()
            invariant
                i <= self.scores@.len(),
                forall|k: int| 0 <= k < i ==> self.scores@[k].0 != id,
            decreases self.scores@.len() - i,
        {
            if self.scores[i].0 == id {
                return Some(i);
            }
            i = i + 1;
        }
        None
    }

    /// A response came from a channel: it has one request fewer outstanding, unless it has
    /// only one.
    pub fn received_message(&mut self, channel_id: ChannelId)
        requires
            old(self).wf(),
        ensures
            final(self).wf(),
            final(self).scores() == if old(self).scores().contains_key(channel_id) && old(
                self,
            ).scores()[channel_id].outstanding > 1 {
                let p = old(self).scores()[channel_id];
                old(self).scores().insert(
                    channel_id,
                    PeerScore {
                        outstanding: (p.outstanding - 1) as usize,
                        request_count_total: p.request_count_total,
                        response_count_total: inc_wrapping(p.response_count_total),
                    },
                )
            } else {
                old(self).scores()
            },
            final(self).channels() == old(self).channels(),
            final(self).channel_limit() == old(self).channel_limit(),
    {
        match self.find(channel_id) {
            Some(i) => {
                proof {
                    lemma_assoc_index(self.scores@, i as int);
                }
                let p = self.scores[i].1;
                if p.outstanding > 1 {
                    let q = PeerScore {
                        outstanding: p.outstanding - 1,
                        request_count_total: p.request_count_total,
                        response_count_total: inc_wrapping_exec(p.response_count_total),
                    };
                    proof {
                        lemma_assoc_update(self.scores@, i as int, q);
                    }
                    let ghost before = self.scores@;
                    self.scores.set(i, (channel_id, q));
                    assert forall|k: int| 0 <= k < self.scores@.len() implies #[trigger] self.scores@[k].1.outstanding
                        <= outstanding_bound(self.channel_limit as nat) by {
                        if k != i {
                            assert(self.scores@[k] == before[k]);
                        }
                    }
                }
            },
            None => {},
        }
    }

    /// The first synchronized channel that a request may go to (its queue is not among the
    /// `full` ones and it is under the limit); the request is counted in its score.
    pub fn channel(&mut self, full: &[ChannelId]) -> (r: Option<ChannelId>)
        requires
            old(self).wf(),
        ensures
            final(self).wf(),
            final(self).channels() == old(self).channels(),
            final(self).channel_limit() == old(self).channel_limit(),
            r is None <==> forall|i: int|
                0 <= i < old(self).channels().len() ==> !selectable(
                    old(self).scores(),
                    old(self).channel_limit(),
                    full@,
                    #[trigger] old(self).channels()[i],
                ),
            r matches Some(id) ==> exists|i: int|
                #![trigger old(self).channels()[i]]
                0 <= i < old(self).channels().len() && old(self).channels()[i] == id && selectable(
                    old(self).scores(),
                    old(self).channel_limit(),
                    full@,
                    id,
                ) && forall|j: int|
                    0 <= j < i ==> !selectable(
                        old(self).scores(),
                        old(self).channel_limit(),
                        full@,
                        #[trigger] old(self).channels()[j],
                    ),
            final(self).scores() == match r {
                None => old(self).scores(),
                Some(id) => old(self).scores().insert(id, after_request(old(self).scores(), id)),
            },
            r matches Some(id) ==> {
                &&& !full@.contains(id)
                &&& old(self).channels().contains(id)
                &&& final(self).scores().contains_key(id)
                &&& old(self).scores().contains_key(id) ==> old(self).scores()[id].outstanding
                    < old(self).channel_limit() && final(self).scores()[id].outstanding == old(
                    self,
                ).scores()[id].outstanding + 1
                &&& !old(self).scores().contains_key(id) ==> final(self).scores()[id].outstanding == 1
            },
    {
        let mut i: usize = 0;
        while i < self.channels.len()
            invariant
                i <= self.channels@.len(),
                self.wf(),
                self.scores == old(self).scores,
                self.channels == old(self).channels,
                self.channel_limit == old(self).channel_limit,
                forall|j: int|
                    0 <= j < i ==> !selectable(
                        self.scores(),
                        self.channel_limit(),
                        full@,
                        #[trigger] self.channels()[j],
                    ),
            decreases self.channels@.len() - i,
        {
            let id = self.channels[i];
            if !contains_id(full, id) {
                match self.find(id) {
                    Some(k) => {
                        proof {
                            lemma_assoc_index(self.scores@, k as int);
                        }
                        let p = self.scores[k].1;
                        if p.outstanding < self.channel_limit {
                            let q = PeerScore {
                                outstanding: p.outstanding + 1,
                                request_count_total: inc_wrapping_exec(p.request_count_total),
                                response_count_total: p.response_count_total,
                            };
                            proof {
                                lemma_assoc_update(self.scores@, k as int, q);
                            }
                            let ghost before = self.scores@;
                            self.scores.set(k, (id, q));
                            assert forall|m: int| 0 <= m < self.scores@.len() implies #[trigger] self.scores@[m].1.outstanding
                                <= outstanding_bound(self.channel_limit as nat) by {
                                if m != k {
                                    assert(self.scores@[m] == before[m]);
                                }
                            }
                            assert(old(self).channels()[i as int] == id);
                            return Some(id);
                        }
                    },
                    None => {
                        let q = PeerScore { outstanding: 1, request_count_total: 1, response_count_total: 0 };
                        proof {
                            lemma_assoc_push(self.scores@, id, q);
                        }
                        let ghost before = self.scores@;
                        self.scores.push((id, q));
                        assert forall|m: int| 0 <= m < self.scores@.len() implies #[trigger] self.scores@[m].1.outstanding
                            <= outstanding_bound(self.channel_limit as nat) by {
                            if m < before.len() {
                                assert(self.scores@[m] == before[m]);
                            }
                        }
                        assert(old(self).channels()[i as int] == id);
                        return Some(id);
                    },
                }
            }
            i = i + 1;
        }
        None
    }

    /// The number of channels with a score.
    pub fn len(&self) -> (r: usize)
        requires
            self.wf(),
        ensures
            r == self.scores().len(),
    {
        proof {
            lemma_assoc_len(self.scores@);
        }
        self.scores.len()
    }

    /// The number of synchronized channels under the limit.
    pub fn available(&self) -> (r: usize)
        requires
            self.wf(),
        ensures
            r == self.channels().filter(
                |id: ChannelId| !limit_exceeded(self.scores(), id, self.channel_limit()),
            ).len(),
    {
        let ghost pred = |id: ChannelId| !limit_exceeded(self.scores(), id, self.channel_limit());
        let mut count: usize = 0;
        let mut i: usize = 0;
        while i < self.channels.len()
            invariant
                i <= self.channels@.len(),
                self.wf(),
                count == self.channels@.take(i as int).filter(pred).len(),
                count <= i,
                pred == (|id: ChannelId| !limit_exceeded(self.scores(), id, self.channel_limit())),
            decreases self.channels@.len() - i,
        {
            let id = self.channels[i];
            let exceeded = match self.find(id) {
                Some(k) => {
                    proof {
                        lemma_assoc_index(self.scores@, k as int);
                    }
                    self.scores[k].1.outstanding >= self.channel_limit
                },
                None => false,
            };
            proof {
                reveal(Seq::filter);
                assert(self.channels@.take(i + 1).drop_last() =~= self.channels@.take(i as int));
                assert(self.channels@.take(i + 1).last() == id);
                assert(exceeded == limit_exceeded(self.scores(), id, self.channel_limit()));
                assert(pred(id) == !exceeded);
                assert(self.channels@.take(i + 1).filter(pred) == if pred(id) {
                    self.channels@.take(i as int).filter(pred).push(id)
                } else {
                    self.channels@.take(i as int).filter(pred)
                });
            }
            if !exceeded {
                count = count + 1;
            }
            i = i + 1;
        }
        assert(self.channels@.take(self.channels@.len() as int) =~= self.channels@);
        count
    }

    /// Drops the scores of channels that are no longer alive, then lets every remaining channel
    /// have one request fewer outstanding.
    pub fn timeout(&mut self, alive: &[ChannelId])
        requires
            old(self).wf(),
        ensures
            final(self).wf(),
            final(self).scores() == Map::new(
                |id: ChannelId| old(self).scores().contains_key(id) && alive@.contains(id),
                |id: ChannelId| decayed(old(self).scores()[id]),
            ),
            forall|id: ChannelId| #[trigger] final(self).scores().contains_key(id) ==> {
                let before = old(self).scores()[id];
                let after = final(self).scores()[id];
                &&& old(self).scores().contains_key(id) && alive@.contains(id)
                &&& before.outstanding > 0 ==> after.outstanding == before.outstanding - 1
                &&& before.outstanding == 0 ==> after.outstanding == 0
                &&& after.request_count_total == before.request_count_total
                &&& after.response_count_total == before.response_count_total
            },
            forall|id: ChannelId|
                old(self).scores().contains_key(id) && alive@.contains(id) ==> #[trigger] final(self).scores().contains_key(id),
            final(self).channels() == old(self).channels(),
            final(self).channel_limit() == old(self).channel_limit(),
    {
        let ghost s = self.scores@;
        let mut kept: Vec<(ChannelId, PeerScore)> = Vec::new();
        let ghost mut origin: Seq<int> = Seq::empty();
        let mut i: usize = 0;
        while i < self.scores.len()
            invariant
                i <= s.len(),
                self.scores@ == s,
                self.wf(),
                keys_unique(kept@),
                origin.len() == kept@.len(),
                forall|j: int|
                    0 <= j < kept@.len() ==> {
                        let k = #[trigger] origin[j];
                        &&& 0 <= k < i
                        &&& s[k].0 == kept@[j].0
                        &&& kept@[j].1 == decayed(s[k].1)
                        &&& alive@.contains(s[k].0)
                    },
                forall|k: int|
                    0 <= k < i && alive@.contains(#[trigger] s[k].0) ==> has_key(kept@, s[k].0),
            decreases s.len() - i,
        {
            let (id, p) = self.scores[i];
            if contains_id(alive, id) {
                let q = PeerScore {
                    outstanding: if p.outstanding > 0 {
                        p.outstanding - 1
                    } else {
                        0
                    },
                    ..p
                };
                proof {
                    assert(!has_key(kept@, id)) by {
                        if has_key(kept@, id) {
                            let j = choose|j: int| 0 <= j < kept@.len() && kept@[j].0 == id;
                            let k = origin[j];
                            assert(s[k].0 == s[i as int].0);
                        }
                    }
                    lemma_assoc_push(kept@, id, q);
                }
                let ghost before = kept@;
                let ghost before_origin = origin;
                kept.push((id, q));
                proof {
                    origin = origin.push(i as int);
                    assert forall|j: int| 0 <= j < kept@.len() implies {
                        let k = #[trigger] origin[j];
                        &&& 0 <= k < i + 1
                        &&& s[k].0 == kept@[j].0
                        &&& kept@[j].1 == decayed(s[k].1)
                        &&& alive@.contains(s[k].0)
                    } by {
                        if j < before.len() {
                            assert(kept@[j] == before[j]);
                            assert(origin[j] == before_origin[j]);
                        }
                    }
                    assert forall|k: int| 0 <= k < i + 1 && alive@.contains(#[trigger] s[k].0) implies has_key(
                        kept@,
                        s[k].0,
                    ) by {
                        if k < i {
                            let j = choose|j: int| 0 <= j < before.len() && before[j].0 == s[k].0;
                            assert(kept@[j] == before[j]);
                        } else {
                            assert(kept@[before.len() as int].0 == s[k].0);
                        }
                    }
                }
            }
            i = i + 1;
        }
        proof {
            let target = Map::new(
                |id: ChannelId| assoc_map(s).contains_key(id) && alive@.contains(id),
                |id: ChannelId| decayed(assoc_map(s)[id]),
            );
            assert forall|id: ChannelId| #[trigger] assoc_map(kept@).contains_key(id) == target.contains_key(id) by {
                if has_key(kept@, id) {
                    let j = choose|j: int| 0 <= j < kept@.len() && kept@[j].0 == id;
                    let k = origin[j];
                    assert(has_key(s, id));
                }
                if has_key(s, id) && alive@.contains(id) {
                    let k = choose|k: int| 0 <= k < s.len() && s[k].0 == id;
                    assert(alive@.contains(s[k].0));
                }
            }
            assert forall|id: ChannelId| #[trigger] assoc_map(kept@).contains_key(id) implies assoc_map(kept@)[id]
                == target[id] by {
                let j = choose|j: int| 0 <= j < kept@.len() && kept@[j].0 == id;
                lemma_assoc_index(kept@, j);
                let k = origin[j];
                lemma_assoc_index(s, k);
            }
            assert(assoc_map(kept@) =~= target);
            assert forall|j: int| 0 <= j < kept@.len() implies #[trigger] kept@[j].1.outstanding
                <= outstanding_bound(self.channel_limit as nat) by {
                let k = origin[j];
                assert(s[k].1.outstanding <= outstanding_bound(self.channel_limit as nat));
            }
        }
        self.scores = kept;
    }

    /// Replaces the channels to choose from (the caller passes them shuffled).
    pub fn sync(&mut self, channels: Vec<ChannelId>)
        requires
            old(self).wf(),
        ensures
            final(self).wf(),
            final(self).channels() == channels@,
            final(self).scores() == old(self).scores(),
            final(self).channel_limit() == old(self).channel_limit(),
    {
        self.channels = channels;
    }
}

/// Whether an identifier occurs in the list.
pub(crate) fn contains_id(ids: &[ChannelId], id: ChannelId) -> (r: bool)
    ensures
        r == ids@.contains(id),
{
    let mut i: usize = 0;
    while i < ids.len()
        invariant
            i <= ids@.len(),
            forall|k: int| 0 <= k < i ==> ids@[k] != id,
        decreases ids@.len() - i,
    {
        if ids[i] == id {
            assert(ids@[i as int] == id);
            return true;
        }
        i = i + 1;
    }
    false
}

/// A timeout takes exactly one outstanding request off a score that has any, leaves a score
/// without any at zero, and keeps the request and response totals.
pub proof fn lemma_timeout_takes_one_off(p: PeerScore)
    ensures
        p.outstanding > 0 ==> decayed(p).outstanding == p.outstanding - 1,
        p.outstanding == 0 ==> decayed(p).outstanding == 0,
        decayed(p).request_count_total == p.request_count_total,
        decayed(p).response_count_total == p.response_count_total,
{
}

} // verus!
