//! Bundles the confirmation requests of the elections that still need votes: per round it
//! decides which representatives are asked about which election winner, which get the winner
//! broadcast, and packs the requests of each channel into messages.
use crate::network::ChannelId;
use crate::primitives::{Account, BlockHash, Root};
use crate::seqs::retain;
use vstd::prelude::*;

verus! {

/// The most (hash, root) pairs one confirmation request carries.
pub const CONFIRM_REQ_HASHES_MAX: usize = 255;

/// A principal representative and the channel it is reached on.
#[derive(PartialEq, Eq, Structural, Clone, Copy, Debug)]
pub struct PeeredRep {
    pub account: Account,
    pub channel_id: ChannelId,
}

/// The last vote an election received from a representative.
#[derive(PartialEq, Eq, Structural, Clone, Copy, Debug)]
pub struct LastVote {
    pub hash: BlockHash,
    pub timestamp: u64,
}

/// The last vote of `account` in `votes` (the first entry for it).
pub open spec fn vote_of(votes: Seq<(Account, LastVote)>, account: Account) -> Option<LastVote>
    decreases votes.len(),
{
    if votes.len() == 0 {
        None
    } else if votes[0].0 == account {
        Some(votes[0].1)
    } else {
        vote_of(votes.skip(1), account)
    }
}

/// The last vote of `account`.
pub fn find_vote(votes: &[(Account, LastVote)], account: &Account) -> (r: Option<LastVote>)
    ensures
        r == vote_of(votes@, *account),
{
    let mut i: usize = 0;
    assert(votes@.skip(0) =~= votes@);
    while i < votes.len()
        invariant
            i <= votes@.len(),
            vote_of(votes@.skip(i as int), *account) == vote_of(votes@, *account),
        decreases votes@.len() - i,
    {
        assert(votes@.skip(i as int).skip(1) =~= votes@.skip(i + 1));
        if votes[i].0 == *account {
            return Some(votes[i].1);
        }
        i = i + 1;
    }
    assert(votes@.skip(i as int).len() == 0);
    None
}

/// Whether a representative is asked to vote for `hash`: it has not voted, its vote is not
/// final (a vote counts as final when the election has no quorum yet or the vote is a final
/// vote), or it voted for another block.
pub open spec fn needs_request(votes: Seq<(Account, LastVote)>, rep: PeeredRep, hash: BlockHash, quorum: bool) -> bool {
    match vote_of(votes, rep.account) {
        None => true,
        Some(v) => !(!quorum || v.timestamp == u64::MAX) || v.hash != hash,
    }
}

/// Whether a representative voted for another block than `hash`.
pub open spec fn voted_other(votes: Seq<(Account, LastVote)>, rep: PeeredRep, hash: BlockHash) -> bool {
    match vote_of(votes, rep.account) {
        None => false,
        Some(v) => v.hash != hash,
    }
}

/// The state of adding an election after looking at the first `n` representatives (`drops[j]`
/// tells whether the channel of representative `j` drops confirmation requests): how many
/// requests counted against the limit, whether no request was queued, the channels that got a
/// request, and the representatives whose channel was full.
pub open spec fn solicit_state(
    reps: Seq<PeeredRep>,
    drops: Seq<bool>,
    votes: Seq<(Account, LastVote)>,
    hash: BlockHash,
    quorum: bool,
    n: nat,
) -> (nat, bool, Seq<ChannelId>, Seq<Account>)
    decreases n,
{
    if n == 0 {
        (0, true, Seq::empty(), Seq::empty())
    } else {
        let prev = solicit_state(reps, drops, votes, hash, quorum, (n - 1) as nat);
        let rep = reps[n - 1];
        if !needs_request(votes, rep, hash, quorum) {
            prev
        } else if drops[n - 1] {
            (prev.0, prev.1, prev.2, prev.3.push(rep.account))
        } else {
            (
                if voted_other(votes, rep, hash) {
                    prev.0
                } else {
                    prev.0 + 1
                },
                false,
                prev.2.push(rep.channel_id),
                prev.3,
            )
        }
    }
}

/// The pieces of at most `n` items that `s` is sent in: full pieces, then the rest.
pub open spec fn chunks<T>(s: Seq<T>, n: nat) -> Seq<Seq<T>>
    decreases s.len(),
{
    if s.len() == 0 || n == 0 {
        Seq::empty()
    } else if s.len() <= n {
        seq![s]
    } else {
        seq![s.take(n as int)] + chunks(s.skip(n as int), n)
    }
}

/// The messages for the request groups from index `j` on: each group's requests in pieces of
/// at most `CONFIRM_REQ_HASHES_MAX`, to the group's channel.
pub open spec fn messages_of(groups: Seq<(ChannelId, Seq<(BlockHash, Root)>)>) -> Seq<(ChannelId, Seq<(BlockHash, Root)>)>
    decreases groups.len(),
{
    if groups.len() == 0 {
        Seq::empty()
    } else {
        messages_of(groups.drop_last()) + chunks(groups.last().1, CONFIRM_REQ_HASHES_MAX as nat).map_values(
            |c: Seq<(BlockHash, Root)>| (groups.last().0, c),
        )
    }
}

/// The request groups with `item` added to the group of `channel` (a new group at the end
/// if it has none).
pub open spec fn with_request(
    groups: Seq<(ChannelId, Seq<(BlockHash, Root)>)>,
    channel: ChannelId,
    item: (BlockHash, Root),
) -> Seq<(ChannelId, Seq<(BlockHash, Root)>)> {
    if exists|i: int| 0 <= i < groups.len() && groups[i].0 == channel {
        let i = choose|i: int| 0 <= i < groups.len() && groups[i].0 == channel;
        groups.update(i, (channel, groups[i].1.push(item)))
    } else {
        groups.push((channel, seq![item]))
    }
}

/// The request groups after adding `item` for each channel of `channels` in turn.
pub open spec fn with_requests(
    groups: Seq<(ChannelId, Seq<(BlockHash, Root)>)>,
    channels: Seq<ChannelId>,
    item: (BlockHash, Root),
) -> Seq<(ChannelId, Seq<(BlockHash, Root)>)>
    decreases channels.len(),
{
    if channels.len() == 0 {
        groups
    } else {
        with_request(with_requests(groups, channels.drop_last(), item), channels.last(), item)
    }
}

/// Each channel has one group.
pub open spec fn channels_unique(groups: Seq<(ChannelId, Seq<(BlockHash, Root)>)>) -> bool {
    forall|i: int, j: int| 0 <= i < j < groups.len() ==> groups[i].0 != groups[j].0
}

/// The requests of a round, grouped by channel in the order the channels first got one.
pub struct ConfirmationSolicitor {
    /// Global maximum amount of block broadcasts
    max_block_broadcasts: usize,
    /// Maximum amount of requests to be sent per election, bypassed if an existing vote is for a different hash
    max_election_requests: usize,
    /// Maximum amount of directed broadcasts to be sent per election
    max_election_broadcasts: usize,
    representative_requests: Vec<PeeredRep>,
    representative_broadcasts: Vec<PeeredRep>,
    requests: Vec<(ChannelId, Vec<(BlockHash, Root)>)>,
    prepared: bool,
    rebroadcasted: usize,
}

impl ConfirmationSolicitor {
    pub closed spec fn max_block_broadcasts(&self) -> nat {
        self.max_block_broadcasts as nat
    }

    pub closed spec fn max_election_requests(&self) -> nat {
        self.max_election_requests as nat
    }

    pub closed spec fn max_election_broadcasts(&self) -> nat {
        self.max_election_broadcasts as nat
    }

    /// The representatives still asked for votes this round.
    pub closed spec fn request_reps(&self) -> Seq<PeeredRep> {
        self.representative_requests@
    }

    /// The representatives that winners are broadcast to this round.
    pub closed spec fn broadcast_reps(&self) -> Seq<PeeredRep> {
        self.representative_broadcasts@
    }

    /// The queued requests by channel.
    pub closed spec fn groups(&self) -> Seq<(ChannelId, Seq<(BlockHash, Root)>)> {
        self.requests@.map_values(|g: (ChannelId, Vec<(BlockHash, Root)>)| (g.0, g.1@))
    }

    pub closed spec fn is_prepared(&self) -> bool {
        self.prepared
    }

    pub closed spec fn rebroadcasted(&self) -> nat {
        self.rebroadcasted as nat
    }

    pub closed spec fn wf(&self) -> bool {
        channels_unique(self.groups())
    }

    /// A solicitor for 4 block broadcasts per round on the dev network and 30 elsewhere, 50
    /// requests per election, and directed broadcasts to half the peers that a full fanout
    /// reaches (at least one).
    pub fn new(is_dev_network: bool, fanout: usize) -> (r: ConfirmationSolicitor)
        ensures
            r.wf(),
            r.max_block_broadcasts() == if is_dev_network {
                4nat
            } else {
                30nat
            },
            r.max_election_requests() == 50,
            r.max_election_broadcasts() == if fanout / 2 > 1 {
                (fanout / 2) as nat
            } else {
                1nat
            },
            !r.is_prepared(),
            r.rebroadcasted() == 0,
            r.request_reps() == Seq::<PeeredRep>::empty(),
            r.broadcast_reps() == Seq::<PeeredRep>::empty(),
            r.groups() == Seq::<(ChannelId, Seq<(BlockHash, Root)>)>::empty(),
    {
        let half = fanout / 2;
        let r = ConfirmationSolicitor {
            max_block_broadcasts: if is_dev_network {
                4
            } else {
                30
            },
            max_election_requests: 50,
            max_election_broadcasts: if half > 1 {
                half
            } else {
                1
            },
            representative_requests: Vec::new(),
            representative_broadcasts: Vec::new(),
            requests: Vec::new(),
            prepared: false,
            rebroadcasted: 0,
        };
        assert(r.groups() =~= Seq::<(ChannelId, Seq<(BlockHash, Root)>)>::empty());
        r
    }

    /// Starts a round with these representatives.
    pub fn prepare(&mut self, representatives: &[PeeredRep])
        ensures
            final(self).wf(),
            final(self).is_prepared(),
            final(self).rebroadcasted() == 0,
            final(self).groups() == Seq::<(ChannelId, Seq<(BlockHash, Root)>)>::empty(),
            final(self).request_reps() == representatives@,
            final(self).broadcast_reps() == representatives@,
            final(self).max_block_broadcasts() == old(self).max_block_broadcasts(),
            final(self).max_election_requests() == old(self).max_election_requests(),
            final(self).max_election_broadcasts() == old(self).max_election_broadcasts(),
    {
        self.requests = Vec::new();
        self.rebroadcasted = 0;
        let mut reps: Vec<PeeredRep> = Vec::new();
        let mut reps2: Vec<PeeredRep> = Vec::new();
        let mut i: usize = 0;
        while i < representatives.len()
            invariant
                i <= representatives@.len(),
                reps@ == representatives@.take(i as int),
                reps2@ == representatives@.take(i as int),
            decreases representatives@.len() - i,
        {
            reps.push(representatives[i]);
            reps2.push(representatives[i]);
            assert(representatives@.take(i + 1) =~= representatives@.take(i as int).push(representatives@[i as int]));
            i = i + 1;
        }
        assert(representatives@.take(representatives@.len() as int) =~= representatives@);
        self.representative_requests = reps;
        self.representative_broadcasts = reps2;
        self.prepared = true;
        assert(self.groups() =~= Seq::<(ChannelId, Seq<(BlockHash, Root)>)>::empty());
    }

    /// Counts a winner broadcast. Past the round's limit it is refused (`None`); otherwise
    /// returns the channels of the representatives that get it directly: walking the
    /// broadcast representatives, those that voted for another block, and those that have
    /// not voted, of which at most `max_election_broadcasts` are taken (the walk stops there).
    pub fn broadcast(&mut self, winner: &BlockHash, votes: &[(Account, LastVote)]) -> (r: Option<Vec<ChannelId>>)
        requires
            old(self).rebroadcasted() < usize::MAX,
        ensures
            final(self).rebroadcasted() == old(self).rebroadcasted() + 1,
            final(self).request_reps() == old(self).request_reps(),
            final(self).broadcast_reps() == old(self).broadcast_reps(),
            final(self).groups() == old(self).groups(),
            final(self).is_prepared() == old(self).is_prepared(),
            final(self).max_block_broadcasts() == old(self).max_block_broadcasts(),
            final(self).max_election_requests() == old(self).max_election_requests(),
            final(self).max_election_broadcasts() == old(self).max_election_broadcasts(),
            final(self).wf() == old(self).wf(),
            r is None <==> old(self).rebroadcasted() + 1 >= old(self).max_block_broadcasts(),
            r matches Some(channels) ==> exists|n: nat|
                #![trigger broadcast_walk(old(self).broadcast_reps(), votes@, *winner, n)]
                n <= old(self).broadcast_reps().len() && (forall|j: nat|
                    j < n ==> #[trigger] broadcast_walk(old(self).broadcast_reps(), votes@, *winner, j).0
                        < old(self).max_election_broadcasts()) && (n < old(self).broadcast_reps().len()
                    ==> broadcast_walk(old(self).broadcast_reps(), votes@, *winner, n).0
                    >= old(self).max_election_broadcasts()) && channels@ == broadcast_walk(
                    old(self).broadcast_reps(),
                    votes@,
                    *winner,
                    n,
                ).1,
    {
        self.rebroadcasted = self.rebroadcasted + 1;
        if self.rebroadcasted >= self.max_block_broadcasts {
            return None;
        }
        let ghost reps = self.representative_broadcasts@;
        let mut count: usize = 0;
        let mut channels: Vec<ChannelId> = Vec::new();
        let mut i: usize = 0;
        while i < self.representative_broadcasts.len()
            invariant_except_break
                i <= reps.len(),
                reps == self.representative_broadcasts@,
                forall|j: nat| j < i ==> #[trigger] broadcast_walk(reps, votes@, *winner, j).0 < self.max_election_broadcasts,
                (count as nat, channels@) == broadcast_walk(reps, votes@, *winner, i as nat),
            ensures
                i <= reps.len(),
                forall|j: nat| j < i ==> #[trigger] broadcast_walk(reps, votes@, *winner, j).0 < self.max_election_broadcasts,
                i < reps.len() ==> broadcast_walk(reps, votes@, *winner, i as nat).0 >= self.max_election_broadcasts,
                (count as nat, channels@) == broadcast_walk(reps, votes@, *winner, i as nat),
            decreases reps.len() - i,
        {
            if count >= self.max_election_broadcasts {
                break;
            }
            let rep = self.representative_broadcasts[i];
            let vote = find_vote(votes, &rep.account);
            match vote {
                Some(existing) => {
                    if existing.hash != *winner {
                        channels.push(rep.channel_id);
                    }
                },
                None => {
                    count = count + 1;
                    channels.push(rep.channel_id);
                },
            }
            i = i + 1;
        }
        assert(reps == old(self).broadcast_reps());
        assert(forall|j: nat|
            j < i ==> #[trigger] broadcast_walk(old(self).broadcast_reps(), votes@, *winner, j).0
                < old(self).max_election_broadcasts());
        assert(broadcast_walk(old(self).broadcast_reps(), votes@, *winner, i as nat).1 == channels@);
        Some(channels)
    }

    /// Adds an election whose winner is `hash` (with root `root`); `drops[j]` tells whether
    /// the channel of request representative `j` drops confirmation requests now. Walking the
    /// representatives (see `solicit_state`) until `max_election_requests` requests counted,
    /// a request is queued for each one that needs one and whose channel takes it, and those
    /// whose channel is full leave the round's request representatives. Returns whether no
    /// request was queued.
    pub fn add(
        &mut self,
        hash: &BlockHash,
        root: &Root,
        is_quorum: bool,
        votes: &[(Account, LastVote)],
        drops: &[bool],
    ) -> (r: bool)
        requires
            old(self).wf(),
            drops@.len() == old(self).request_reps().len(),
            old(self).request_reps().len() < usize::MAX,
        ensures
            final(self).wf(),
            exists|n: nat|
                #![trigger solicit_state(old(self).request_reps(), drops@, votes@, *hash, is_quorum, n)]
                {
                    let s = solicit_state(old(self).request_reps(), drops@, votes@, *hash, is_quorum, n);
                    &&& n <= old(self).request_reps().len()
                    &&& forall|j: nat|
                        j < n ==> #[trigger] solicit_state(
                            old(self).request_reps(),
                            drops@,
                            votes@,
                            *hash,
                            is_quorum,
                            j,
                        ).0 < old(self).max_election_requests()
                    &&& n < old(self).request_reps().len() ==> s.0 >= old(self).max_election_requests()
                    &&& r == s.1
                    &&& final(self).groups() == with_requests(old(self).groups(), s.2, (*hash, *root))
                    &&& final(self).request_reps() == retain(
                        old(self).request_reps(),
                        |rep: PeeredRep| !s.3.contains(rep.account),
                    )
                },
            final(self).broadcast_reps() == old(self).broadcast_reps(),
            final(self).is_prepared() == old(self).is_prepared(),
            final(self).rebroadcasted() == old(self).rebroadcasted(),
            final(self).max_block_broadcasts() == old(self).max_block_broadcasts(),
            final(self).max_election_requests() == old(self).max_election_requests(),
            final(self).max_election_broadcasts() == old(self).max_election_broadcasts(),
    {
        let ghost reps = self.representative_requests@;
        let ghost groups0 = self.groups();
        let mut error = true;
        let mut count: usize = 0;
        let mut sent: Vec<ChannelId> = Vec::new();
        let mut to_remove: Vec<Account> = Vec::new();
        let mut i: usize = 0;
        while i < self.representative_requests.len()
            invariant_except_break
                self.wf(),
                i <= reps.len(),
                reps == self.representative_requests@,
                drops@.len() == reps.len(),
                reps.len() < usize::MAX,
                forall|j: nat|
                    j < i ==> #[trigger] solicit_state(reps, drops@, votes@, *hash, is_quorum, j).0
                        < self.max_election_requests,
                (count as nat, error, sent@, to_remove@) == solicit_state(reps, drops@, votes@, *hash, is_quorum, i as nat),
                self.groups() == with_requests(groups0, sent@, (*hash, *root)),
                count <= i,
                self.representative_broadcasts == old(self).representative_broadcasts,
                self.prepared == old(self).prepared,
                self.rebroadcasted == old(self).rebroadcasted,
                self.max_block_broadcasts == old(self).max_block_broadcasts,
                self.max_election_requests == old(self).max_election_requests,
                self.max_election_broadcasts == old(self).max_election_broadcasts,
            ensures
                self.wf(),
                i <= reps.len(),
                reps == self.representative_requests@,
                forall|j: nat|
                    j < i ==> #[trigger] solicit_state(reps, drops@, votes@, *hash, is_quorum, j).0
                        < self.max_election_requests,
                i < reps.len() ==> solicit_state(reps, drops@, votes@, *hash, is_quorum, i as nat).0
                    >= self.max_election_requests,
                (count as nat, error, sent@, to_remove@) == solicit_state(reps, drops@, votes@, *hash, is_quorum, i as nat),
                self.groups() == with_requests(groups0, sent@, (*hash, *root)),
                self.representative_broadcasts == old(self).representative_broadcasts,
                self.prepared == old(self).prepared,
                self.rebroadcasted == old(self).rebroadcasted,
                self.max_block_broadcasts == old(self).max_block_broadcasts,
                self.max_election_requests == old(self).max_election_requests,
                self.max_election_broadcasts == old(self).max_election_broadcasts,
            decreases reps.len() - i,
        {
            if count >= self.max_election_requests {
                break;
            }
            let rep = self.representative_requests[i];
            let existing = find_vote(votes, &rep.account);
            let (has_vote, is_final, different) = match existing {
                Some(v) => (true, !is_quorum || v.timestamp == u64::MAX, v.hash != *hash),
                None => (false, false, false),
            };
            if !has_vote || !is_final || different {
                if !drops[i] {
                    self.add_request(rep.channel_id, (*hash, *root));
                    sent.push(rep.channel_id);
                    if !different {
                        count = count + 1;
                    }
                    error = false;
                } else {
                    to_remove.push(rep.account);
                }
            }
            proof {
                assert(sent@.drop_last() =~= solicit_state(reps, drops@, votes@, *hash, is_quorum, i as nat).2
                    || sent@ == solicit_state(reps, drops@, votes@, *hash, is_quorum, i as nat).2);
            }
            i = i + 1;
        }
        proof {
            assert(self.representative_requests@ == reps);
        }
        if to_remove.len() > 0 {
            let mut kept: Vec<PeeredRep> = Vec::new();
            let mut k: usize = 0;
            while k < self.representative_requests.len()
                invariant
                    k <= reps.len(),
                    reps == self.representative_requests@,
                    kept@ == retain(reps.take(k as int), |rep: PeeredRep| !to_remove@.contains(rep.account)),
                decreases reps.len() - k,
            {
                let rep = self.representative_requests[k];
                proof {
                    crate::seqs::lemma_retain_push(reps.take(k as int), rep, |rep: PeeredRep| !to_remove@.contains(rep.account));
                    assert(reps.take(k + 1) =~= reps.take(k as int).push(rep));
                }
                if !contains_account(&to_remove, &rep.account) {
                    kept.push(rep);
                }
                k = k + 1;
            }
            assert(reps.take(reps.len() as int) =~= reps);
            self.representative_requests = kept;
        } else {
            proof {
                crate::seqs::lemma_retain_all_none(reps, |rep: PeeredRep| !to_remove@.contains(rep.account));
            }
        }
        error
    }

    /// Queues `item` for `channel`.
    fn add_request(&mut self, channel: ChannelId, item: (BlockHash, Root))
        requires
            old(self).wf(),
        ensures
            final(self).wf(),
            final(self).groups() == with_request(old(self).groups(), channel, item),
            final(self).representative_requests == old(self).representative_requests,
            final(self).representative_broadcasts == old(self).representative_broadcasts,
            final(self).prepared == old(self).prepared,
            final(self).rebroadcasted == old(self).rebroadcasted,
            final(self).max_block_broadcasts == old(self).max_block_broadcasts,
            final(self).max_election_requests == old(self).max_election_requests,
            final(self).max_election_broadcasts == old(self).max_election_broadcasts,
    {
        let ghost g0 = self.groups();
        let mut i: usize = 0;
        while i < self.requests.len()
            invariant
                i <= self.requests@.len(),
                g0 == self.groups(),
                g0 == old(self).groups(),
                channels_unique(g0),
                forall|k: int| 0 <= k < i ==> self.requests@[k].0 != channel,
                self.representative_requests == old(self).representative_requests,
                self.representative_broadcasts == old(self).representative_broadcasts,
                self.prepared == old(self).prepared,
                self.rebroadcasted == old(self).rebroadcasted,
                self.max_block_broadcasts == old(self).max_block_broadcasts,
                self.max_election_requests == old(self).max_election_requests,
                self.max_election_broadcasts == old(self).max_election_broadcasts,
            decreases self.requests@.len() - i,
        {
            if self.requests[i].0 == channel {
                let mut group = self.requests.remove(i);
                group.1.push(item);
                self.requests.insert(i, group);
                proof {
                    assert(g0[i as int].0 == channel);
                    let j = choose|j: int| 0 <= j < g0.len() && g0[j].0 == channel;
                    assert(j == i) by {
                        if j != i {
                            if j < i {
                                assert(g0[j].0 != g0[i as int].0);
                            } else {
                                assert(g0[i as int].0 != g0[j].0);
                            }
                        }
                    }
                    assert(self.groups() =~= g0.update(i as int, (channel, g0[i as int].1.push(item))));
                    assert forall|a: int, b: int| 0 <= a < b < self.groups().len() implies self.groups()[a].0
                        != self.groups()[b].0 by {
                        assert(self.groups()[a].0 == g0[a].0);
                        assert(self.groups()[b].0 == g0[b].0);
                    }
                }
                return;
            }
            i = i + 1;
        }
        let mut v: Vec<(BlockHash, Root)> = Vec::new();
        v.push(item);
        self.requests.push((channel, v));
        proof {
            assert(!exists|j: int| 0 <= j < g0.len() && g0[j].0 == channel);
            assert(self.groups() =~= g0.push((channel, seq![item])));
            assert forall|a: int, b: int| 0 <= a < b < self.groups().len() implies self.groups()[a].0
                != self.groups()[b].0 by {
                if b == g0.len() {
                    assert(self.groups()[a].0 == g0[a].0);
                }
            }
        }
    }

    /// Ends the round: the queued requests as messages, each group's requests in pieces of at
    /// most `CONFIRM_REQ_HASHES_MAX` to its channel (see `messages_of`).
    pub fn flush(&mut self) -> (r: Vec<(ChannelId, Vec<(BlockHash, Root)>)>)
        ensures
            r@.map_values(|m: (ChannelId, Vec<(BlockHash, Root)>)| (m.0, m.1@)) == messages_of(old(self).groups()),
            !final(self).is_prepared(),
            final(self).groups() == old(self).groups(),
            final(self).request_reps() == old(self).request_reps(),
            final(self).broadcast_reps() == old(self).broadcast_reps(),
            final(self).rebroadcasted() == old(self).rebroadcasted(),
            final(self).wf() == old(self).wf(),
    {
        let ghost groups = self.groups();
        let mut out: Vec<(ChannelId, Vec<(BlockHash, Root)>)> = Vec::new();
        let mut g: usize = 0;
        assert(groups.take(0) =~= Seq::<(ChannelId, Seq<(BlockHash, Root)>)>::empty());
        assert(out@.map_values(|m: (ChannelId, Vec<(BlockHash, Root)>)| (m.0, m.1@)) =~= Seq::<(ChannelId, Seq<(BlockHash, Root)>)>::empty());
        while g < self.requests.len()
            invariant
                g <= self.requests@.len(),
                groups == self.groups(),
                out@.map_values(|m: (ChannelId, Vec<(BlockHash, Root)>)| (m.0, m.1@)) == messages_of(groups.take(g as int)),
            decreases self.requests@.len() - g,
        {
            let channel = self.requests[g].0;
            let items = &self.requests[g].1;
            let ghost f = |c: Seq<(BlockHash, Root)>| (channel, c);
            let ghost before = out@.map_values(|m: (ChannelId, Vec<(BlockHash, Root)>)| (m.0, m.1@));
            assert(items@.skip(0) =~= items@);
            assert(groups[g as int] == (channel, items@));
            let mut start: usize = 0;
            while start < items.len()
                invariant
                    start <= items@.len(),
                    out@.map_values(|m: (ChannelId, Vec<(BlockHash, Root)>)| (m.0, m.1@)) + chunks(
                        items@.skip(start as int),
                        CONFIRM_REQ_HASHES_MAX as nat,
                    ).map_values(f) == before + chunks(items@, CONFIRM_REQ_HASHES_MAX as nat).map_values(f),
                    f == (|c: Seq<(BlockHash, Root)>| (channel, c)),
                decreases items@.len() - start,
            {
                let end = if items.len() - start > CONFIRM_REQ_HASHES_MAX {
                    start + CONFIRM_REQ_HASHES_MAX
                } else {
                    items.len()
                };
                let mut piece: Vec<(BlockHash, Root)> = Vec::new();
                let mut k: usize = start;
                while k < end
                    invariant
                        start <= k <= end <= items@.len(),
                        piece@ == items@.subrange(start as int, k as int),
                    decreases end - k,
                {
                    piece.push(items[k]);
                    assert(items@.subrange(start as int, k + 1) =~= items@.subrange(start as int, k as int).push(
                        items@[k as int],
                    ));
                    k = k + 1;
                }
                let ghost rest = items@.skip(start as int);
                let ghost view0 = out@.map_values(|m: (ChannelId, Vec<(BlockHash, Root)>)| (m.0, m.1@));
                proof {
                    lemma_chunks_step(rest, CONFIRM_REQ_HASHES_MAX as nat);
                    assert(piece@ =~= rest.take((end - start) as int));
                    assert(rest.skip((end - start) as int) =~= items@.skip(end as int));
                    let tail = chunks(items@.skip(end as int), CONFIRM_REQ_HASHES_MAX as nat);
                    assert((seq![piece@] + tail).map_values(f) =~= seq![f(piece@)] + tail.map_values(f));
                }
                out.push((channel, piece));
                proof {
                    let tail = chunks(items@.skip(end as int), CONFIRM_REQ_HASHES_MAX as nat);
                    assert(out@.map_values(|m: (ChannelId, Vec<(BlockHash, Root)>)| (m.0, m.1@)) =~= view0.push(
                        (channel, piece@),
                    ));
                    assert(view0.push((channel, piece@)) + tail.map_values(f) =~= view0 + (seq![f(piece@)]
                        + tail.map_values(f)));
                }
                start = end;
            }
            proof {
                assert(items@.skip(items@.len() as int) =~= Seq::<(BlockHash, Root)>::empty());
                let t1 = groups.take(g + 1);
                assert(t1.drop_last() =~= groups.take(g as int));
                assert(t1.last() == (channel, items@));
                assert(out@.map_values(|m: (ChannelId, Vec<(BlockHash, Root)>)| (m.0, m.1@)) =~= before + chunks(
                    items@,
                    CONFIRM_REQ_HASHES_MAX as nat,
                ).map_values(f));
            }
            g = g + 1;
        }
        assert(groups.take(groups.len() as int) =~= groups);
        self.prepared = false;
        out
    }
}

/// The first piece of a non-empty sequence, and the pieces of what follows it.
proof fn lemma_chunks_step<T>(s: Seq<T>, n: nat)
    requires
        s.len() > 0,
        n > 0,
    ensures
        chunks(s, n) == seq![s.take(if s.len() <= n { s.len() as int } else { n as int })] + chunks(
            s.skip(if s.len() <= n { s.len() as int } else { n as int }),
            n,
        ),
{
    if s.len() <= n {
        assert(s.take(s.len() as int) =~= s);
        assert(s.skip(s.len() as int) =~= Seq::<T>::empty());
        assert(chunks(Seq::<T>::empty(), n) == Seq::<Seq<T>>::empty());
        assert(seq![s] + Seq::<Seq<T>>::empty() =~= seq![s]);
    }
}

/// Sending a list in pieces loses nothing, repeats nothing and keeps the order: the pieces put
/// together are the list, and each piece holds at least one and at most `n` items.
pub proof fn lemma_chunks_cover<T>(s: Seq<T>, n: nat)
    requires
        n > 0,
    ensures
        chunks(s, n).flatten() == s,
        forall|i: int| 0 <= i < chunks(s, n).len() ==> 0 < #[trigger] chunks(s, n)[i].len() <= n,
    decreases s.len(),
{
    if s.len() == 0 {
        assert(chunks(s, n).flatten() =~= s);
    } else if s.len() <= n {
        let c = chunks(s, n);
        assert(c == seq![s]);
        assert(c.drop_first() =~= Seq::<Seq<T>>::empty());
        assert(c.flatten() == c.first() + c.drop_first().flatten());
        assert(c.flatten() =~= s);
    } else {
        let rest = chunks(s.skip(n as int), n);
        lemma_chunks_cover(s.skip(n as int), n);
        let c = chunks(s, n);
        assert(c == seq![s.take(n as int)] + rest);
        assert(c.drop_first() =~= rest);
        assert(c.flatten() == c.first() + c.drop_first().flatten());
        assert(c.flatten() =~= s.take(n as int) + s.skip(n as int));
        assert(s.take(n as int) + s.skip(n as int) =~= s);
        assert forall|i: int| 0 <= i < c.len() implies 0 < #[trigger] c[i].len() <= n by {
            if i > 0 {
                assert(c[i] == rest[i - 1]);
            }
        }
    }
}

/// Whether an account occurs in the list.
fn contains_account(accounts: &Vec<Account>, account: &Account) -> (r: bool)
    ensures
        r == accounts@.contains(*account),
{
    let mut i: usize = 0;
    while i < accounts.len()
        invariant
            i <= accounts@.len(),
            forall|k: int| 0 <= k < i ==> accounts@[k] != *account,
        decreases accounts@.len() - i,
    {
        if accounts[i] == *account {
            assert(accounts@[i as int] == *account);
            return true;
        }
        i = i + 1;
    }
    false
}

/// The directed broadcast after looking at the first `n` broadcast representatives: how many
/// that had not voted were taken, and the channels taken.
pub open spec fn broadcast_walk(
    reps: Seq<PeeredRep>,
    votes: Seq<(Account, LastVote)>,
    winner: BlockHash,
    n: nat,
) -> (nat, Seq<ChannelId>)
    decreases n,
{
    if n == 0 {
        (0, Seq::empty())
    } else {
        let prev = broadcast_walk(reps, votes, winner, (n - 1) as nat);
        let rep = reps[n - 1];
        match vote_of(votes, rep.account) {
            Some(v) => if v.hash != winner {
                (prev.0, prev.1.push(rep.channel_id))
            } else {
                prev
            },
            None => (prev.0 + 1, prev.1.push(rep.channel_id)),
        }
    }
}

} // verus!
