//! Keepalive messages: a node passes on some of its peers and tells where it can be reached.
use crate::messages::{Keepalive, Message, Peer};
use crate::network::ChannelId;
use crate::primitives::Duration;
use vstd::prelude::*;

verus! {

/// Whether an address is the unspecified one (all zero).
pub open spec fn is_unspecified(p: Peer) -> bool {
    forall|i: int| 0 <= i < 16 ==> #[trigger] p.address@[i] == 0
}

/// Whether the external address is set: a specified address and a port.
pub open spec fn external_set(external_addr: Peer) -> bool {
    !is_unspecified(external_addr) && external_addr.port != 0
}

/// The peers of a node's own keepalive: place zero tells where the node can be reached (its
/// external address when that is set, else the listening port on the unspecified address),
/// place one is unspecified, the first two sampled peers move to places two and three so
/// that they still propagate, and the other sampled peers keep their places.
pub open spec fn own_keepalive_peers(
    peers: Seq<Peer>,
    sampled: Seq<Peer>,
    external_addr: Peer,
    listening_port: u16,
) -> bool {
    &&& peers.len() == 8
    &&& if external_set(external_addr) {
        peers[0] == external_addr
    } else {
        is_unspecified(peers[0]) && peers[0].port == listening_port
    }
    &&& is_unspecified(peers[1]) && peers[1].port == 0
    &&& peers[2] == sampled[0]
    &&& peers[3] == sampled[1]
    &&& forall|i: int| 4 <= i < 8 ==> #[trigger] peers[i] == sampled[i]
}

/// Builds keepalives from peers that the network samples.
pub struct KeepaliveMessageFactory {
    pub external_addr: Peer,
}

impl KeepaliveMessageFactory {
    pub fn new(external_addr: Peer) -> (r: KeepaliveMessageFactory)
        ensures
            r.external_addr == external_addr,
    {
        KeepaliveMessageFactory { external_addr }
    }

    /// The node's own keepalive, from eight sampled realtime peers and the port the node
    /// listens on (see `own_keepalive_peers`).
    pub fn create_keepalive_self(&self, sampled: [Peer; 8], listening_port: u16) -> (r: Message)
        ensures
            r matches Message::Keepalive(k) && own_keepalive_peers(
                k.peers@,
                sampled@,
                self.external_addr,
                listening_port,
            ),
    {
        let mut peers = sampled;
        peers[2] = sampled[0];
        peers[3] = sampled[1];
        peers[1] = Peer { address: [0u8; 16], port: 0 };
        let mut unspecified = true;
        let mut i: usize = 0;
        while i < 16
            invariant
                i <= 16,
                unspecified == forall|k: int| 0 <= k < i ==> #[trigger] self.external_addr.address@[k] == 0,
            decreases 16 - i,
        {
            if self.external_addr.address[i] != 0 {
                unspecified = false;
            }
            i = i + 1;
        }
        if !unspecified && self.external_addr.port != 0 {
            peers[0] = self.external_addr;
        } else {
            peers[0] = Peer { address: [0u8; 16], port: listening_port };
        }
        assert(is_unspecified(peers@[1]));
        assert(!external_set(self.external_addr) ==> is_unspecified(peers@[0]));
        Message::Keepalive(Keepalive { peers })
    }

    /// A keepalive that passes on eight sampled realtime peers.
    pub fn create_keepalive(&self, sampled: [Peer; 8]) -> (r: Message)
        ensures
            r matches Message::Keepalive(k) && k.peers@ == sampled@,
    {
        Message::Keepalive(Keepalive { peers: sampled })
    }
}

/// What keeping a configured peer alive takes.
#[derive(PartialEq, Eq, Structural, Clone, Copy, Debug)]
pub enum KeepaliveAction {
    /// Send a keepalive over the realtime channel to the peer.
    SendKeepalive(ChannelId),
    /// There is no such channel: connect to the peer.
    Connect,
}

/// Sends a keepalive when a realtime channel to the peer's address exists, else connects.
pub fn keepalive_or_connect(existing: Option<ChannelId>) -> (r: KeepaliveAction)
    ensures
        r == match existing {
            Some(id) => KeepaliveAction::SendKeepalive(id),
            None => KeepaliveAction::Connect,
        },
{
    match existing {
        Some(id) => KeepaliveAction::SendKeepalive(id),
        None => KeepaliveAction::Connect,
    }
}

/// Whether a peer has a specified address.
pub open spec fn is_reachable(p: Peer) -> bool {
    !is_unspecified(p)
}

/// The peers of a keepalive that the node reaches out to: those with a specified address, in
/// order.
pub fn reachout_peers(keepalive: &Keepalive) -> (r: Vec<Peer>)
    ensures
        r@ == keepalive.peers@.filter(|p: Peer| is_reachable(p)),
{
    let mut out: Vec<Peer> = Vec::new();
    let mut i: usize = 0;
    while i < 8
        invariant
            i <= 8,
            keepalive.peers@.len() == 8,
            out@ == keepalive.peers@.take(i as int).filter(|p: Peer| is_reachable(p)),
        decreases 8 - i,
    {
        let p = keepalive.peers[i];
        let mut unspecified = true;
        let mut k: usize = 0;
        while k < 16
            invariant
                k <= 16,
                unspecified == forall|j: int| 0 <= j < k ==> #[trigger] p.address@[j] == 0,
            decreases 16 - k,
        {
            if p.address[k] != 0 {
                unspecified = false;
            }
            k = k + 1;
        }
        proof {
            reveal(Seq::filter);
            assert(keepalive.peers@.take(i + 1).drop_last() =~= keepalive.peers@.take(i as int));
            assert(keepalive.peers@.take(i + 1).last() == p);
        }
        if !unspecified {
            out.push(p);
        }
        i = i + 1;
    }
    assert(keepalive.peers@.take(8) =~= keepalive.peers@);
    out
}

/// How often dead channels are cleaned up: every second on the development network, every
/// five seconds elsewhere.
pub fn cleanup_interval(is_dev_network: bool) -> (r: Duration)
    ensures
        r.millis == if is_dev_network {
            1000u128
        } else {
            5000u128
        },
{
    if is_dev_network {
        Duration::from_secs(1)
    } else {
        Duration::from_secs(5)
    }
}

} // verus!
