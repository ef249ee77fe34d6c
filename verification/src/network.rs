//! Channel identifiers, traffic classes and the null receivers of the network layer.
use std::sync::Arc;
use vstd::prelude::*;

verus! {

/// Identifies a channel to a peer; 0 is the node itself.
#[derive(PartialEq, Eq, Structural, PartialOrd, Ord, Copy, Clone, Hash, Debug)]
pub struct ChannelId(pub usize);

impl ChannelId {
    /// The node's own channel.
    pub fn loopback() -> (r: ChannelId)
        ensures
            r.id() == 0,
    {
        ChannelId(0)
    }

    /// The smallest identifier.
    pub fn min_id() -> (r: ChannelId)
        ensures
            r.id() == 0,
    {
        ChannelId(0)
    }

    /// The largest identifier.
    pub fn max_id() -> (r: ChannelId)
        ensures
            r.id() == usize::MAX,
    {
        ChannelId(usize::MAX)
    }

    /// The number behind the identifier.
    pub open spec fn id(self) -> usize {
        self.0
    }

    pub fn as_usize(&self) -> (r: usize)
        ensures
            r == self.id(),
    {
        self.0
    }

    pub fn from_usize(value: usize) -> (r: ChannelId)
        ensures
            r.id() == value,
    {
        ChannelId(value)
    }
}

impl From<usize> for ChannelId {
    fn from(value: usize) -> (r: ChannelId)
        ensures
            r.id() == value,
    {
        ChannelId(value)
    }
}

impl vstd::std_specs::convert::FromSpecImpl<usize> for ChannelId {
    open spec fn obeys_from_spec() -> bool {
        true
    }

    open spec fn from_spec(v: usize) -> ChannelId {
        ChannelId(v)
    }
}

#[derive(PartialEq, Eq, Structural, Clone, Copy, Debug)]
pub enum ChannelDirection {
    /// Socket was created by accepting an incoming connection
    Inbound,
    /// Socket was created by initiating an outgoing connection
    Outbound,
}

/// What a message sent over a channel is for.
#[derive(PartialEq, Eq, Structural, Clone, Copy, Debug, PartialOrd, Ord)]
pub enum TrafficType {
    Generic,
    /// Ascending bootstrap (asc_pull_ack, asc_pull_req) traffic
    BootstrapServer,
    BootstrapRequests,
    BlockBroadcast,
    BlockBroadcastInitial,
    BlockBroadcastRpc,
    ConfirmationRequests,
    Keepalive,
    Vote,
    VoteRebroadcast,
    RepCrawler,
}

#[derive(PartialEq, Eq, Structural, Clone, Copy, Debug)]
pub enum ChannelMode {
    /// No messages have been exchanged yet, so the mode is undefined
    Undefined,
    /// serve realtime traffic (votes, new blocks,...)
    Realtime,
}

impl ChannelMode {
    pub fn as_str(&self) -> (r: &'static str)
        ensures
            *self == ChannelMode::Undefined ==> r@ == "undefined"@,
            *self == ChannelMode::Realtime ==> r@ == "realtime"@,
    {
        match self {
            ChannelMode::Undefined => "undefined",
            ChannelMode::Realtime => "realtime",
        }
    }
}

/// Policy to affect at which stage a buffer can be dropped
#[derive(PartialEq, Eq, Structural, Clone, Copy, Debug)]
pub enum DropPolicy {
    /// Can be dropped by bandwidth limiter (default)
    CanDrop,
    /// Should not be dropped by bandwidth limiter,
    /// but it can still be dropped if the write queue is full
    ShouldNotDrop,
}

/// What a data receiver wants after it received data.
#[derive(PartialEq, Eq, Structural, Clone, Copy, Debug)]
pub enum ReceiveResult {
    Continue,
    Abort,
    Pause,
}

/// Takes the bytes read from a channel.
pub trait DataReceiver {
    fn receive(&mut self, data: &[u8]) -> ReceiveResult;

    /// after receive returns Pause this has to be called until it returns true
    fn try_unpause(&self) -> ReceiveResult;
}

/// Makes receivers that ignore what they receive.
pub struct NullDataReceiverFactory;

impl NullDataReceiverFactory {
    pub fn new() -> (r: NullDataReceiverFactory) {
        NullDataReceiverFactory
    }

    /// A receiver that ignores what it receives.
    pub fn create_receiver(&self) -> (r: NullDataReceiver) {
        NullDataReceiver::new()
    }
}

/// A receiver that ignores what it receives and never pauses.
pub struct NullDataReceiver;

impl NullDataReceiver {
    pub fn new() -> (r: NullDataReceiver) {
        NullDataReceiver
    }
}

impl DataReceiver for NullDataReceiver {
    fn receive(&mut self, data: &[u8]) -> (r: ReceiveResult)
        ensures
            r == ReceiveResult::Continue,
    {
        ReceiveResult::Continue
    }

    fn try_unpause(&self) -> (r: ReceiveResult)
        ensures
            r == ReceiveResult::Continue,
    {
        ReceiveResult::Continue
    }
}

/// Launches no response servers.
pub struct NullResponseServerSpawner {}

impl NullResponseServerSpawner {
    pub fn new() -> (r: NullResponseServerSpawner) {
        NullResponseServerSpawner {  }
    }
}

/// A buffer waiting in a channel's write queue.
pub struct Entry {
    pub buffer: Arc<Vec<u8>>,
}

} // verus!
