//! What a node does with the messages that arrive on a channel: the node ID handshake that
//! turns a new channel into a realtime one, and which realtime messages are queued for
//! processing.
use crate::channel::{Channel, ChannelView};
use crate::messages::MessageType;
use crate::network::ChannelMode;
use crate::primitives::{BlockHash, Duration, PublicKey, Timestamp};
use vstd::prelude::*;

verus! {

/// Where a handshake stands after a handshake message.
#[derive(PartialEq, Eq, Structural, Clone, Copy, Debug)]
pub enum HandshakeStatus {
    Abort,
    /// The peer is this node itself.
    AbortOwnNodeId,
    /// The handshake goes on.
    Handshake,
    /// The peer proved its node ID: the channel can become a realtime one.
    Realtime(PublicKey),
    Bootstrap,
}

/// Why a handshake response is refused.
#[derive(PartialEq, Eq, Structural, Clone, Copy, Debug)]
pub enum HandshakeResponseError {
    /// The node tried to connect to itself.
    OwnNodeId,
    InvalidGenesis,
    MissingCookie,
    InvalidSignature,
}

/// What checking a response's signature against the cookie sent to the peer gave.
#[derive(PartialEq, Eq, Structural, Clone, Copy, Debug)]
pub enum CookieCheck {
    /// No cookie was sent to the peer's address.
    NoCookie,
    /// The signature does not sign the cookie.
    BadSignature,
    /// The signature signs the cookie.
    Valid,
}

/// The part of a handshake response that the node checks itself.
#[derive(PartialEq, Eq, Structural, Clone, Copy, Debug)]
pub struct HandshakeResponse {
    pub node_id: PublicKey,
    /// The genesis block of the peer's ledger, in version 2 responses.
    pub genesis: Option<BlockHash>,
}

/// A node ID handshake message: whether it holds a query, and its response, if any.
#[derive(PartialEq, Eq, Structural, Clone, Copy, Debug)]
pub struct NodeIdHandshake {
    pub has_query: bool,
    pub response: Option<HandshakeResponse>,
}

/// Whether a response is accepted: it is not from this node, names the same genesis block if
/// it names one, and signs the cookie that was sent to the peer.
pub open spec fn response_check(
    own_node_id: PublicKey,
    genesis_hash: BlockHash,
    response: HandshakeResponse,
    cookie: CookieCheck,
) -> Result<(), HandshakeResponseError> {
    if response.node_id == own_node_id {
        Err(HandshakeResponseError::OwnNodeId)
    } else if response.genesis.is_some() && response.genesis.unwrap() != genesis_hash {
        Err(HandshakeResponseError::InvalidGenesis)
    } else if cookie == CookieCheck::NoCookie {
        Err(HandshakeResponseError::MissingCookie)
    } else if cookie == CookieCheck::BadSignature {
        Err(HandshakeResponseError::InvalidSignature)
    } else {
        Ok(())
    }
}

/// The outcome of a handshake message, given whether a query was received before, whether the
/// response to a query in it could be sent, and the cookie check of a response in it: a
/// message without query and response, a second query, or a response that could not be sent
/// abort; an accepted response makes the channel realtime; a response from this node itself
/// aborts as such; any other refused response aborts; otherwise the handshake goes on.
pub open spec fn handshake_outcome(
    own_node_id: PublicKey,
    genesis_hash: BlockHash,
    received_before: bool,
    message: NodeIdHandshake,
    response_sent: bool,
    cookie: CookieCheck,
) -> HandshakeStatus {
    if !message.has_query && message.response.is_none() {
        HandshakeStatus::Abort
    } else if message.has_query && received_before {
        HandshakeStatus::Abort
    } else if message.has_query && !response_sent {
        HandshakeStatus::Abort
    } else {
        match message.response {
            Some(r) => match response_check(own_node_id, genesis_hash, r, cookie) {
                Ok(()) => HandshakeStatus::Realtime(r.node_id),
                Err(HandshakeResponseError::OwnNodeId) => HandshakeStatus::AbortOwnNodeId,
                Err(_) => HandshakeStatus::Abort,
            },
            None => HandshakeStatus::Handshake,
        }
    }
}

/// The handshake of one channel.
pub struct HandshakeProcess {
    genesis_hash: BlockHash,
    node_id: PublicKey,
    handshake_received: bool,
}

impl HandshakeProcess {
    pub closed spec fn genesis_hash(&self) -> BlockHash {
        self.genesis_hash
    }

    /// The public key of this node's ID.
    pub closed spec fn node_id(&self) -> PublicKey {
        self.node_id
    }

    /// Whether a handshake message was accepted on the channel.
    pub closed spec fn received(&self) -> bool {
        self.handshake_received
    }

    pub fn new(genesis_hash: BlockHash, node_id: PublicKey) -> (r: HandshakeProcess)
        ensures
            r.genesis_hash() == genesis_hash,
            r.node_id() == node_id,
            !r.received(),
    {
        HandshakeProcess { genesis_hash, node_id, handshake_received: false }
    }

    /// Checks a handshake response (see `response_check`); `cookie` is what checking its
    /// signature against the cookie sent to the peer gave.
    pub fn verify_response(&self, response: &HandshakeResponse, cookie: CookieCheck) -> (r: Result<
        (),
        HandshakeResponseError,
    >)
        ensures
            r == response_check(self.node_id(), self.genesis_hash(), *response, cookie),
    {
        if response.node_id == self.node_id {
            return Err(HandshakeResponseError::OwnNodeId);
        }
        match response.genesis {
            Some(genesis) => {
                if genesis != self.genesis_hash {
                    return Err(HandshakeResponseError::InvalidGenesis);
                }
            },
            None => {},
        }
        match cookie {
            CookieCheck::NoCookie => Err(HandshakeResponseError::MissingCookie),
            CookieCheck::BadSignature => Err(HandshakeResponseError::InvalidSignature),
            CookieCheck::Valid => Ok(()),
        }
    }

    /// Processes a handshake message (see `handshake_outcome`). `response_sent` tells whether
    /// the response to its query could be sent (it is read only when the message has a
    /// query), `cookie` what checking its response gave (read only when it has one). Once a
    /// message passes the first two checks, the handshake counts as received.
    pub fn process_handshake(
        &mut self,
        message: &NodeIdHandshake,
        response_sent: bool,
        cookie: CookieCheck,
    ) -> (r: HandshakeStatus)
        ensures
            r == handshake_outcome(
                old(self).node_id(),
                old(self).genesis_hash(),
                old(self).received(),
                *message,
                response_sent,
                cookie,
            ),
            final(self).node_id() == old(self).node_id(),
            final(self).genesis_hash() == old(self).genesis_hash(),
            final(self).received() == (old(self).received() || (
                (message.has_query || message.response.is_some())
                && !(message.has_query && old(self).received()))),
    {
        if !message.has_query && message.response.is_none() {
            return HandshakeStatus::Abort;
        }
        if message.has_query && self.handshake_received {
            // a second handshake message should be a response only
            return HandshakeStatus::Abort;
        }
        self.handshake_received = true;
        if message.has_query && !response_sent {
            return HandshakeStatus::Abort;
        }
        match &message.response {
            Some(response) => match self.verify_response(response, cookie) {
                Ok(()) => HandshakeStatus::Realtime(response.node_id),
                Err(HandshakeResponseError::OwnNodeId) => HandshakeStatus::AbortOwnNodeId,
                Err(_) => HandshakeStatus::Abort,
            },
            None => HandshakeStatus::Handshake,
        }
    }
}

/// Whether to go on reading from a channel or to close it.
#[derive(PartialEq, Eq, Structural, Clone, Copy, Debug)]
pub enum ProcessResult {
    Abort,
    Progress,
}

/// What to do with a message that arrived on a channel.
#[derive(PartialEq, Eq, Structural, Clone, Copy, Debug)]
pub enum MessageStep {
    /// Close the channel.
    Abort,
    /// Process the handshake message (see `HandshakeProcess::process_handshake`).
    Handshake,
    /// Queue the message for processing.
    Queue,
    /// Record the keepalive as the channel's latest one, and queue it.
    QueueKeepalive,
    /// Ignore the message.
    Ignore,
}

/// What to do after a handshake message.
#[derive(PartialEq, Eq, Structural, Clone, Copy, Debug)]
pub enum HandshakeNext {
    /// Close the channel; when `ban` is set, ban the peer's peering address for good.
    Abort { ban: bool },
    /// Wait for the next handshake message.
    Continue,
    /// Make the channel a realtime one for this node ID and queue the message.
    Upgrade(PublicKey),
}

/// The realtime messages that are processed: keepalives (which are recorded), publishes,
/// bootstrap requests and replies, votes and vote requests, frontier requests and telemetry;
/// telemetry requests only outside the cooldown.
pub open spec fn realtime_step(message_type: MessageType, outside_cooldown: bool) -> MessageStep {
    match message_type {
        MessageType::Keepalive => MessageStep::QueueKeepalive,
        MessageType::Publish | MessageType::AscPullAck | MessageType::AscPullReq
        | MessageType::ConfirmAck | MessageType::ConfirmReq | MessageType::FrontierReq
        | MessageType::TelemetryAck => MessageStep::Queue,
        MessageType::TelemetryReq => if outside_cooldown {
            MessageStep::Queue
        } else {
            MessageStep::Ignore
        },
        _ => MessageStep::Ignore,
    }
}

/// A channel whose mode is not set yet accepts only a handshake: legacy bootstrap requests
/// and anything else close it.
pub open spec fn undefined_step(message_type: MessageType) -> MessageStep {
    if message_type == MessageType::NodeIdHandshake {
        MessageStep::Handshake
    } else {
        MessageStep::Abort
    }
}

/// Whether a telemetry request last answered at `last` may be answered again at `now`.
pub open spec fn outside_cooldown(last: Option<Timestamp>, now: Timestamp, cooldown: Duration) -> bool {
    match last {
        Some(t) => now.millis >= t.millis && now.millis - t.millis >= cooldown.millis,
        None => true,
    }
}

/// The part of a channel's receiver that decides: when telemetry was last requested, and
/// whether the next message is the first one.
pub struct NanoDataReceiver {
    last_telemetry_req: Option<Timestamp>,
    telemetry_request_cooldown: Duration,
    first_message: bool,
}

impl NanoDataReceiver {
    pub closed spec fn last_telemetry_req(&self) -> Option<Timestamp> {
        self.last_telemetry_req
    }

    pub closed spec fn cooldown(&self) -> Duration {
        self.telemetry_request_cooldown
    }

    pub closed spec fn first_message(&self) -> bool {
        self.first_message
    }

    /// A receiver that answers telemetry requests at most once per `telemetry_request_cooldown`.
    pub fn new(telemetry_request_cooldown: Duration) -> (r: NanoDataReceiver)
        ensures
            r.last_telemetry_req() is None,
            r.cooldown() == telemetry_request_cooldown,
            r.first_message(),
    {
        NanoDataReceiver { last_telemetry_req: None, telemetry_request_cooldown, first_message: true }
    }

    /// Whether a telemetry request at `now` is outside the cooldown.
    pub fn is_outside_cooldown_period(&self, now: Timestamp) -> (r: bool)
        ensures
            r == outside_cooldown(self.last_telemetry_req(), now, self.cooldown()),
    {
        match self.last_telemetry_req {
            Some(t) => now.millis >= t.millis && (now.millis - t.millis) as u128 >= self.telemetry_request_cooldown.millis,
            None => true,
        }
    }

    /// A decoded message arrived at `now` on `channel`: the first one sets the channel's
    /// protocol version. Returns what to do with it: in undefined mode see `undefined_step`,
    /// in realtime mode see `realtime_step` (an accepted telemetry request starts a new
    /// cooldown).
    pub fn process_message(
        &mut self,
        channel: &mut Channel,
        message_type: MessageType,
        version_using: u8,
        now: Timestamp,
    ) -> (r: MessageStep)
        ensures
            final(self).cooldown() == old(self).cooldown(),
            !final(self).first_message(),
            final(channel)@ == if old(self).first_message() {
                ChannelView { protocol_version: version_using, ..old(channel)@ }
            } else {
                old(channel)@
            },
            old(channel)@.mode == ChannelMode::Undefined ==> r == undefined_step(message_type)
                && final(self).last_telemetry_req() == old(self).last_telemetry_req(),
            old(channel)@.mode == ChannelMode::Realtime ==> {
                let outside = outside_cooldown(old(self).last_telemetry_req(), now, old(self).cooldown());
                &&& r == realtime_step(message_type, outside)
                &&& final(self).last_telemetry_req() == if message_type == MessageType::TelemetryReq
                    && outside {
                    Some(now)
                } else {
                    old(self).last_telemetry_req()
                }
            },
    {
        if self.first_message {
            channel.set_protocol_version(version_using);
            self.first_message = false;
        }
        match channel.mode() {
            ChannelMode::Undefined => {
                if message_type == MessageType::NodeIdHandshake {
                    MessageStep::Handshake
                } else {
                    MessageStep::Abort
                }
            },
            ChannelMode::Realtime => match message_type {
                MessageType::Keepalive => MessageStep::QueueKeepalive,
                MessageType::Publish | MessageType::AscPullAck | MessageType::AscPullReq
                | MessageType::ConfirmAck | MessageType::ConfirmReq | MessageType::FrontierReq
                | MessageType::TelemetryAck => MessageStep::Queue,
                MessageType::TelemetryReq => {
                    if self.is_outside_cooldown_period(now) {
                        self.last_telemetry_req = Some(now);
                        MessageStep::Queue
                    } else {
                        MessageStep::Ignore
                    }
                },
                _ => MessageStep::Ignore,
            },
        }
    }

    /// What follows a handshake message's outcome: aborts close the channel (and a peer that is
    /// this node itself is banned), a realtime outcome upgrades the channel.
    pub fn after_handshake(&self, status: HandshakeStatus) -> (r: HandshakeNext)
        ensures
            r == match status {
                HandshakeStatus::Abort => HandshakeNext::Abort { ban: false },
                HandshakeStatus::AbortOwnNodeId => HandshakeNext::Abort { ban: true },
                HandshakeStatus::Handshake => HandshakeNext::Continue,
                HandshakeStatus::Realtime(id) => HandshakeNext::Upgrade(id),
                HandshakeStatus::Bootstrap => HandshakeNext::Abort { ban: false },
            },
    {
        match status {
            HandshakeStatus::Abort => HandshakeNext::Abort { ban: false },
            HandshakeStatus::AbortOwnNodeId => HandshakeNext::Abort { ban: true },
            HandshakeStatus::Handshake => HandshakeNext::Continue,
            HandshakeStatus::Realtime(id) => HandshakeNext::Upgrade(id),
            HandshakeStatus::Bootstrap => HandshakeNext::Abort { ban: false },
        }
    }
}

} // verus!
