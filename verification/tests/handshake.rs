use rsnano::channel::Channel;
use rsnano::data_receiver::{
    CookieCheck, HandshakeNext, HandshakeProcess, HandshakeResponse, HandshakeResponseError,
    HandshakeStatus, MessageStep, NanoDataReceiver, NodeIdHandshake,
};
use rsnano::messages::{MessageType, Peer};
use rsnano::network::{ChannelDirection, ChannelId, ChannelMode};
use rsnano::primitives::{Account, BlockHash, Duration, Timestamp};

fn own_id() -> Account {
    Account::from_u64(1)
}

fn genesis() -> BlockHash {
    BlockHash::from_u64(100)
}

fn response_from(id: u64) -> HandshakeResponse {
    HandshakeResponse { node_id: Account::from_u64(id), genesis: Some(genesis()) }
}

fn channel() -> Channel {
    let peer = Peer { address: [0; 16], port: 7075 };
    Channel::new(
        ChannelId::from_usize(3),
        peer,
        peer,
        ChannelDirection::Inbound,
        18,
        Timestamp::new(0),
    )
}

#[test]
fn valid_response_switches_to_realtime() {
    let mut handshake = HandshakeProcess::new(genesis(), own_id());
    let message = NodeIdHandshake { has_query: true, response: Some(response_from(2)) };
    assert_eq!(
        handshake.process_handshake(&message, true, CookieCheck::Valid),
        HandshakeStatus::Realtime(Account::from_u64(2))
    );
}

#[test]
fn query_only_continues_the_handshake() {
    let mut handshake = HandshakeProcess::new(genesis(), own_id());
    let query = NodeIdHandshake { has_query: true, response: None };
    assert_eq!(
        handshake.process_handshake(&query, true, CookieCheck::NoCookie),
        HandshakeStatus::Handshake
    );
    // a second query is refused, a response is taken
    assert_eq!(
        handshake.process_handshake(&query, true, CookieCheck::NoCookie),
        HandshakeStatus::Abort
    );
    let response = NodeIdHandshake { has_query: false, response: Some(response_from(2)) };
    assert_eq!(
        handshake.process_handshake(&response, false, CookieCheck::Valid),
        HandshakeStatus::Realtime(Account::from_u64(2))
    );
}

#[test]
fn invalid_handshakes_abort() {
    let mut handshake = HandshakeProcess::new(genesis(), own_id());
    let empty = NodeIdHandshake { has_query: false, response: None };
    assert_eq!(handshake.process_handshake(&empty, true, CookieCheck::Valid), HandshakeStatus::Abort);

    let mut handshake = HandshakeProcess::new(genesis(), own_id());
    let query = NodeIdHandshake { has_query: true, response: None };
    assert_eq!(handshake.process_handshake(&query, false, CookieCheck::Valid), HandshakeStatus::Abort);

    let mut handshake = HandshakeProcess::new(genesis(), own_id());
    let own = NodeIdHandshake { has_query: false, response: Some(response_from(1)) };
    assert_eq!(
        handshake.process_handshake(&own, true, CookieCheck::Valid),
        HandshakeStatus::AbortOwnNodeId
    );
}

#[test]
fn response_checks() {
    let handshake = HandshakeProcess::new(genesis(), own_id());
    assert_eq!(handshake.verify_response(&response_from(2), CookieCheck::Valid), Ok(()));
    assert_eq!(
        handshake.verify_response(&response_from(1), CookieCheck::Valid),
        Err(HandshakeResponseError::OwnNodeId)
    );
    let other_genesis = HandshakeResponse {
        node_id: Account::from_u64(2),
        genesis: Some(BlockHash::from_u64(5)),
    };
    assert_eq!(
        handshake.verify_response(&other_genesis, CookieCheck::Valid),
        Err(HandshakeResponseError::InvalidGenesis)
    );
    let v1 = HandshakeResponse { node_id: Account::from_u64(2), genesis: None };
    assert_eq!(handshake.verify_response(&v1, CookieCheck::Valid), Ok(()));
    assert_eq!(
        handshake.verify_response(&v1, CookieCheck::NoCookie),
        Err(HandshakeResponseError::MissingCookie)
    );
    assert_eq!(
        handshake.verify_response(&v1, CookieCheck::BadSignature),
        Err(HandshakeResponseError::InvalidSignature)
    );
}

#[test]
fn new_channels_accept_only_handshakes() {
    let mut receiver = NanoDataReceiver::new(Duration::from_secs(5));
    let mut channel = channel();
    assert_eq!(
        receiver.process_message(&mut channel, MessageType::NodeIdHandshake, 20, Timestamp::new(0)),
        MessageStep::Handshake
    );
    assert_eq!(channel.protocol_version(), 20);
    assert_eq!(
        receiver.process_message(&mut channel, MessageType::BulkPull, 21, Timestamp::new(0)),
        MessageStep::Abort
    );
    // only the first message sets the protocol version
    assert_eq!(channel.protocol_version(), 20);
    assert_eq!(
        receiver.process_message(&mut channel, MessageType::Publish, 21, Timestamp::new(0)),
        MessageStep::Abort
    );
}

#[test]
fn realtime_channels_queue_messages_and_limit_telemetry_requests() {
    let mut receiver = NanoDataReceiver::new(Duration::from_secs(5));
    let mut channel = channel();
    channel.set_mode(ChannelMode::Realtime);
    let now = Timestamp::new(10_000);
    assert_eq!(
        receiver.process_message(&mut channel, MessageType::Keepalive, 20, now),
        MessageStep::QueueKeepalive
    );
    assert_eq!(
        receiver.process_message(&mut channel, MessageType::ConfirmAck, 20, now),
        MessageStep::Queue
    );
    assert_eq!(
        receiver.process_message(&mut channel, MessageType::BulkPull, 20, now),
        MessageStep::Ignore
    );
    assert_eq!(
        receiver.process_message(&mut channel, MessageType::TelemetryReq, 20, now),
        MessageStep::Queue
    );
    assert_eq!(
        receiver.process_message(&mut channel, MessageType::TelemetryReq, 20, Timestamp::new(14_999)),
        MessageStep::Ignore
    );
    assert_eq!(
        receiver.process_message(&mut channel, MessageType::TelemetryReq, 20, Timestamp::new(15_000)),
        MessageStep::Queue
    );
}

#[test]
fn handshake_outcomes_lead_on() {
    let receiver = NanoDataReceiver::new(Duration::from_secs(5));
    assert_eq!(receiver.after_handshake(HandshakeStatus::Abort), HandshakeNext::Abort { ban: false });
    assert_eq!(
        receiver.after_handshake(HandshakeStatus::AbortOwnNodeId),
        HandshakeNext::Abort { ban: true }
    );
    assert_eq!(receiver.after_handshake(HandshakeStatus::Handshake), HandshakeNext::Continue);
    assert_eq!(
        receiver.after_handshake(HandshakeStatus::Realtime(Account::from_u64(2))),
        HandshakeNext::Upgrade(Account::from_u64(2))
    );
    assert_eq!(
        receiver.after_handshake(HandshakeStatus::Bootstrap),
        HandshakeNext::Abort { ban: false }
    );
}
