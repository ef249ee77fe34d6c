use rsnano::message_deserializer::MessageDeserializerV2;
use rsnano::messages::{
    DeserializedMessage, Keepalive, Message, MessageHeader, MessageType, Networks,
    ParseMessageError, Peer, ProtocolInfo, MAX_MESSAGE_SIZE,
};

fn header_bytes(message_type: MessageType, extensions: u16) -> Vec<u8> {
    let mut header = MessageHeader::new(message_type, ProtocolInfo::default());
    header.extensions = extensions;
    header.serialize()
}

fn telemetry_req_bytes() -> Vec<u8> {
    header_bytes(MessageType::TelemetryReq, 0)
}

fn test_keepalive() -> Keepalive {
    let mut peers = [Peer {
        address: [0u8; 16],
        port: 0,
    }; 8];
    for (i, peer) in peers.iter_mut().enumerate() {
        peer.address[10] = 0xff;
        peer.address[11] = 0xff;
        peer.address[12] = 10;
        peer.address[15] = i as u8 + 1;
        peer.port = 7075 + i as u16;
    }
    Keepalive { peers }
}

fn keepalive_bytes(keepalive: &Keepalive) -> Vec<u8> {
    let mut bytes = header_bytes(MessageType::Keepalive, 0);
    for peer in &keepalive.peers {
        bytes.extend_from_slice(&peer.address);
        bytes.extend_from_slice(&peer.port.to_le_bytes());
    }
    bytes
}

#[test]
fn default() {
    let deserializer = MessageDeserializerV2::default();
    assert_eq!(deserializer.buffer_capacity(), MAX_MESSAGE_SIZE);
}

#[test]
fn message_deserializer_empty() {
    let mut deserializer = MessageDeserializerV2::new();
    assert!(deserializer.try_deserialize().is_none());
}

#[test]
fn deserialize_message_without_payload() {
    let mut deserializer = MessageDeserializerV2::new();
    deserializer.push(&telemetry_req_bytes());

    assert_eq!(
        deserializer.try_deserialize(),
        Some(Ok(DeserializedMessage::new(
            Message::TelemetryReq,
            Default::default()
        )))
    );
}

#[test]
fn deserialize_message_with_payload() {
    let mut deserializer = MessageDeserializerV2::new();
    let keepalive = test_keepalive();
    deserializer.push(&keepalive_bytes(&keepalive));

    assert_eq!(
        deserializer.try_deserialize(),
        Some(Ok(DeserializedMessage::new(
            Message::Keepalive(keepalive),
            Default::default()
        )))
    );
}

#[test]
fn deserialize_multiple_messages() {
    let mut deserializer = MessageDeserializerV2::new();
    let keepalive = test_keepalive();
    deserializer.push(&telemetry_req_bytes());
    deserializer.push(&keepalive_bytes(&keepalive));
    deserializer.push(&telemetry_req_bytes());

    assert_eq!(
        deserializer.try_deserialize(),
        Some(Ok(DeserializedMessage::new(
            Message::TelemetryReq,
            Default::default()
        )))
    );
    assert_eq!(
        deserializer.try_deserialize(),
        Some(Ok(DeserializedMessage::new(
            Message::Keepalive(keepalive),
            Default::default()
        )))
    );
    assert_eq!(
        deserializer.try_deserialize(),
        Some(Ok(DeserializedMessage::new(
            Message::TelemetryReq,
            Default::default()
        )))
    );
    assert_eq!(deserializer.try_deserialize(), None);
}

#[test]
fn push_incomplete_header() {
    let mut deserializer = MessageDeserializerV2::new();
    deserializer.push(&[1, 2]);
    assert!(deserializer.try_deserialize().is_none());
}

#[test]
fn invalid_header() {
    let mut deserializer = MessageDeserializerV2::new();
    deserializer.push(&[1, 2, 3, 4, 5, 6, 7, 8]);

    assert_eq!(
        deserializer.try_deserialize(),
        Some(Err(ParseMessageError::InvalidHeader))
    );
}

#[test]
fn incomplete_playload() {
    let mut deserializer = MessageDeserializerV2::new();
    let keepalive = test_keepalive();
    let data = keepalive_bytes(&keepalive);

    // push incomplete message
    deserializer.push(&data[..data.len() - 1]);
    assert_eq!(deserializer.try_deserialize(), None);

    // push missing byte
    deserializer.push(&data[data.len() - 1..]);
    assert_eq!(
        deserializer.try_deserialize(),
        Some(Ok(DeserializedMessage::new(
            Message::Keepalive(keepalive),
            Default::default()
        )))
    );
}

#[test]
fn invalid_message_type_in_header_is_reported() {
    let mut deserializer = MessageDeserializerV2::new();
    let mut bytes = telemetry_req_bytes();
    bytes[5] = 0x09;
    deserializer.push(&bytes);
    assert_eq!(
        deserializer.try_deserialize(),
        Some(Err(ParseMessageError::InvalidHeader))
    );
}

#[test]
fn invalid_message_type_yields_invalid_message() {
    let mut deserializer = MessageDeserializerV2::new();
    deserializer.push(&header_bytes(MessageType::NotAType, 0));
    assert_eq!(
        deserializer.try_deserialize(),
        Some(Err(ParseMessageError::InvalidMessage(MessageType::NotAType)))
    );
}

#[test]
fn undecoded_payload_is_passed_on() {
    let mut deserializer = MessageDeserializerV2::new();
    // a telemetry ack announcing a 3-byte payload
    let mut bytes = header_bytes(MessageType::TelemetryAck, 3);
    bytes.extend_from_slice(&[7, 8, 9]);
    bytes.push(42);
    deserializer.push(&bytes);
    assert_eq!(
        deserializer.try_deserialize(),
        Some(Ok(DeserializedMessage::new(
            Message::Undecoded(MessageType::TelemetryAck, vec![7, 8, 9]),
            Default::default()
        )))
    );
    assert_eq!(deserializer.try_deserialize(), None);
}

#[test]
fn header_roundtrip() {
    let mut header = MessageHeader::new(
        MessageType::ConfirmAck,
        ProtocolInfo {
            version_using: 20,
            version_max: 21,
            version_min: 18,
            network: Networks::NanoLiveNetwork,
        },
    );
    header.extensions = 0x1234;
    let bytes = header.serialize();
    assert_eq!(bytes, vec![b'R', b'C', 21, 20, 18, 0x05, 0x34, 0x12]);
    assert_eq!(MessageHeader::deserialize_slice(&bytes), Some(header));
}

#[test]
fn payload_lengths() {
    let protocol = ProtocolInfo::default();
    let mut header = MessageHeader::new(MessageType::Keepalive, protocol);
    assert_eq!(header.payload_length(), 144);
    header.message_type = MessageType::Publish;
    header.extensions = 6 << 8;
    assert_eq!(header.payload_length(), 216);
    header.message_type = MessageType::ConfirmAck;
    header.extensions = 3 << 12;
    assert_eq!(header.payload_length(), 104 + 3 * 32);
    header.message_type = MessageType::ConfirmReq;
    header.extensions = (1 << 12) | (2 << 4) | 1;
    assert_eq!(header.payload_length(), 18 * 64);
    header.message_type = MessageType::TelemetryReq;
    assert_eq!(header.payload_length(), 0);
}

#[test]
fn network_codes() {
    assert_eq!(Networks::from_u16(0x5241), Some(Networks::NanoDevNetwork));
    assert_eq!(Networks::from_u16(0x5243), Some(Networks::NanoLiveNetwork));
    assert_eq!(Networks::from_u16(0x0102), None);
    assert_eq!(Networks::NanoTestNetwork.as_u16(), 0x5258);
}

/// An ascending pull reply with `payload` after a header announcing 16 bytes of blocks.
fn asc_pull_ack_bytes(payload: &[u8; 16]) -> Vec<u8> {
    let mut data = header_bytes(MessageType::AscPullAck, 7);
    data.extend_from_slice(payload);
    data
}

#[test]
fn invalid_payload() {
    let mut deserializer = MessageDeserializerV2::new();
    deserializer.push(&asc_pull_ack_bytes(&[0xFF; 16]));
    assert_eq!(
        deserializer.try_deserialize(),
        Some(Err(ParseMessageError::InvalidMessage(MessageType::AscPullAck)))
    );
}

#[test]
fn asc_pull_ack_of_a_known_kind_is_passed_on() {
    let mut payload = [0u8; 16];
    payload[0] = 1;
    let mut deserializer = MessageDeserializerV2::new();
    deserializer.push(&asc_pull_ack_bytes(&payload));
    assert_eq!(
        deserializer.try_deserialize(),
        Some(Ok(DeserializedMessage::new(
            Message::Undecoded(MessageType::AscPullAck, payload.to_vec()),
            ProtocolInfo::default()
        )))
    );
}
