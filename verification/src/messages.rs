//! Nano protocol messages: the header that frames each message, the payload size that the
//! header announces, and the payloads that the node reads itself.
use vstd::prelude::*;

verus! {

/// The networks a node can belong to, told apart by the first two header bytes.
#[derive(PartialEq, Eq, Structural, Clone, Copy, Debug, Hash)]
pub enum Networks {
    Invalid,
    /// Low work parameters, publicly known genesis key, dev IP ports.
    NanoDevNetwork,
    /// Normal work parameters, secret beta genesis key, beta IP ports.
    NanoBetaNetwork,
    /// Normal work parameters, secret live key, live IP ports.
    NanoLiveNetwork,
    /// Normal work parameters, secret test genesis key, test IP ports.
    NanoTestNetwork,
}

impl Networks {
    /// The network's identifier on the wire: 'R' followed by 'A', 'B', 'C' or 'X'.
    pub open spec fn code(self) -> u16 {
        match self {
            Networks::Invalid => 0,
            Networks::NanoDevNetwork => 0x5241,
            Networks::NanoBetaNetwork => 0x5242,
            Networks::NanoLiveNetwork => 0x5243,
            Networks::NanoTestNetwork => 0x5258,
        }
    }

    pub fn as_u16(&self) -> (r: u16)
        ensures
            r == self.code(),
    {
        match self {
            Networks::Invalid => 0,
            Networks::NanoDevNetwork => 0x5241,
            Networks::NanoBetaNetwork => 0x5242,
            Networks::NanoLiveNetwork => 0x5243,
            Networks::NanoTestNetwork => 0x5258,
        }
    }

    /// The network with this identifier.
    pub fn from_u16(value: u16) -> (r: Option<Networks>)
        ensures
            r == network_of(value),
    {
        if value == 0 {
            Some(Networks::Invalid)
        } else if value == 0x5241 {
            Some(Networks::NanoDevNetwork)
        } else if value == 0x5242 {
            Some(Networks::NanoBetaNetwork)
        } else if value == 0x5243 {
            Some(Networks::NanoLiveNetwork)
        } else if value == 0x5258 {
            Some(Networks::NanoTestNetwork)
        } else {
            None
        }
    }
}

/// The network whose identifier is `value`.
pub open spec fn network_of(value: u16) -> Option<Networks> {
    if value == 0 {
        Some(Networks::Invalid)
    } else if value == 0x5241 {
        Some(Networks::NanoDevNetwork)
    } else if value == 0x5242 {
        Some(Networks::NanoBetaNetwork)
    } else if value == 0x5243 {
        Some(Networks::NanoLiveNetwork)
    } else if value == 0x5258 {
        Some(Networks::NanoTestNetwork)
    } else {
        None
    }
}

/// The kinds of message, by the sixth header byte.
#[derive(PartialEq, Eq, Structural, Clone, Copy, Debug, Hash)]
pub enum MessageType {
    Invalid,
    NotAType,
    Keepalive,
    Publish,
    ConfirmReq,
    ConfirmAck,
    BulkPull,
    BulkPush,
    FrontierReq,
    NodeIdHandshake,
    BulkPullAccount,
    TelemetryReq,
    TelemetryAck,
    AscPullReq,
    AscPullAck,
}

impl MessageType {
    /// The type's byte on the wire.
    pub open spec fn code(self) -> u8 {
        match self {
            MessageType::Invalid => 0x00,
            MessageType::NotAType => 0x01,
            MessageType::Keepalive => 0x02,
            MessageType::Publish => 0x03,
            MessageType::ConfirmReq => 0x04,
            MessageType::ConfirmAck => 0x05,
            MessageType::BulkPull => 0x06,
            MessageType::BulkPush => 0x07,
            MessageType::FrontierReq => 0x08,
            MessageType::NodeIdHandshake => 0x0a,
            MessageType::BulkPullAccount => 0x0b,
            MessageType::TelemetryReq => 0x0c,
            MessageType::TelemetryAck => 0x0d,
            MessageType::AscPullReq => 0x0e,
            MessageType::AscPullAck => 0x0f,
        }
    }

    pub fn as_u8(&self) -> (r: u8)
        ensures
            r == self.code(),
    {
        match self {
            MessageType::Invalid => 0x00,
            MessageType::NotAType => 0x01,
            MessageType::Keepalive => 0x02,
            MessageType::Publish => 0x03,
            MessageType::ConfirmReq => 0x04,
            MessageType::ConfirmAck => 0x05,
            MessageType::BulkPull => 0x06,
            MessageType::BulkPush => 0x07,
            MessageType::FrontierReq => 0x08,
            MessageType::NodeIdHandshake => 0x0a,
            MessageType::BulkPullAccount => 0x0b,
            MessageType::TelemetryReq => 0x0c,
            MessageType::TelemetryAck => 0x0d,
            MessageType::AscPullReq => 0x0e,
            MessageType::AscPullAck => 0x0f,
        }
    }

    /// The message type with this byte.
    pub fn from_u8(value: u8) -> (r: Option<MessageType>)
        ensures
            r == message_type_of(value),
    {
        match value {
            0x00 => Some(MessageType::Invalid),
            0x01 => Some(MessageType::NotAType),
            0x02 => Some(MessageType::Keepalive),
            0x03 => Some(MessageType::Publish),
            0x04 => Some(MessageType::ConfirmReq),
            0x05 => Some(MessageType::ConfirmAck),
            0x06 => Some(MessageType::BulkPull),
            0x07 => Some(MessageType::BulkPush),
            0x08 => Some(MessageType::FrontierReq),
            0x0a => Some(MessageType::NodeIdHandshake),
            0x0b => Some(MessageType::BulkPullAccount),
            0x0c => Some(MessageType::TelemetryReq),
            0x0d => Some(MessageType::TelemetryAck),
            0x0e => Some(MessageType::AscPullReq),
            0x0f => Some(MessageType::AscPullAck),
            _ => None,
        }
    }
}

/// The message type whose byte is `value`.
pub open spec fn message_type_of(value: u8) -> Option<MessageType> {
    if value == 0x00 {
        Some(MessageType::Invalid)
    } else if value == 0x01 {
        Some(MessageType::NotAType)
    } else if value == 0x02 {
        Some(MessageType::Keepalive)
    } else if value == 0x03 {
        Some(MessageType::Publish)
    } else if value == 0x04 {
        Some(MessageType::ConfirmReq)
    } else if value == 0x05 {
        Some(MessageType::ConfirmAck)
    } else if value == 0x06 {
        Some(MessageType::BulkPull)
    } else if value == 0x07 {
        Some(MessageType::BulkPush)
    } else if value == 0x08 {
        Some(MessageType::FrontierReq)
    } else if value == 0x0a {
        Some(MessageType::NodeIdHandshake)
    } else if value == 0x0b {
        Some(MessageType::BulkPullAccount)
    } else if value == 0x0c {
        Some(MessageType::TelemetryReq)
    } else if value == 0x0d {
        Some(MessageType::TelemetryAck)
    } else if value == 0x0e {
        Some(MessageType::AscPullReq)
    } else if value == 0x0f {
        Some(MessageType::AscPullAck)
    } else {
        None
    }
}

/// The protocol versions a peer speaks, and its network.
#[derive(PartialEq, Eq, Structural, Clone, Copy, Debug, Hash)]
pub struct ProtocolInfo {
    pub version_using: u8,
    pub version_max: u8,
    pub version_min: u8,
    pub network: Networks,
}

impl ProtocolInfo {
    /// Protocol version 21 (down to 20) on the dev network.
    pub fn default_info() -> (r: ProtocolInfo)
        ensures
            r == default_protocol(),
    {
        ProtocolInfo {
            version_using: 0x15,
            version_max: 0x15,
            version_min: 0x14,
            network: Networks::NanoDevNetwork,
        }
    }
}

/// Protocol version 21 (down to 20) on the dev network.
pub open spec fn default_protocol() -> ProtocolInfo {
    ProtocolInfo {
        version_using: 0x15,
        version_max: 0x15,
        version_min: 0x14,
        network: Networks::NanoDevNetwork,
    }
}

impl Default for ProtocolInfo {
    fn default() -> (r: ProtocolInfo)
        ensures
            r == default_protocol(),
    {
        Self::default_info()
    }
}

/// The size of a serialized header.
pub const MESSAGE_HEADER_SIZE: usize = 8;

/// The largest message a node accepts, header included.
pub const MAX_MESSAGE_SIZE: usize = 66560;

/// The eight bytes before each message's payload.
#[derive(PartialEq, Eq, Structural, Clone, Copy, Debug, Hash)]
pub struct MessageHeader {
    pub message_type: MessageType,
    pub protocol: ProtocolInfo,
    /// Flags and counts whose meaning depends on the message type.
    pub extensions: u16,
}

/// The serialized header: the network identifier (big-endian), the maximum, used and minimum
/// version, the message type, and the extensions (little-endian).
pub open spec fn header_bytes(h: MessageHeader) -> Seq<u8> {
    seq![
        (h.protocol.network.code() / 256) as u8,
        (h.protocol.network.code() % 256) as u8,
        h.protocol.version_max,
        h.protocol.version_using,
        h.protocol.version_min,
        h.message_type.code(),
        (h.extensions % 256) as u8,
        (h.extensions / 256) as u8,
    ]
}

/// The header that the first eight bytes hold; none if there are fewer, or if the network or
/// the message type is unknown.
pub open spec fn parse_header(b: Seq<u8>) -> Option<MessageHeader> {
    if b.len() < 8 {
        None
    } else {
        match (network_of((b[0] * 256 + b[1]) as u16), message_type_of(b[5])) {
            (Some(network), Some(message_type)) => Some(
                MessageHeader {
                    message_type,
                    protocol: ProtocolInfo {
                        version_using: b[3],
                        version_max: b[2],
                        version_min: b[4],
                        network,
                    },
                    extensions: (b[6] + b[7] * 256) as u16,
                },
            ),
            _ => None,
        }
    }
}

/// The serialized size of a block of the type with this number (none for an unknown type).
pub open spec fn block_size(block_type: nat) -> nat {
    if block_type == 2 {
        152
    } else if block_type == 3 {
        136
    } else if block_type == 4 {
        168
    } else if block_type == 5 {
        136
    } else if block_type == 6 {
        216
    } else {
        0
    }
}

/// The number of items a confirmation request or acknowledgement announces: the top four
/// extension bits, or with the version 2 flag (bit 0) eight bits, the top four followed by
/// bits 4 to 7.
pub open spec fn confirm_count(extensions: nat) -> nat {
    if extensions % 2 == 1 {
        ((extensions / 4096) % 16) * 16 + (extensions / 16) % 16
    } else {
        (extensions / 4096) % 16
    }
}

/// The payload size that a header announces.
pub open spec fn payload_length_of(h: MessageHeader) -> nat {
    let e = h.extensions as nat;
    match h.message_type {
        MessageType::Invalid | MessageType::NotAType => 0,
        MessageType::Keepalive => 144,
        MessageType::Publish => block_size((e / 256) % 16),
        MessageType::ConfirmReq => confirm_count(e) * 64,
        MessageType::ConfirmAck => 104 + confirm_count(e) * 32,
        MessageType::BulkPull => if e % 2 == 1 {
            72
        } else {
            64
        },
        MessageType::BulkPush | MessageType::TelemetryReq => 0,
        MessageType::FrontierReq => 40,
        MessageType::NodeIdHandshake => (if e % 2 == 1 {
            32nat
        } else {
            0nat
        }) + (if (e / 2) % 2 == 1 {
            if (e / 4) % 2 == 1 {
                160nat
            } else {
                96nat
            }
        } else {
            0nat
        }),
        MessageType::BulkPullAccount => 49,
        MessageType::TelemetryAck => e % 1024,
        MessageType::AscPullReq | MessageType::AscPullAck => 9 + e,
    }
}

impl MessageHeader {
    pub fn new(message_type: MessageType, protocol: ProtocolInfo) -> (r: MessageHeader)
        ensures
            r.message_type == message_type,
            r.protocol == protocol,
            r.extensions == 0,
    {
        MessageHeader { message_type, protocol, extensions: 0 }
    }

    /// Reads a header from the first eight bytes.
    pub fn deserialize_slice(bytes: &[u8]) -> (r: Option<MessageHeader>)
        ensures
            r == parse_header(bytes@),
    {
        if bytes.len() < MESSAGE_HEADER_SIZE {
            return None;
        }
        let network_code: u16 = bytes[0] as u16 * 256 + bytes[1] as u16;
        let network = Networks::from_u16(network_code);
        let message_type = MessageType::from_u8(bytes[5]);
        match (network, message_type) {
            (Some(network), Some(message_type)) => Some(
                MessageHeader {
                    message_type,
                    protocol: ProtocolInfo {
                        version_using: bytes[3],
                        version_max: bytes[2],
                        version_min: bytes[4],
                        network,
                    },
                    extensions: bytes[6] as u16 + bytes[7] as u16 * 256,
                },
            ),
            _ => None,
        }
    }

    /// The eight bytes of this header.
    pub fn serialize(&self) -> (r: Vec<u8>)
        ensures
            r@ == header_bytes(*self),
    {
        let network = self.protocol.network.as_u16();
        let mut r: Vec<u8> = Vec::new();
        r.push((network / 256) as u8);
        r.push((network % 256) as u8);
        r.push(self.protocol.version_max);
        r.push(self.protocol.version_using);
        r.push(self.protocol.version_min);
        r.push(self.message_type.as_u8());
        r.push((self.extensions % 256) as u8);
        r.push((self.extensions / 256) as u8);
        assert(r@ =~= header_bytes(*self));
        r
    }

    /// The size of the payload that follows this header.
    pub fn payload_length(&self) -> (r: usize)
        ensures
            r == payload_length_of(*self),
    {
        let e = self.extensions as usize;
        match self.message_type {
            MessageType::Invalid | MessageType::NotAType => 0,
            MessageType::Keepalive => 144,
            MessageType::Publish => {
                let block_type = (e / 256) % 16;
                if block_type == 2 {
                    152
                } else if block_type == 3 {
                    136
                } else if block_type == 4 {
                    168
                } else if block_type == 5 {
                    136
                } else if block_type == 6 {
                    216
                } else {
                    0
                }
            },
            MessageType::ConfirmReq => confirm_count_of(e) * 64,
            MessageType::ConfirmAck => 104 + confirm_count_of(e) * 32,
            MessageType::BulkPull => if e % 2 == 1 {
                72
            } else {
                64
            },
            MessageType::BulkPush | MessageType::TelemetryReq => 0,
            MessageType::FrontierReq => 40,
            MessageType::NodeIdHandshake => {
                let query: usize = if e % 2 == 1 {
                    32
                } else {
                    0
                };
                let response: usize = if (e / 2) % 2 == 1 {
                    if (e / 4) % 2 == 1 {
                        160
                    } else {
                        96
                    }
                } else {
                    0
                };
                query + response
            },
            MessageType::BulkPullAccount => 49,
            MessageType::TelemetryAck => e % 1024,
            MessageType::AscPullReq | MessageType::AscPullAck => 9 + e,
        }
    }
}

fn confirm_count_of(e: usize) -> (r: usize)
    requires
        e < 65536,
    ensures
        r == confirm_count(e as nat),
        r < 256,
{
    if e % 2 == 1 {
        ((e / 4096) % 16) * 16 + (e / 16) % 16
    } else {
        (e / 4096) % 16
    }
}

/// Reading a serialized header gives the header back.
pub proof fn lemma_header_roundtrip(h: MessageHeader)
    ensures
        parse_header(header_bytes(h)) == Some(h),
{
    let b = header_bytes(h);
    let code = h.protocol.network.code();
    assert(b[0] * 256 + b[1] == code);
    assert(network_of(code) == Some(h.protocol.network));
    assert(message_type_of(h.message_type.code()) == Some(h.message_type));
    assert(b[6] + b[7] * 256 == h.extensions);
}

/// A peer address in a keepalive: an IPv6 address and a port.
#[derive(PartialEq, Eq, Clone, Copy, Debug, Hash)]
pub struct Peer {
    pub address: [u8; 16],
    pub port: u16,
}

/// Eight peers that a node passes on to its neighbours.
#[derive(PartialEq, Eq, Clone, Copy, Debug, Hash)]
pub struct Keepalive {
    pub peers: [Peer; 8],
}

/// The peer that the 18 bytes at `offset` describe: 16 address bytes and the port,
/// little-endian.
pub open spec fn peer_at(payload: Seq<u8>, offset: int) -> (Seq<u8>, u16) {
    (payload.subrange(offset, offset + 16), (payload[offset + 16] + payload[offset + 17] * 256) as u16)
}

/// `k` holds the eight peers of a keepalive payload.
pub open spec fn keepalive_of(k: Keepalive, payload: Seq<u8>) -> bool {
    forall|i: int|
        0 <= i < 8 ==> (#[trigger] k.peers@[i]).address@ == peer_at(payload, 18 * i).0 && k.peers@[i].port
            == peer_at(payload, 18 * i).1
}

/// A message the node received. The node reads keepalives and the messages without payload;
/// the payload of the other message types is passed on as it came.
#[derive(PartialEq, Eq, Clone, Debug)]
pub enum Message {
    Keepalive(Keepalive),
    BulkPush,
    TelemetryReq,
    Undecoded(MessageType, Vec<u8>),
}

/// `m` is what the payload of a message with this header reads as; no message reads from a
/// header of an invalid type.
pub open spec fn message_of(m: Message, payload: Seq<u8>, h: MessageHeader) -> bool {
    match m {
        Message::Keepalive(k) => h.message_type == MessageType::Keepalive && keepalive_of(k, payload),
        Message::BulkPush => h.message_type == MessageType::BulkPush,
        Message::TelemetryReq => h.message_type == MessageType::TelemetryReq,
        Message::Undecoded(t, bytes) => {
            &&& t == h.message_type
            &&& bytes@ == payload
            &&& t != MessageType::Keepalive && t != MessageType::BulkPush && t
                != MessageType::TelemetryReq
            &&& t != MessageType::Invalid && t != MessageType::NotAType
        },
    }
}

/// Whether a byte names a kind of ascending pull: blocks (1), account info (2) or
/// frontiers (3).
pub open spec fn known_pull_type(b: u8) -> bool {
    1 <= b <= 3
}

/// Whether a message reads from `payload` after header `h`: the header names a valid message
/// type, and an ascending pull request or reply starts with a known pull type.
pub open spec fn decodable(h: MessageHeader, payload: Seq<u8>) -> bool {
    &&& h.message_type != MessageType::Invalid && h.message_type != MessageType::NotAType
    &&& (h.message_type == MessageType::AscPullReq || h.message_type == MessageType::AscPullAck)
        ==> payload.len() > 0 && known_pull_type(payload[0])
}

impl Message {
    /// Reads the payload that followed `header`; none for an invalid message type or an
    /// ascending pull of an unknown kind.
    pub fn deserialize(payload: &[u8], header: &MessageHeader) -> (r: Option<Message>)
        requires
            payload@.len() == payload_length_of(*header),
        ensures
            r is Some <==> decodable(*header, payload@),
            r matches Some(m) ==> message_of(m, payload@, *header),
    {
        match header.message_type {
            MessageType::Invalid | MessageType::NotAType => None,
            MessageType::Keepalive => {
                let mut peers = [Peer { address: [0u8; 16], port: 0 }; 8];
                let mut i: usize = 0;
                while i < 8
                    invariant
                        i <= 8,
                        payload@.len() == 144,
                        forall|j: int|
                            0 <= j < i ==> (#[trigger] peers@[j]).address@ == peer_at(payload@, 18 * j).0
                                && peers@[j].port == peer_at(payload@, 18 * j).1,
                    decreases 8 - i,
                {
                    let offset = 18 * i;
                    let mut address = [0u8; 16];
                    let mut j: usize = 0;
                    while j < 16
                        invariant
                            j <= 16,
                            offset == 18 * i,
                            i < 8,
                            payload@.len() == 144,
                            forall|k: int| 0 <= k < j ==> address@[k] == payload@[offset + k],
                        decreases 16 - j,
                    {
                        address[j] = payload[offset + j];
                        j = j + 1;
                    }
                    let port: u16 = payload[offset + 16] as u16 + payload[offset + 17] as u16 * 256;
                    let ghost before = peers@;
                    peers[i] = Peer { address, port };
                    assert(address@ =~= peer_at(payload@, 18 * i).0);
                    assert forall|j2: int| 0 <= j2 < i + 1 implies (#[trigger] peers@[j2]).address@ == peer_at(
                        payload@,
                        18 * j2,
                    ).0 && peers@[j2].port == peer_at(payload@, 18 * j2).1 by {
                        if j2 < i {
                            assert(peers@[j2] == before[j2]);
                        }
                    }
                    i = i + 1;
                }
                Some(Message::Keepalive(Keepalive { peers }))
            },
            MessageType::BulkPush => Some(Message::BulkPush),
            MessageType::TelemetryReq => Some(Message::TelemetryReq),
            MessageType::AscPullReq if payload.len() == 0 || payload[0] < 1 || payload[0] > 3 => None,
            MessageType::AscPullAck if payload.len() == 0 || payload[0] < 1 || payload[0] > 3 => None,
            _ => {
                let mut bytes: Vec<u8> = Vec::new();
                let mut i: usize = 0;
                while i < payload.len()
                    invariant
                        i <= payload@.len(),
                        bytes@ == payload@.take(i as int),
                    decreases payload@.len() - i,
                {
                    bytes.push(payload[i]);
                    assert(payload@.take(i + 1) =~= payload@.take(i as int).push(payload@[i as int]));
                    i = i + 1;
                }
                assert(payload@.take(payload@.len() as int) =~= payload@);
                Some(Message::Undecoded(header.message_type, bytes))
            },
        }
    }
}

/// A message together with the protocol its header announced.
#[derive(PartialEq, Eq, Clone, Debug)]
pub struct DeserializedMessage {
    pub message: Message,
    pub protocol: ProtocolInfo,
}

impl DeserializedMessage {
    pub fn new(message: Message, protocol: ProtocolInfo) -> (r: DeserializedMessage)
        ensures
            r.message == message,
            r.protocol == protocol,
    {
        DeserializedMessage { message, protocol }
    }
}

/// Why bytes could not be read as a message.
#[derive(PartialEq, Eq, Structural, Clone, Copy, Debug)]
pub enum ParseMessageError {
    InvalidHeader,
    InvalidMessage(MessageType),
}

} // verus!
