//! Cuts a stream of received bytes into messages: a header, then the payload that the header
//! announces.
use crate::messages::{
    decodable, header_bytes, lemma_header_roundtrip, message_of, parse_header, payload_length_of,
    DeserializedMessage, Message, MessageHeader, ParseMessageError, MAX_MESSAGE_SIZE,
    MESSAGE_HEADER_SIZE,
};
use std::collections::VecDeque;
use vstd::prelude::*;

verus! {

/// `r` hands out the message that `payload` holds after header `h`: the message with the
/// header's protocol, or, when no message reads from it (see `decodable`), an error naming
/// the header's message type.
pub open spec fn delivered(
    r: Option<Result<DeserializedMessage, ParseMessageError>>,
    h: MessageHeader,
    payload: Seq<u8>,
) -> bool {
    match r {
        Some(Ok(d)) => decodable(h, payload) && message_of(d.message, payload, h) && d.protocol == h.protocol,
        Some(Err(e)) => !decodable(h, payload) && e == ParseMessageError::InvalidMessage(h.message_type),
        None => false,
    }
}

/// Reading the payload of `h` from `buf`: nothing while it is incomplete (the header stays
/// pending), else the message, with the payload taken from the buffer.
pub open spec fn payload_step(
    buf: Seq<u8>,
    h: MessageHeader,
    r: Option<Result<DeserializedMessage, ParseMessageError>>,
    buf2: Seq<u8>,
    header2: Option<MessageHeader>,
) -> bool {
    let n = payload_length_of(h) as int;
    if buf.len() < n {
        r is None && buf2 == buf && header2 == Some(h)
    } else {
        delivered(r, h, buf.take(n)) && buf2 == buf.skip(n) && header2 is None
    }
}

/// One attempt to read a message from `buf` with the pending header `header`: with a pending
/// header its payload; else nothing before eight bytes have arrived, an invalid header error
/// (the eight bytes are dropped) when they hold no header, and otherwise the payload of the
/// header they hold.
pub open spec fn deserialize_step(
    buf: Seq<u8>,
    header: Option<MessageHeader>,
    r: Option<Result<DeserializedMessage, ParseMessageError>>,
    buf2: Seq<u8>,
    header2: Option<MessageHeader>,
) -> bool {
    match header {
        Some(h) => payload_step(buf, h, r, buf2, header2),
        None => if buf.len() < 8 {
            r is None && buf2 == buf && header2 is None
        } else {
            match parse_header(buf.take(8)) {
                None => r == Some(Err::<DeserializedMessage, ParseMessageError>(ParseMessageError::InvalidHeader))
                    && buf2 == buf.skip(8) && header2 is None,
                Some(h) => payload_step(buf.skip(8), h, r, buf2, header2),
            }
        },
    }
}

/// `VecDeque::capacity`: how many bytes the buffer holds without reallocating, so at least the
/// bytes it holds now. Its exact value is not stated: it depends on the allocator.
#[verifier::external_body]
fn deque_capacity(buffer: &VecDeque<u8>) -> (r: usize)
    ensures
        r >= buffer@.len(),
{
    buffer.capacity()
}

/// Buffers received bytes and reads messages from them as they become complete.
pub struct MessageDeserializerV2 {
    buffer: VecDeque<u8>,
    current_header: Option<MessageHeader>,
}

impl MessageDeserializerV2 {
    /// The bytes received and not read yet.
    pub closed spec fn buffer(&self) -> Seq<u8> {
        self.buffer@
    }

    /// The header read whose payload has not arrived yet.
    pub closed spec fn current_header(&self) -> Option<MessageHeader> {
        self.current_header
    }

    /// An empty deserializer with no pending header. Its buffer is asked for room for the
    /// largest message up front; how much room the allocator gives is not stated.
    pub fn new() -> (r: MessageDeserializerV2)
        ensures
            r.buffer() == Seq::<u8>::empty(),
            r.current_header() is None,
    {
        MessageDeserializerV2 { buffer: VecDeque::with_capacity(MAX_MESSAGE_SIZE), current_header: None }
    }

    /// The number of bytes the buffer holds without growing: at least the bytes waiting in it.
    pub fn buffer_capacity(&self) -> (r: usize)
        ensures
            r >= self.buffer().len(),
    {
        deque_capacity(&self.buffer)
    }

    /// Appends received bytes.
    pub fn push(&mut self, data: &[u8])
        ensures
            final(self).buffer() == old(self).buffer() + data@,
            final(self).current_header() == old(self).current_header(),
    {
        let ghost start = self.buffer@;
        let mut i: usize = 0;
        while i < data.len()
            invariant
                i <= data@.len(),
                self.buffer@ == start + data@.take(i as int),
                self.current_header == old(self).current_header,
                start == old(self).buffer@,
            decreases data@.len() - i,
        {
            self.buffer.push_back(data[i]);
            assert(data@.take(i + 1) =~= data@.take(i as int).push(data@[i as int]));
            assert(start + data@.take(i + 1) =~= (start + data@.take(i as int)).push(data@[i as int]));
            i = i + 1;
        }
        assert(data@.take(data@.len() as int) =~= data@);
    }

    /// Reads the next message if it is complete (see `deserialize_step`).
    pub fn try_deserialize(&mut self) -> (r: Option<Result<DeserializedMessage, ParseMessageError>>)
        ensures
            deserialize_step(
                old(self).buffer(),
                old(self).current_header(),
                r,
                final(self).buffer(),
                final(self).current_header(),
            ),
    {
        match self.current_header {
            Some(header) => self.deserialize_payload_for(header),
            None => self.deserialize_header_and_payload(),
        }
    }

    fn deserialize_header_and_payload(&mut self) -> (r: Option<Result<DeserializedMessage, ParseMessageError>>)
        requires
            old(self).current_header is None,
        ensures
            deserialize_step(old(self).buffer@, None, r, final(self).buffer@, final(self).current_header),
    {
        let bytes = match self.take_header_bytes() {
            Some(b) => b,
            None => {
                return None;
            },
        };
        match MessageHeader::deserialize_slice(bytes.as_slice()) {
            None => Some(Err(ParseMessageError::InvalidHeader)),
            Some(header) => {
                self.current_header = Some(header);
                self.deserialize_payload_for(header)
            },
        }
    }

    /// Takes the first eight bytes, if there are as many.
    fn take_header_bytes(&mut self) -> (r: Option<Vec<u8>>)
        ensures
            final(self).current_header == old(self).current_header,
            old(self).buffer@.len() < 8 ==> r is None && final(self).buffer@ == old(self).buffer@,
            old(self).buffer@.len() >= 8 ==> (r matches Some(b) && b@ == old(self).buffer@.take(8)
                && final(self).buffer@ == old(self).buffer@.skip(8)),
    {
        if self.buffer.len() < MESSAGE_HEADER_SIZE {
            return None;
        }
        let bytes = self.take_front(MESSAGE_HEADER_SIZE);
        Some(bytes)
    }

    /// Removes and returns the first `n` bytes.
    fn take_front(&mut self, n: usize) -> (r: Vec<u8>)
        requires
            n <= old(self).buffer@.len(),
        ensures
            r@ == old(self).buffer@.take(n as int),
            final(self).buffer@ == old(self).buffer@.skip(n as int),
            final(self).current_header == old(self).current_header,
    {
        let ghost start = self.buffer@;
        let mut out: Vec<u8> = Vec::new();
        let mut i: usize = 0;
        while i < n
            invariant
                i <= n <= start.len(),
                out@ == start.take(i as int),
                self.buffer@ == start.skip(i as int),
                self.current_header == old(self).current_header,
            decreases n - i,
        {
            let b = match self.buffer.pop_front() {
                Some(b) => b,
                None => {
                    assert(false);
                    0
                },
            };
            out.push(b);
            assert(start.take(i + 1) =~= start.take(i as int).push(start[i as int]));
            assert(start.skip(i + 1) =~= start.skip(i as int).subrange(1, start.skip(i as int).len() as int));
            i = i + 1;
        }
        out
    }

    fn deserialize_payload_for(&mut self, header: MessageHeader) -> (r: Option<
        Result<DeserializedMessage, ParseMessageError>,
    >)
        requires
            old(self).current_header == Some(header),
        ensures
            payload_step(old(self).buffer@, header, r, final(self).buffer@, final(self).current_header),
    {
        let n = header.payload_length();
        if self.buffer.len() < n {
            return None;
        }
        self.current_header = None;
        let payload = self.take_front(n);
        match Message::deserialize(payload.as_slice(), &header) {
            None => Some(Err(ParseMessageError::InvalidMessage(header.message_type))),
            Some(message) => Some(Ok(DeserializedMessage::new(message, header.protocol))),
        }
    }
}

impl Default for MessageDeserializerV2 {
    fn default() -> (r: MessageDeserializerV2)
        ensures
            r.buffer() == Seq::<u8>::empty(),
            r.current_header() is None,
    {
        Self::new()
    }
}

/// A message written as its header and then its payload reads back, complete, from an empty
/// deserializer, and leaves nothing behind.
pub proof fn lemma_written_message_reads_back(
    h: MessageHeader,
    payload: Seq<u8>,
    r: Option<Result<DeserializedMessage, ParseMessageError>>,
    buf2: Seq<u8>,
    header2: Option<MessageHeader>,
)
    requires
        payload.len() == payload_length_of(h),
        deserialize_step(header_bytes(h) + payload, None, r, buf2, header2),
    ensures
        delivered(r, h, payload),
        buf2 == Seq::<u8>::empty(),
        header2 is None,
{
    let buf = header_bytes(h) + payload;
    assert(buf.take(8) =~= header_bytes(h));
    assert(buf.skip(8) =~= payload);
    lemma_header_roundtrip(h);
    assert(payload.take(payload.len() as int) =~= payload);
    assert(payload.skip(payload.len() as int) =~= Seq::<u8>::empty());
}

/// A message that arrives in two pieces, split anywhere, reads back once the second piece is
/// there: the first piece alone gives nothing (keeping its bytes, or, once the header is
/// complete, keeping the header pending), and the next attempt after the rest arrived gives
/// the message and leaves nothing behind.
pub proof fn lemma_message_in_two_pieces(
    h: MessageHeader,
    payload: Seq<u8>,
    split: int,
    r1: Option<Result<DeserializedMessage, ParseMessageError>>,
    buf1: Seq<u8>,
    header1: Option<MessageHeader>,
    r2: Option<Result<DeserializedMessage, ParseMessageError>>,
    buf2: Seq<u8>,
    header2: Option<MessageHeader>,
)
    requires
        payload.len() == payload_length_of(h),
        0 <= split < 8 + payload.len(),
        deserialize_step((header_bytes(h) + payload).take(split), None, r1, buf1, header1),
        deserialize_step(buf1 + (header_bytes(h) + payload).skip(split), header1, r2, buf2, header2),
    ensures
        r1 is None,
        delivered(r2, h, payload),
        buf2 == Seq::<u8>::empty(),
        header2 is None,
{
    let whole = header_bytes(h) + payload;
    lemma_header_roundtrip(h);
    if split < 8 {
        assert(buf1 + whole.skip(split) =~= whole);
        lemma_written_message_reads_back(h, payload, r2, buf2, header2);
    } else {
        let first = whole.take(split);
        assert(first.take(8) =~= header_bytes(h));
        assert(first.skip(8) =~= payload.take(split - 8));
        assert(header1 == Some(h));
        assert(buf1 == payload.take(split - 8));
        assert(buf1 + whole.skip(split) =~= payload);
        assert(payload.take(payload.len() as int) =~= payload);
        assert(payload.skip(payload.len() as int) =~= Seq::<u8>::empty());
    }
}

/// The bytes of the messages from the `i`-th on, each its header and then its payload.
pub open spec fn stream_from(msgs: Seq<(MessageHeader, Seq<u8>)>, i: int) -> Seq<u8>
    decreases msgs.len() - i,
{
    if i < 0 || i >= msgs.len() {
        Seq::empty()
    } else {
        header_bytes(msgs[i].0) + msgs[i].1 + stream_from(msgs, i + 1)
    }
}

/// Whether each message's payload has the length its header announces.
pub open spec fn well_framed(msgs: Seq<(MessageHeader, Seq<u8>)>) -> bool {
    forall|i: int| 0 <= i < msgs.len() ==> (#[trigger] msgs[i]).1.len() == payload_length_of(msgs[i].0)
}

/// The bytes still to come when the first `i` messages were read and `header` is pending: the
/// rest of the stream, or, with the `i`-th header pending, its payload and the messages after
/// it.
pub open spec fn still_to_read(
    msgs: Seq<(MessageHeader, Seq<u8>)>,
    i: int,
    header: Option<MessageHeader>,
) -> Seq<u8> {
    match header {
        None => stream_from(msgs, i),
        Some(_) => msgs[i].1 + stream_from(msgs, i + 1),
    }
}

/// Whether a deserializer holding `buf` and `header` is `i` messages into the stream: a pending
/// header is that of the `i`-th message, and the buffered bytes are the start of what is still
/// to read.
pub open spec fn in_stream(
    msgs: Seq<(MessageHeader, Seq<u8>)>,
    i: int,
    buf: Seq<u8>,
    header: Option<MessageHeader>,
) -> bool {
    &&& 0 <= i <= msgs.len()
    &&& header matches Some(h) ==> i < msgs.len() && h == msgs[i].0
    &&& buf.len() <= still_to_read(msgs, i, header).len()
    &&& still_to_read(msgs, i, header).take(buf.len() as int) == buf
}

/// Reading a stream of messages pushed in any pieces gives them back in order. A fresh
/// deserializer is at the stream's start; pushing the next bytes of the stream keeps it in the
/// stream; and each attempt to read either gives nothing while the next message is incomplete
/// (its bytes all kept), or gives that message and moves on to the one after it. Once all
/// messages are read and their bytes pushed, nothing is left to read.
#[verifier::rlimit(60)]
pub proof fn lemma_stream_reads_back(
    msgs: Seq<(MessageHeader, Seq<u8>)>,
    i: int,
    buf: Seq<u8>,
    header: Option<MessageHeader>,
    data: Seq<u8>,
    r: Option<Result<DeserializedMessage, ParseMessageError>>,
    buf2: Seq<u8>,
    header2: Option<MessageHeader>,
)
    requires
        well_framed(msgs),
        in_stream(msgs, i, buf, header),
        deserialize_step(buf, header, r, buf2, header2),
    ensures
        in_stream(msgs, 0, Seq::empty(), None),
        (buf + data).len() <= still_to_read(msgs, i, header).len() && still_to_read(msgs, i, header).take(
            (buf + data).len() as int,
        ) == buf + data ==> in_stream(msgs, i, buf + data, header),
        r is None ==> in_stream(msgs, i, buf2, header2) && (i < msgs.len() ==> buf.len() < (match header {
            None => 8 + msgs[i].1.len(),
            Some(_) => msgs[i].1.len(),
        })),
        r is Some ==> i < msgs.len() && delivered(r, msgs[i].0, msgs[i].1) && in_stream(
            msgs,
            i + 1,
            buf2,
            header2,
        ),
        i == msgs.len() ==> r is None,
{
    assert(Seq::<u8>::empty().len() == 0);
    assert(stream_from(msgs, 0).take(0) =~= Seq::<u8>::empty());
    if i == msgs.len() {
        assert(stream_from(msgs, i) =~= Seq::<u8>::empty());
        assert(header is None);
        assert(buf.len() == 0);
        return;
    }
    let h = msgs[i].0;
    let p = msgs[i].1;
    let rest = stream_from(msgs, i + 1);
    assert(p.len() == payload_length_of(h));
    assert(stream_from(msgs, i) == header_bytes(h) + p + rest);
    lemma_header_roundtrip(h);
    let n = p.len() as int;
    match header {
        None => {
            let s = header_bytes(h) + p + rest;
            if buf.len() >= 8 {
                assert(buf.take(8) =~= header_bytes(h)) by {
                    assert(s.take(buf.len() as int).take(8) =~= s.take(8));
                    assert(s.take(8) =~= header_bytes(h));
                }
                let b = buf.skip(8);
                assert((p + rest).take(b.len() as int) =~= b) by {
                    assert(s.skip(8) =~= p + rest);
                }
                if b.len() >= n {
                    assert(b.take(n) =~= p) by {
                        assert((p + rest).take(n) =~= p);
                    }
                    assert(rest.take(b.skip(n).len() as int) =~= b.skip(n)) by {
                        assert((p + rest).skip(n) =~= rest);
                    }
                }
            }
        },
        Some(_) => {
            let s = p + rest;
            if buf.len() >= n {
                assert(buf.take(n) =~= p) by {
                    assert(s.take(n) =~= p);
                }
                assert(rest.take(buf.skip(n).len() as int) =~= buf.skip(n)) by {
                    assert(s.skip(n) =~= rest);
                }
            }
        },
    }
}

} // verus!
