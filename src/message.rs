//! Control frames: a common header followed by a message body.
use crate::error::Error;
use crate::wire::{bool_byte, get_u16, get_u32, get_u64, put_u16, put_u32, put_u64};
use crate::{MAGIC_NUMBER, PROTOCOL_VERSION};
use vstd::bytes::*;
use vstd::prelude::*;

verus! {

/// Length of the common header: magic, version, type tag, payload length.
pub const MESSAGE_HEADER_LEN: usize = 13;

/// Kind of a frame.
#[derive(Debug, Clone, Copy, PartialEq, Eq, Structural)]
pub enum MessageType {
    Chunk,
    Nack,
    SegmentComplete,
    Init,
    InitAck,
    Close,
    Heartbeat,
    HeartbeatAck,
    Stats,
    FlowControl,
    KeyExchange,
}

/// The tag that carries a message type on the wire.
pub open spec fn type_tag(t: MessageType) -> u32 {
    match t {
        MessageType::Chunk => 0,
        MessageType::Nack => 1,
        MessageType::SegmentComplete => 2,
        MessageType::Init => 3,
        MessageType::InitAck => 4,
        MessageType::Close => 5,
        MessageType::Heartbeat => 6,
        MessageType::HeartbeatAck => 7,
        MessageType::Stats => 8,
        MessageType::FlowControl => 9,
        MessageType::KeyExchange => 10,
    }
}

/// The message type a tag names, if any.
pub open spec fn type_of_tag(tag: u32) -> Option<MessageType> {
    if tag == 0 {
        Some(MessageType::Chunk)
    } else if tag == 1 {
        Some(MessageType::Nack)
    } else if tag == 2 {
        Some(MessageType::SegmentComplete)
    } else if tag == 3 {
        Some(MessageType::Init)
    } else if tag == 4 {
        Some(MessageType::InitAck)
    } else if tag == 5 {
        Some(MessageType::Close)
    } else if tag == 6 {
        Some(MessageType::Heartbeat)
    } else if tag == 7 {
        Some(MessageType::HeartbeatAck)
    } else if tag == 8 {
        Some(MessageType::Stats)
    } else if tag == 9 {
        Some(MessageType::FlowControl)
    } else if tag == 10 {
        Some(MessageType::KeyExchange)
    } else {
        None
    }
}

impl MessageType {
    pub fn tag(self) -> (r: u32)
        ensures
            r == type_tag(self),
    {
        match self {
            MessageType::Chunk => 0,
            MessageType::Nack => 1,
            MessageType::SegmentComplete => 2,
            MessageType::Init => 3,
            MessageType::InitAck => 4,
            MessageType::Close => 5,
            MessageType::Heartbeat => 6,
            MessageType::HeartbeatAck => 7,
            MessageType::Stats => 8,
            MessageType::FlowControl => 9,
            MessageType::KeyExchange => 10,
        }
    }

    pub fn from_tag(tag: u32) -> (r: Option<MessageType>)
        ensures
            r == type_of_tag(tag),
    {
        if tag == 0 {
            Some(MessageType::Chunk)
        } else if tag == 1 {
            Some(MessageType::Nack)
        } else if tag == 2 {
            Some(MessageType::SegmentComplete)
        } else if tag == 3 {
            Some(MessageType::Init)
        } else if tag == 4 {
            Some(MessageType::InitAck)
        } else if tag == 5 {
            Some(MessageType::Close)
        } else if tag == 6 {
            Some(MessageType::Heartbeat)
        } else if tag == 7 {
            Some(MessageType::HeartbeatAck)
        } else if tag == 8 {
            Some(MessageType::Stats)
        } else if tag == 9 {
            Some(MessageType::FlowControl)
        } else if tag == 10 {
            Some(MessageType::KeyExchange)
        } else {
            None
        }
    }
}

/// Every tag names back the type it came from.
pub proof fn lemma_type_tag_round_trip(t: MessageType)
    ensures
        type_of_tag(type_tag(t)) == Some(t),
{
}

/// Common header of a control frame.
#[derive(Debug, Clone, Copy, PartialEq, Eq, Structural)]
pub struct MessageHeader {
    pub magic: u32,
    pub version: u8,
    pub msg_type: MessageType,
    /// Length of the body that follows the header.
    pub payload_len: u32,
}

impl MessageHeader {
    pub fn new(msg_type: MessageType, payload_len: u32) -> (r: MessageHeader)
        ensures
            r == (MessageHeader { magic: MAGIC_NUMBER, version: PROTOCOL_VERSION, msg_type, payload_len }),
    {
        MessageHeader { magic: MAGIC_NUMBER, version: PROTOCOL_VERSION, msg_type, payload_len }
    }
}

/// Header bytes for a body of `len` bytes of type `t`.
pub open spec fn message_header_bytes(t: MessageType, len: nat) -> Seq<u8> {
    spec_u32_to_le_bytes(MAGIC_NUMBER) + seq![PROTOCOL_VERSION] + spec_u32_to_le_bytes(type_tag(t))
        + spec_u32_to_le_bytes(len as u32)
}

/// A whole control frame.
pub open spec fn frame_of(t: MessageType, body: Seq<u8>) -> Seq<u8> {
    message_header_bytes(t, body.len()) + body
}

/// What the header of `s` decodes to.
pub open spec fn decode_header(s: Seq<u8>) -> Result<MessageHeader, Error> {
    if s.len() < 13 {
        Err(Error::Malformed)
    } else if spec_u32_from_le_bytes(s.subrange(0, 4)) != MAGIC_NUMBER {
        Err(
            Error::InvalidMagicNumber {
                expected: MAGIC_NUMBER,
                got: spec_u32_from_le_bytes(s.subrange(0, 4)),
            },
        )
    } else if s[4] != PROTOCOL_VERSION {
        Err(Error::InvalidVersion { expected: PROTOCOL_VERSION, got: s[4] })
    } else {
        match type_of_tag(spec_u32_from_le_bytes(s.subrange(5, 9))) {
            None => Err(Error::Malformed),
            Some(t) => Ok(
                MessageHeader {
                    magic: MAGIC_NUMBER,
                    version: PROTOCOL_VERSION,
                    msg_type: t,
                    payload_len: spec_u32_from_le_bytes(s.subrange(9, 13)),
                },
            ),
        }
    }
}

/// The body of a frame of type `t`, or why `s` is not one: the header must
/// decode, name `t`, and declare exactly the bytes that follow it.
pub open spec fn decode_frame(s: Seq<u8>, t: MessageType) -> Result<Seq<u8>, Error> {
    match decode_header(s) {
        Err(e) => Err(e),
        Ok(h) => if h.msg_type != t {
            Err(Error::MessageTypeMismatch { expected: t, got: h.msg_type })
        } else if h.payload_len as int != s.len() - 13 {
            Err(Error::Malformed)
        } else {
            Ok(s.subrange(13, s.len() as int))
        },
    }
}

/// A frame decodes to the body it was built from.
pub proof fn lemma_frame_round_trip(t: MessageType, body: Seq<u8>)
    requires
        body.len() <= u32::MAX,
    ensures
        decode_header(frame_of(t, body)) == Ok::<MessageHeader, Error>(
            MessageHeader {
                magic: MAGIC_NUMBER,
                version: PROTOCOL_VERSION,
                msg_type: t,
                payload_len: body.len() as u32,
            },
        ),
        decode_frame(frame_of(t, body), t) == Ok::<Seq<u8>, Error>(body),
{
    lemma_auto_spec_u32_to_from_le_bytes();
    let s = frame_of(t, body);
    assert(s.subrange(0, 4) =~= spec_u32_to_le_bytes(MAGIC_NUMBER));
    assert(s.subrange(5, 9) =~= spec_u32_to_le_bytes(type_tag(t)));
    assert(s.subrange(9, 13) =~= spec_u32_to_le_bytes(body.len() as u32));
    assert(s.subrange(13, s.len() as int) =~= body);
}

/// Builds a frame around `body`.
pub fn encode_frame(t: MessageType, body: &[u8]) -> (r: Vec<u8>)
    requires
        body@.len() <= u32::MAX,
    ensures
        r@ == frame_of(t, body@),
{
    let mut buf: Vec<u8> = Vec::new();
    put_u32(&mut buf, MAGIC_NUMBER);
    buf.push(PROTOCOL_VERSION);
    put_u32(&mut buf, t.tag());
    put_u32(&mut buf, body.len() as u32);
    buf.extend_from_slice(body);
    assert(buf@ =~= frame_of(t, body@));
    buf
}

/// Decodes the common header.
pub fn read_header(bytes: &[u8]) -> (r: Result<MessageHeader, Error>)
    ensures
        r == decode_header(bytes@),
{
    if bytes.len() < MESSAGE_HEADER_LEN {
        return Err(Error::Malformed);
    }
    let magic = get_u32(bytes, 0);
    if magic != MAGIC_NUMBER {
        return Err(Error::InvalidMagicNumber { expected: MAGIC_NUMBER, got: magic });
    }
    if bytes[4] != PROTOCOL_VERSION {
        return Err(Error::InvalidVersion { expected: PROTOCOL_VERSION, got: bytes[4] });
    }
    let tag = get_u32(bytes, 5);
    match MessageType::from_tag(tag) {
        None => Err(Error::Malformed),
        Some(t) => Ok(
            MessageHeader {
                magic: MAGIC_NUMBER,
                version: PROTOCOL_VERSION,
                msg_type: t,
                payload_len: get_u32(bytes, 9),
            },
        ),
    }
}

/// The body of a frame of type `t`.
pub fn read_frame(bytes: &[u8], t: MessageType) -> (r: Result<&[u8], Error>)
    ensures
        match r {
            Ok(b) => decode_frame(bytes@, t) == Ok::<Seq<u8>, Error>(b@),
            Err(e) => decode_frame(bytes@, t) == Err::<Seq<u8>, Error>(e),
        },
{
    let h = read_header(bytes)?;
    if h.msg_type != t {
        return Err(Error::MessageTypeMismatch { expected: t, got: h.msg_type });
    }
    if h.payload_len as usize != bytes.len() - MESSAGE_HEADER_LEN {
        return Err(Error::Malformed);
    }
    Ok(vstd::slice::slice_subrange(bytes, MESSAGE_HEADER_LEN, bytes.len()))
}

/// Reads a 32-byte key at `at`.
pub fn get_key(bytes: &[u8], at: usize) -> (r: [u8; 32])
    requires
        at + 32 <= bytes@.len(),
    ensures
        r@ == bytes@.subrange(at as int, at + 32),
{
    let len = bytes.len();
    let mut k = [0u8; 32];
    let mut i: usize = 0;
    while i < 32
        invariant
            i <= 32,
            len == bytes@.len(),
            at + 32 <= len,
            k@.len() == 32,
            forall|j: int| 0 <= j < i ==> k@[j] == bytes@[at + j],
        decreases 32 - i,
    {
        k[i] = bytes[at + i];
        i = i + 1;
    }
    assert(k@ =~= bytes@.subrange(at as int, at + 32));
    k
}

/// What decoding a frame of type `t` into a message gives: the frame's error,
/// `Malformed` where the body does not parse, else the parsed message.
pub open spec fn decoded<M>(s: Seq<u8>, t: MessageType, parsed: spec_fn(Seq<u8>) -> Option<M>) -> Result<M, Error> {
    match decode_frame(s, t) {
        Err(e) => Err(e),
        Ok(b) => match parsed(b) {
            Some(m) => Ok(m),
            None => Err(Error::Malformed),
        },
    }
}

// ----- SegmentComplete -----

/// Receiver to sender: a segment has been assembled.
#[derive(Debug, Clone, Copy, PartialEq, Eq, Structural)]
pub struct SegmentCompleteMessage {
    pub segment_id: u64,
    pub total_chunks_received: u32,
    pub duplicates_received: u32,
    pub elapsed_ms: u64,
}

pub open spec fn segment_complete_body(m: SegmentCompleteMessage) -> Seq<u8> {
    spec_u64_to_le_bytes(m.segment_id) + spec_u32_to_le_bytes(m.total_chunks_received)
        + spec_u32_to_le_bytes(m.duplicates_received) + spec_u64_to_le_bytes(m.elapsed_ms)
}

pub open spec fn parse_segment_complete(b: Seq<u8>) -> Option<SegmentCompleteMessage> {
    if b.len() != 24 {
        None
    } else {
        Some(
            SegmentCompleteMessage {
                segment_id: spec_u64_from_le_bytes(b.subrange(0, 8)),
                total_chunks_received: spec_u32_from_le_bytes(b.subrange(8, 12)),
                duplicates_received: spec_u32_from_le_bytes(b.subrange(12, 16)),
                elapsed_ms: spec_u64_from_le_bytes(b.subrange(16, 24)),
            },
        )
    }
}

impl SegmentCompleteMessage {
    pub fn to_bytes(&self) -> (r: Vec<u8>)
        ensures
            r@ == frame_of(MessageType::SegmentComplete, segment_complete_body(*self)),
    {
        let mut b: Vec<u8> = Vec::new();
        put_u64(&mut b, self.segment_id);
        put_u32(&mut b, self.total_chunks_received);
        put_u32(&mut b, self.duplicates_received);
        put_u64(&mut b, self.elapsed_ms);
        assert(b@ =~= segment_complete_body(*self));
        encode_frame(MessageType::SegmentComplete, b.as_slice())
    }

    pub fn from_bytes(bytes: &[u8]) -> (r: Result<SegmentCompleteMessage, Error>)
        ensures
            r == decoded(bytes@, MessageType::SegmentComplete, |b| parse_segment_complete(b)),
    {
        let b = read_frame(bytes, MessageType::SegmentComplete)?;
        if b.len() != 24 {
            return Err(Error::Malformed);
        }
        Ok(
            SegmentCompleteMessage {
                segment_id: get_u64(b, 0),
                total_chunks_received: get_u32(b, 8),
                duplicates_received: get_u32(b, 12),
                elapsed_ms: get_u64(b, 16),
            },
        )
    }
}

/// Decoding an encoded SegmentComplete frame gives back the message.
pub proof fn lemma_segment_complete_round_trip(m: SegmentCompleteMessage)
    ensures
        decoded(
            frame_of(MessageType::SegmentComplete, segment_complete_body(m)),
            MessageType::SegmentComplete,
            |b| parse_segment_complete(b),
        ) == Ok::<SegmentCompleteMessage, Error>(m),
{
    lemma_auto_spec_u32_to_from_le_bytes();
    lemma_auto_spec_u64_to_from_le_bytes();
    let b = segment_complete_body(m);
    lemma_frame_round_trip(MessageType::SegmentComplete, b);
    assert(b.subrange(0, 8) =~= spec_u64_to_le_bytes(m.segment_id));
    assert(b.subrange(8, 12) =~= spec_u32_to_le_bytes(m.total_chunks_received));
    assert(b.subrange(12, 16) =~= spec_u32_to_le_bytes(m.duplicates_received));
    assert(b.subrange(16, 24) =~= spec_u64_to_le_bytes(m.elapsed_ms));
}

// ----- Heartbeat -----

/// Liveness probe; a HeartbeatAck carries the same body.
#[derive(Debug, Clone, Copy, PartialEq, Eq, Structural)]
pub struct HeartbeatMessage {
    pub sequence: u64,
    pub timestamp_us: u64,
}

pub open spec fn heartbeat_body(m: HeartbeatMessage) -> Seq<u8> {
    spec_u64_to_le_bytes(m.sequence) + spec_u64_to_le_bytes(m.timestamp_us)
}

pub open spec fn parse_heartbeat(b: Seq<u8>) -> Option<HeartbeatMessage> {
    if b.len() != 16 {
        None
    } else {
        Some(
            HeartbeatMessage {
                sequence: spec_u64_from_le_bytes(b.subrange(0, 8)),
                timestamp_us: spec_u64_from_le_bytes(b.subrange(8, 16)),
            },
        )
    }
}

impl HeartbeatMessage {
    /// A heartbeat stamped with `now_us`.
    pub fn new(sequence: u64, now_us: u64) -> (r: HeartbeatMessage)
        ensures
            r == (HeartbeatMessage { sequence, timestamp_us: now_us }),
    {
        HeartbeatMessage { sequence, timestamp_us: now_us }
    }

    pub fn to_bytes(&self) -> (r: Vec<u8>)
        ensures
            r@ == frame_of(MessageType::Heartbeat, heartbeat_body(*self)),
    {
        let mut b: Vec<u8> = Vec::new();
        put_u64(&mut b, self.sequence);
        put_u64(&mut b, self.timestamp_us);
        assert(b@ =~= heartbeat_body(*self));
        encode_frame(MessageType::Heartbeat, b.as_slice())
    }

    pub fn from_bytes(bytes: &[u8]) -> (r: Result<HeartbeatMessage, Error>)
        ensures
            r == decoded(bytes@, MessageType::Heartbeat, |b| parse_heartbeat(b)),
    {
        let b = read_frame(bytes, MessageType::Heartbeat)?;
        if b.len() != 16 {
            return Err(Error::Malformed);
        }
        Ok(HeartbeatMessage { sequence: get_u64(b, 0), timestamp_us: get_u64(b, 8) })
    }
}

/// Decoding an encoded Heartbeat frame gives back the message.
pub proof fn lemma_heartbeat_round_trip(m: HeartbeatMessage)
    ensures
        decoded(
            frame_of(MessageType::Heartbeat, heartbeat_body(m)),
            MessageType::Heartbeat,
            |b| parse_heartbeat(b),
        ) == Ok::<HeartbeatMessage, Error>(m),
{
    lemma_auto_spec_u64_to_from_le_bytes();
    let b = heartbeat_body(m);
    lemma_frame_round_trip(MessageType::Heartbeat, b);
    assert(b.subrange(0, 8) =~= spec_u64_to_le_bytes(m.sequence));
    assert(b.subrange(8, 16) =~= spec_u64_to_le_bytes(m.timestamp_us));
}

// ----- KeyExchange -----

/// A single X25519 public key, for the handshake variant that exchanges keys
/// in frames of their own.
#[derive(Debug, Clone, Copy)]
pub struct KeyExchangeMessage {
    pub public_key: [u8; 32],
}

pub open spec fn parse_key_exchange(b: Seq<u8>) -> Option<Seq<u8>> {
    if b.len() != 32 {
        None
    } else {
        Some(b)
    }
}

impl KeyExchangeMessage {
    pub fn to_bytes(&self) -> (r: Vec<u8>)
        ensures
            r@ == frame_of(MessageType::KeyExchange, self.public_key@),
    {
        encode_frame(MessageType::KeyExchange, self.public_key.as_slice())
    }

    /// Decodes a KeyExchange frame; its key is the frame's body.
    pub fn from_bytes(bytes: &[u8]) -> (r: Result<KeyExchangeMessage, Error>)
        ensures
            match r {
                Ok(m) => decoded(bytes@, MessageType::KeyExchange, |b| parse_key_exchange(b))
                    == Ok::<Seq<u8>, Error>(m.public_key@),
                Err(e) => decoded(bytes@, MessageType::KeyExchange, |b| parse_key_exchange(b))
                    == Err::<Seq<u8>, Error>(e),
            },
    {
        let b = read_frame(bytes, MessageType::KeyExchange)?;
        if b.len() != 32 {
            return Err(Error::Malformed);
        }
        let public_key = get_key(b, 0);
        assert(public_key@ =~= b@);
        Ok(KeyExchangeMessage { public_key })
    }
}

/// Decoding an encoded KeyExchange frame gives back the key.
pub proof fn lemma_key_exchange_round_trip(key: Seq<u8>)
    requires
        key.len() == 32,
    ensures
        decoded(frame_of(MessageType::KeyExchange, key), MessageType::KeyExchange, |b| parse_key_exchange(b))
            == Ok::<Seq<u8>, Error>(key),
{
    lemma_frame_round_trip(MessageType::KeyExchange, key);
}

// ----- Init -----

/// Receiver to sender: opens a session.
#[derive(Debug, Clone, Copy)]
pub struct InitMessage {
    /// Ephemeral X25519 public key; zero when the session is plaintext.
    pub client_public_key: [u8; 32],
    pub encryption_enabled: bool,
    pub nic_count: u8,
    /// Requested chunk size; 0 accepts the sender's default.
    pub chunk_size: u16,
    /// Requested segment size; 0 accepts the sender's default.
    pub segment_size: u32,
    /// Receive buffer hint in bytes.
    pub buffer_size: u32,
    pub protocol_version: u8,
    /// Receiver clock when sent, in microseconds, echoed back for RTT.
    pub timestamp_us: u64,
}

pub open spec fn init_body(m: InitMessage) -> Seq<u8> {
    m.client_public_key@ + seq![bool_byte(m.encryption_enabled)] + seq![m.nic_count]
        + spec_u16_to_le_bytes(m.chunk_size) + spec_u32_to_le_bytes(m.segment_size)
        + spec_u32_to_le_bytes(m.buffer_size) + seq![m.protocol_version] + spec_u64_to_le_bytes(
        m.timestamp_us,
    )
}

/// Whether `b` is an Init body equal to that of `m`, field by field.
pub open spec fn init_parses_to(b: Seq<u8>, m: InitMessage) -> bool {
    &&& b.len() == 53
    &&& (b[32] == 0 || b[32] == 1)
    &&& m.client_public_key@ == b.subrange(0, 32)
    &&& m.encryption_enabled == (b[32] == 1)
    &&& m.nic_count == b[33]
    &&& m.chunk_size == spec_u16_from_le_bytes(b.subrange(34, 36))
    &&& m.segment_size == spec_u32_from_le_bytes(b.subrange(36, 40))
    &&& m.buffer_size == spec_u32_from_le_bytes(b.subrange(40, 44))
    &&& m.protocol_version == b[44]
    &&& m.timestamp_us == spec_u64_from_le_bytes(b.subrange(45, 53))
}

pub open spec fn init_body_ok(b: Seq<u8>) -> bool {
    b.len() == 53 && (b[32] == 0 || b[32] == 1)
}

impl InitMessage {
    /// An Init that accepts the sender's sizes, for one link, stamped `now_us`.
    pub fn new(encryption_enabled: bool, client_public_key: [u8; 32], now_us: u64) -> (r: InitMessage)
        ensures
            r.client_public_key == client_public_key,
            r.encryption_enabled == encryption_enabled,
            r.nic_count == 1,
            r.chunk_size == 0,
            r.segment_size == 0,
            r.buffer_size == 2 * 1024 * 1024,
            r.protocol_version == PROTOCOL_VERSION,
            r.timestamp_us == now_us,
    {
        InitMessage {
            client_public_key,
            encryption_enabled,
            nic_count: 1,
            chunk_size: 0,
            segment_size: 0,
            buffer_size: 2 * 1024 * 1024,
            protocol_version: PROTOCOL_VERSION,
            timestamp_us: now_us,
        }
    }

    pub fn to_bytes(&self) -> (r: Vec<u8>)
        ensures
            r@ == frame_of(MessageType::Init, init_body(*self)),
    {
        let mut b: Vec<u8> = Vec::new();
        b.extend_from_slice(self.client_public_key.as_slice());
        b.push(if self.encryption_enabled { 1u8 } else { 0u8 });
        b.push(self.nic_count);
        put_u16(&mut b, self.chunk_size);
        put_u32(&mut b, self.segment_size);
        put_u32(&mut b, self.buffer_size);
        b.push(self.protocol_version);
        put_u64(&mut b, self.timestamp_us);
        assert(b@ =~= init_body(*self));
        encode_frame(MessageType::Init, b.as_slice())
    }

    pub fn from_bytes(bytes: &[u8]) -> (r: Result<InitMessage, Error>)
        ensures
            match decode_frame(bytes@, MessageType::Init) {
                Err(e) => r == Err::<InitMessage, Error>(e),
                Ok(b) => if init_body_ok(b) {
                    r matches Ok(m) && init_parses_to(b, m)
                } else {
                    r == Err::<InitMessage, Error>(Error::Malformed)
                },
            },
    {
        let b = read_frame(bytes, MessageType::Init)?;
        if b.len() != 53 || (b[32] != 0 && b[32] != 1) {
            return Err(Error::Malformed);
        }
        Ok(
            InitMessage {
                client_public_key: get_key(b, 0),
                encryption_enabled: b[32] == 1,
                nic_count: b[33],
                chunk_size: get_u16(b, 34),
                segment_size: get_u32(b, 36),
                buffer_size: get_u32(b, 40),
                protocol_version: b[44],
                timestamp_us: get_u64(b, 45),
            },
        )
    }
}

/// An encoded Init frame decodes to a message with the same fields.
pub proof fn lemma_init_round_trip(m: InitMessage)
    ensures
        decode_frame(frame_of(MessageType::Init, init_body(m)), MessageType::Init) == Ok::<
            Seq<u8>,
            Error,
        >(init_body(m)),
        init_body_ok(init_body(m)),
        init_parses_to(init_body(m), m),
{
    lemma_auto_spec_u16_to_from_le_bytes();
    lemma_auto_spec_u32_to_from_le_bytes();
    lemma_auto_spec_u64_to_from_le_bytes();
    let b = init_body(m);
    lemma_frame_round_trip(MessageType::Init, b);
    assert(b.subrange(0, 32) =~= m.client_public_key@);
    assert(b.subrange(34, 36) =~= spec_u16_to_le_bytes(m.chunk_size));
    assert(b.subrange(36, 40) =~= spec_u32_to_le_bytes(m.segment_size));
    assert(b.subrange(40, 44) =~= spec_u32_to_le_bytes(m.buffer_size));
    assert(b.subrange(45, 53) =~= spec_u64_to_le_bytes(m.timestamp_us));
}

// ----- InitAck -----

/// Sender to receiver: the negotiated parameters of the session.
#[derive(Debug, Clone, Copy)]
pub struct InitAckMessage {
    /// Ephemeral X25519 public key; zero when the session is plaintext.
    pub server_public_key: [u8; 32],
    pub encryption_enabled: bool,
    pub nic_count: u8,
    pub chunk_size: u16,
    pub segment_size: u32,
    /// Base redundancy ratio, in parts per million.
    pub redundancy_ratio: u32,
    pub total_file_size: u64,
    pub total_segments: u64,
    pub chunks_per_segment: u32,
    pub protocol_version: u8,
    /// Echo of the Init's timestamp.
    pub client_timestamp_us: u64,
    /// Sender clock when the InitAck was built.
    pub server_timestamp_us: u64,
}

/// InitAck body bytes from its fields.
pub open spec fn init_ack_bytes(
    key: Seq<u8>,
    encryption_enabled: bool,
    nic_count: u8,
    chunk_size: u16,
    segment_size: u32,
    redundancy_ratio: u32,
    total_file_size: u64,
    total_segments: u64,
    chunks_per_segment: u32,
    protocol_version: u8,
    client_timestamp_us: u64,
    server_timestamp_us: u64,
) -> Seq<u8> {
    key + seq![bool_byte(encryption_enabled)] + seq![nic_count] + spec_u16_to_le_bytes(chunk_size)
        + spec_u32_to_le_bytes(segment_size) + spec_u32_to_le_bytes(redundancy_ratio)
        + spec_u64_to_le_bytes(total_file_size) + spec_u64_to_le_bytes(total_segments)
        + spec_u32_to_le_bytes(chunks_per_segment) + seq![protocol_version] + spec_u64_to_le_bytes(
        client_timestamp_us,
    ) + spec_u64_to_le_bytes(server_timestamp_us)
}

pub open spec fn init_ack_body(m: InitAckMessage) -> Seq<u8> {
    init_ack_bytes(
        m.server_public_key@,
        m.encryption_enabled,
        m.nic_count,
        m.chunk_size,
        m.segment_size,
        m.redundancy_ratio,
        m.total_file_size,
        m.total_segments,
        m.chunks_per_segment,
        m.protocol_version,
        m.client_timestamp_us,
        m.server_timestamp_us,
    )
}

pub open spec fn init_ack_body_ok(b: Seq<u8>) -> bool {
    b.len() == 81 && (b[32] == 0 || b[32] == 1)
}

/// Whether `b` is an InitAck body equal to that of `m`, field by field.
pub open spec fn init_ack_parses_to(b: Seq<u8>, m: InitAckMessage) -> bool {
    &&& init_ack_body_ok(b)
    &&& m.server_public_key@ == b.subrange(0, 32)
    &&& m.encryption_enabled == (b[32] == 1)
    &&& m.nic_count == b[33]
    &&& m.chunk_size == spec_u16_from_le_bytes(b.subrange(34, 36))
    &&& m.segment_size == spec_u32_from_le_bytes(b.subrange(36, 40))
    &&& m.redundancy_ratio == spec_u32_from_le_bytes(b.subrange(40, 44))
    &&& m.total_file_size == spec_u64_from_le_bytes(b.subrange(44, 52))
    &&& m.total_segments == spec_u64_from_le_bytes(b.subrange(52, 60))
    &&& m.chunks_per_segment == spec_u32_from_le_bytes(b.subrange(60, 64))
    &&& m.protocol_version == b[64]
    &&& m.client_timestamp_us == spec_u64_from_le_bytes(b.subrange(65, 73))
    &&& m.server_timestamp_us == spec_u64_from_le_bytes(b.subrange(73, 81))
}

/// `ceil(total / segment_size)`.
pub open spec fn segment_count(total: int, segment_size: int) -> int {
    (total + segment_size - 1) / segment_size
}

impl InitAckMessage {
    /// An InitAck with no client timestamp to echo.
    pub fn new(
        total_file_size: u64,
        chunk_size: u16,
        segment_size: u32,
        redundancy_ratio: u32,
        now_us: u64,
    ) -> (r: InitAckMessage)
        requires
            chunk_size > 0,
            segment_size > 0,
        ensures
            r.built_from(total_file_size, chunk_size, segment_size, redundancy_ratio, 0, now_us),
    {
        InitAckMessage::with_client_timestamp(
            total_file_size,
            chunk_size,
            segment_size,
            redundancy_ratio,
            0,
            now_us,
        )
    }

    /// Whether this InitAck is the plaintext one built from these parameters.
    pub open spec fn built_from(
        self,
        total_file_size: u64,
        chunk_size: u16,
        segment_size: u32,
        redundancy_ratio: u32,
        client_timestamp_us: u64,
        now_us: u64,
    ) -> bool {
        &&& self.server_public_key@ == Seq::new(32, |i: int| 0u8)
        &&& !self.encryption_enabled
        &&& self.nic_count == 1
        &&& self.chunk_size == chunk_size
        &&& self.segment_size == segment_size
        &&& self.redundancy_ratio == redundancy_ratio
        &&& self.total_file_size == total_file_size
        &&& self.total_segments == segment_count(total_file_size as int, segment_size as int)
        &&& self.chunks_per_segment == crate::chunk::chunk_count(segment_size as int, chunk_size as int)
        &&& self.protocol_version == PROTOCOL_VERSION
        &&& self.client_timestamp_us == client_timestamp_us
        &&& self.server_timestamp_us == now_us
    }

    /// An InitAck for `total_file_size` bytes: `ceil(total / segment_size)`
    /// segments of `ceil(segment_size / chunk_size)` chunks, echoing the client's
    /// timestamp and stamped `now_us`.
    pub fn with_client_timestamp(
        total_file_size: u64,
        chunk_size: u16,
        segment_size: u32,
        redundancy_ratio: u32,
        client_timestamp_us: u64,
        now_us: u64,
    ) -> (r: InitAckMessage)
        requires
            chunk_size > 0,
            segment_size > 0,
        ensures
            r.built_from(
                total_file_size,
                chunk_size,
                segment_size,
                redundancy_ratio,
                client_timestamp_us,
                now_us,
            ),
    {
        let cq = segment_size / chunk_size as u32;
        let chunks_per_segment = if segment_size % chunk_size as u32 != 0 {
            assert(cq + 1 == crate::chunk::chunk_count(segment_size as int, chunk_size as int)
                && cq < u32::MAX) by (nonlinear_arith)
                requires
                    chunk_size > 0,
                    cq == segment_size / chunk_size as u32,
                    segment_size % chunk_size as u32 != 0,
            ;
            cq + 1
        } else {
            assert(cq == crate::chunk::chunk_count(segment_size as int, chunk_size as int))
                by (nonlinear_arith)
                requires
                    chunk_size > 0,
                    cq == segment_size / chunk_size as u32,
                    segment_size % chunk_size as u32 == 0,
            ;
            cq
        };
        let seg = segment_size as u64;
        let q = total_file_size / seg;
        let total_segments = if total_file_size % seg != 0 {
            assert(q < u64::MAX) by (nonlinear_arith)
                requires
                    seg > 0,
                    q == total_file_size / seg,
                    total_file_size % seg != 0,
            ;
            q + 1
        } else {
            q
        };
        assert(total_segments as int == segment_count(total_file_size as int, seg as int))
            by (nonlinear_arith)
            requires
                seg > 0,
                total_segments as int == total_file_size as int / seg as int + if total_file_size
                    as int % seg as int != 0 {
                    1int
                } else {
                    0int
                },
        ;
        let r = InitAckMessage {
            server_public_key: [0u8; 32],
            encryption_enabled: false,
            nic_count: 1,
            chunk_size,
            segment_size,
            redundancy_ratio,
            total_file_size,
            total_segments,
            chunks_per_segment,
            protocol_version: PROTOCOL_VERSION,
            client_timestamp_us,
            server_timestamp_us: now_us,
        };
        assert(r.server_public_key@ =~= Seq::new(32, |i: int| 0u8));
        r
    }

    pub fn to_bytes(&self) -> (r: Vec<u8>)
        ensures
            r@ == frame_of(MessageType::InitAck, init_ack_body(*self)),
    {
        let mut b: Vec<u8> = Vec::new();
        b.extend_from_slice(self.server_public_key.as_slice());
        b.push(if self.encryption_enabled { 1u8 } else { 0u8 });
        b.push(self.nic_count);
        put_u16(&mut b, self.chunk_size);
        put_u32(&mut b, self.segment_size);
        put_u32(&mut b, self.redundancy_ratio);
        put_u64(&mut b, self.total_file_size);
        put_u64(&mut b, self.total_segments);
        put_u32(&mut b, self.chunks_per_segment);
        b.push(self.protocol_version);
        put_u64(&mut b, self.client_timestamp_us);
        put_u64(&mut b, self.server_timestamp_us);
        assert(b@ =~= init_ack_body(*self));
        encode_frame(MessageType::InitAck, b.as_slice())
    }

    pub fn from_bytes(bytes: &[u8]) -> (r: Result<InitAckMessage, Error>)
        ensures
            match decode_frame(bytes@, MessageType::InitAck) {
                Err(e) => r == Err::<InitAckMessage, Error>(e),
                Ok(b) => if init_ack_body_ok(b) {
                    r matches Ok(m) && init_ack_parses_to(b, m)
                } else {
                    r == Err::<InitAckMessage, Error>(Error::Malformed)
                },
            },
    {
        let b = read_frame(bytes, MessageType::InitAck)?;
        if b.len() != 81 || (b[32] != 0 && b[32] != 1) {
            return Err(Error::Malformed);
        }
        Ok(
            InitAckMessage {
                server_public_key: get_key(b, 0),
                encryption_enabled: b[32] == 1,
                nic_count: b[33],
                chunk_size: get_u16(b, 34),
                segment_size: get_u32(b, 36),
                redundancy_ratio: get_u32(b, 40),
                total_file_size: get_u64(b, 44),
                total_segments: get_u64(b, 52),
                chunks_per_segment: get_u32(b, 60),
                protocol_version: b[64],
                client_timestamp_us: get_u64(b, 65),
                server_timestamp_us: get_u64(b, 73),
            },
        )
    }
}

/// An encoded InitAck frame decodes to a message with the same fields.
pub proof fn lemma_init_ack_round_trip(m: InitAckMessage)
    ensures
        decode_frame(frame_of(MessageType::InitAck, init_ack_body(m)), MessageType::InitAck)
            == Ok::<Seq<u8>, Error>(init_ack_body(m)),
        init_ack_parses_to(init_ack_body(m), m),
{
    lemma_auto_spec_u16_to_from_le_bytes();
    lemma_auto_spec_u32_to_from_le_bytes();
    lemma_auto_spec_u64_to_from_le_bytes();
    let b = init_ack_body(m);
    lemma_frame_round_trip(MessageType::InitAck, b);
    assert(b.subrange(0, 32) =~= m.server_public_key@);
    assert(b.subrange(34, 36) =~= spec_u16_to_le_bytes(m.chunk_size));
    assert(b.subrange(36, 40) =~= spec_u32_to_le_bytes(m.segment_size));
    assert(b.subrange(40, 44) =~= spec_u32_to_le_bytes(m.redundancy_ratio));
    assert(b.subrange(44, 52) =~= spec_u64_to_le_bytes(m.total_file_size));
    assert(b.subrange(52, 60) =~= spec_u64_to_le_bytes(m.total_segments));
    assert(b.subrange(60, 64) =~= spec_u32_to_le_bytes(m.chunks_per_segment));
    assert(b.subrange(65, 73) =~= spec_u64_to_le_bytes(m.client_timestamp_us));
    assert(b.subrange(73, 81) =~= spec_u64_to_le_bytes(m.server_timestamp_us));
}

// ----- FlowControl -----

/// Receiver to sender: progress report driving the congestion loop. Rates
/// and ratios are integers: ratios in parts per million.
#[derive(Debug, Clone, Copy, PartialEq, Eq, Structural)]
pub struct FlowControlMessage {
    /// Receive buffer headroom, in segments.
    pub buffer_available: u32,
    pub last_completed_segment: u64,
    pub segments_in_progress: u32,
    /// Observed loss rate, in parts per million.
    pub loss_rate: u32,
    /// Completed segments so far; on the first report of a session, the
    /// receiver's bandwidth hint in MB/s.
    pub processing_rate: u32,
    /// Advisory rate derived from the others.
    pub suggested_rate: u32,
}

/// The advisory rate: half on loss above 10%, unchanged above 5%, 1.2 times
/// (capped at `u32::MAX`) with more than 100 segments of headroom.
pub open spec fn suggested_rate_for(buffer_available: u32, loss_rate: u32, processing_rate: u32) -> u32 {
    if loss_rate > 100_000 {
        processing_rate / 2
    } else if loss_rate > 50_000 {
        processing_rate
    } else if buffer_available > 100 {
        let up = processing_rate as int * 6 / 5;
        if up > u32::MAX {
            u32::MAX
        } else {
            up as u32
        }
    } else {
        processing_rate
    }
}

pub open spec fn flow_control_body(m: FlowControlMessage) -> Seq<u8> {
    spec_u32_to_le_bytes(m.buffer_available) + spec_u64_to_le_bytes(m.last_completed_segment)
        + spec_u32_to_le_bytes(m.segments_in_progress) + spec_u32_to_le_bytes(m.loss_rate)
        + spec_u32_to_le_bytes(m.processing_rate) + spec_u32_to_le_bytes(m.suggested_rate)
}

pub open spec fn parse_flow_control(b: Seq<u8>) -> Option<FlowControlMessage> {
    if b.len() != 28 {
        None
    } else {
        Some(
            FlowControlMessage {
                buffer_available: spec_u32_from_le_bytes(b.subrange(0, 4)),
                last_completed_segment: spec_u64_from_le_bytes(b.subrange(4, 12)),
                segments_in_progress: spec_u32_from_le_bytes(b.subrange(12, 16)),
                loss_rate: spec_u32_from_le_bytes(b.subrange(16, 20)),
                processing_rate: spec_u32_from_le_bytes(b.subrange(20, 24)),
                suggested_rate: spec_u32_from_le_bytes(b.subrange(24, 28)),
            },
        )
    }
}

impl FlowControlMessage {
    pub fn new(
        buffer_available: u32,
        last_completed_segment: u64,
        segments_in_progress: u32,
        loss_rate: u32,
        processing_rate: u32,
    ) -> (r: FlowControlMessage)
        ensures
            r == (FlowControlMessage {
                buffer_available,
                last_completed_segment,
                segments_in_progress,
                loss_rate,
                processing_rate,
                suggested_rate: suggested_rate_for(buffer_available, loss_rate, processing_rate),
            }),
    {
        let suggested_rate = if loss_rate > 100_000 {
            processing_rate / 2
        } else if loss_rate > 50_000 {
            processing_rate
        } else if buffer_available > 100 {
            let up = processing_rate as u64 * 6 / 5;
            if up > u32::MAX as u64 {
                u32::MAX
            } else {
                up as u32
            }
        } else {
            processing_rate
        };
        FlowControlMessage {
            buffer_available,
            last_completed_segment,
            segments_in_progress,
            loss_rate,
            processing_rate,
            suggested_rate,
        }
    }

    pub fn to_bytes(&self) -> (r: Vec<u8>)
        ensures
            r@ == frame_of(MessageType::FlowControl, flow_control_body(*self)),
    {
        let mut b: Vec<u8> = Vec::new();
        put_u32(&mut b, self.buffer_available);
        put_u64(&mut b, self.last_completed_segment);
        put_u32(&mut b, self.segments_in_progress);
        put_u32(&mut b, self.loss_rate);
        put_u32(&mut b, self.processing_rate);
        put_u32(&mut b, self.suggested_rate);
        assert(b@ =~= flow_control_body(*self));
        encode_frame(MessageType::FlowControl, b.as_slice())
    }

    pub fn from_bytes(bytes: &[u8]) -> (r: Result<FlowControlMessage, Error>)
        ensures
            r == decoded(bytes@, MessageType::FlowControl, |b| parse_flow_control(b)),
    {
        let b = read_frame(bytes, MessageType::FlowControl)?;
        if b.len() != 28 {
            return Err(Error::Malformed);
        }
        Ok(
            FlowControlMessage {
                buffer_available: get_u32(b, 0),
                last_completed_segment: get_u64(b, 4),
                segments_in_progress: get_u32(b, 12),
                loss_rate: get_u32(b, 16),
                processing_rate: get_u32(b, 20),
                suggested_rate: get_u32(b, 24),
            },
        )
    }
}

/// Decoding an encoded FlowControl frame gives back the message.
pub proof fn lemma_flow_control_round_trip(m: FlowControlMessage)
    ensures
        decoded(
            frame_of(MessageType::FlowControl, flow_control_body(m)),
            MessageType::FlowControl,
            |b| parse_flow_control(b),
        ) == Ok::<FlowControlMessage, Error>(m),
{
    lemma_auto_spec_u32_to_from_le_bytes();
    lemma_auto_spec_u64_to_from_le_bytes();
    let b = flow_control_body(m);
    lemma_frame_round_trip(MessageType::FlowControl, b);
    assert(b.subrange(0, 4) =~= spec_u32_to_le_bytes(m.buffer_available));
    assert(b.subrange(4, 12) =~= spec_u64_to_le_bytes(m.last_completed_segment));
    assert(b.subrange(12, 16) =~= spec_u32_to_le_bytes(m.segments_in_progress));
    assert(b.subrange(16, 20) =~= spec_u32_to_le_bytes(m.loss_rate));
    assert(b.subrange(20, 24) =~= spec_u32_to_le_bytes(m.processing_rate));
    assert(b.subrange(24, 28) =~= spec_u32_to_le_bytes(m.suggested_rate));
}

// ----- Nack -----

/// Receiver to sender: chunk ids of one segment that are still missing.
#[derive(Debug, Clone)]
pub struct NackMessage {
    pub segment_id: u64,
    pub missing_chunk_ids: Vec<u32>,
    /// Share of the segment received, in parts per million.
    pub receive_ratio: u32,
    /// Link the retransmit is asked for on; 0 with a single link.
    pub nic_id: u8,
}

/// The ids, four little-endian bytes each.
pub open spec fn ids_bytes(ids: Seq<u32>) -> Seq<u8>
    decreases ids.len(),
{
    if ids.len() == 0 {
        Seq::empty()
    } else {
        ids_bytes(ids.drop_last()) + spec_u32_to_le_bytes(ids.last())
    }
}

pub open spec fn nack_body(segment_id: u64, ids: Seq<u32>, receive_ratio: u32, nic_id: u8) -> Seq<u8> {
    spec_u64_to_le_bytes(segment_id) + spec_u64_to_le_bytes(ids.len() as u64) + ids_bytes(ids)
        + spec_u32_to_le_bytes(receive_ratio) + seq![nic_id]
}

/// Whether `b` is a Nack body: its declared id count fits its length.
pub open spec fn nack_body_ok(b: Seq<u8>) -> bool {
    b.len() >= 21 && spec_u64_from_le_bytes(b.subrange(8, 16)) as int * 4 + 21 == b.len()
}

/// The ids a Nack body holds.
pub open spec fn nack_ids(b: Seq<u8>) -> Seq<u32> {
    Seq::new(
        ((b.len() - 21) / 4) as nat,
        |k: int| spec_u32_from_le_bytes(b.subrange(16 + 4 * k, 20 + 4 * k)),
    )
}

pub proof fn lemma_ids_bytes(ids: Seq<u32>)
    ensures
        ids_bytes(ids).len() == 4 * ids.len(),
        forall|k: int|
            0 <= k < ids.len() ==> #[trigger] ids_bytes(ids).subrange(4 * k, 4 * k + 4)
                == spec_u32_to_le_bytes(ids[k]),
    decreases ids.len(),
{
    lemma_auto_spec_u32_to_from_le_bytes();
    if ids.len() > 0 {
        let p = ids.drop_last();
        lemma_ids_bytes(p);
        let b = ids_bytes(ids);
        assert forall|k: int| 0 <= k < ids.len() implies #[trigger] b.subrange(4 * k, 4 * k + 4)
            == spec_u32_to_le_bytes(ids[k]) by {
            if k < p.len() {
                assert(b.subrange(4 * k, 4 * k + 4) =~= ids_bytes(p).subrange(4 * k, 4 * k + 4));
            } else {
                assert(b.subrange(4 * k, 4 * k + 4) =~= spec_u32_to_le_bytes(ids.last()));
            }
        }
    }
}

impl NackMessage {
    pub fn new(segment_id: u64, missing_chunk_ids: Vec<u32>, receive_ratio: u32, nic_id: u8) -> (r:
        NackMessage)
        ensures
            r.segment_id == segment_id,
            r.missing_chunk_ids@ == missing_chunk_ids@,
            r.receive_ratio == receive_ratio,
            r.nic_id == nic_id,
    {
        NackMessage { segment_id, missing_chunk_ids, receive_ratio, nic_id }
    }

    pub fn to_bytes(&self) -> (r: Vec<u8>)
        requires
            self.missing_chunk_ids@.len() * 4 + 21 <= u32::MAX,
        ensures
            r@ == frame_of(
                MessageType::Nack,
                nack_body(self.segment_id, self.missing_chunk_ids@, self.receive_ratio, self.nic_id),
            ),
    {
        let ids = &self.missing_chunk_ids;
        let mut b: Vec<u8> = Vec::new();
        put_u64(&mut b, self.segment_id);
        put_u64(&mut b, ids.len() as u64);
        let ghost head = b@;
        let mut i: usize = 0;
        while i < ids.len()
            invariant
                i <= ids@.len(),
                b@ == head + ids_bytes(ids@.subrange(0, i as int)),
            decreases ids@.len() - i,
        {
            put_u32(&mut b, ids[i]);
            assert(ids@.subrange(0, i + 1).drop_last() =~= ids@.subrange(0, i as int));
            i = i + 1;
        }
        assert(ids@.subrange(0, ids@.len() as int) =~= ids@);
        put_u32(&mut b, self.receive_ratio);
        b.push(self.nic_id);
        assert(b@ =~= nack_body(self.segment_id, ids@, self.receive_ratio, self.nic_id));
        proof {
            lemma_ids_bytes(ids@);
        }
        encode_frame(MessageType::Nack, b.as_slice())
    }

    pub fn from_bytes(bytes: &[u8]) -> (r: Result<NackMessage, Error>)
        ensures
            match decode_frame(bytes@, MessageType::Nack) {
                Err(e) => r == Err::<NackMessage, Error>(e),
                Ok(b) => if nack_body_ok(b) {
                    r matches Ok(m) && m.segment_id == spec_u64_from_le_bytes(b.subrange(0, 8))
                        && m.missing_chunk_ids@ == nack_ids(b) && m.receive_ratio
                        == spec_u32_from_le_bytes(b.subrange(b.len() - 5, b.len() - 1))
                        && m.nic_id == b[b.len() - 1]
                } else {
                    r == Err::<NackMessage, Error>(Error::Malformed)
                },
            },
    {
        let b = read_frame(bytes, MessageType::Nack)?;
        let len = b.len();
        if len < 21 {
            return Err(Error::Malformed);
        }
        let count = get_u64(b, 8);
        if (len - 21) % 4 != 0 || count != ((len - 21) / 4) as u64 {
            return Err(Error::Malformed);
        }
        let n = (len - 21) / 4;
        let mut ids: Vec<u32> = Vec::new();
        let mut k: usize = 0;
        while k < n
            invariant
                k <= n,
                n * 4 + 21 == len,
                len == b@.len(),
                ids@ == Seq::new(
                    k as nat,
                    |j: int| spec_u32_from_le_bytes(b@.subrange(16 + 4 * j, 20 + 4 * j)),
                ),
            decreases n - k,
        {
            let id = get_u32(b, 16 + 4 * k);
            ids.push(id);
            k = k + 1;
            assert(ids@ =~= Seq::new(
                k as nat,
                |j: int| spec_u32_from_le_bytes(b@.subrange(16 + 4 * j, 20 + 4 * j)),
            ));
        }
        let receive_ratio = get_u32(b, len - 5);
        let nic_id = b[len - 1];
        assert(ids@ =~= nack_ids(b@));
        Ok(NackMessage { segment_id: get_u64(b, 0), missing_chunk_ids: ids, receive_ratio, nic_id })
    }
}

/// An encoded Nack frame decodes to the same segment, ids, ratio and link.
pub proof fn lemma_nack_round_trip(segment_id: u64, ids: Seq<u32>, receive_ratio: u32, nic_id: u8)
    requires
        ids.len() * 4 + 21 <= u32::MAX,
    ensures
        decode_frame(
            frame_of(MessageType::Nack, nack_body(segment_id, ids, receive_ratio, nic_id)),
            MessageType::Nack,
        ) == Ok::<Seq<u8>, Error>(nack_body(segment_id, ids, receive_ratio, nic_id)),
        nack_body_ok(nack_body(segment_id, ids, receive_ratio, nic_id)),
        ({
            let b = nack_body(segment_id, ids, receive_ratio, nic_id);
            &&& spec_u64_from_le_bytes(b.subrange(0, 8)) == segment_id
            &&& nack_ids(b) == ids
            &&& spec_u32_from_le_bytes(b.subrange(b.len() - 5, b.len() - 1)) == receive_ratio
            &&& b[b.len() - 1] == nic_id
        }),
{
    lemma_auto_spec_u32_to_from_le_bytes();
    lemma_auto_spec_u64_to_from_le_bytes();
    lemma_ids_bytes(ids);
    let b = nack_body(segment_id, ids, receive_ratio, nic_id);
    let n = ids.len() as int;
    lemma_frame_round_trip(MessageType::Nack, b);
    assert(b.subrange(0, 8) =~= spec_u64_to_le_bytes(segment_id));
    assert(b.subrange(8, 16) =~= spec_u64_to_le_bytes(ids.len() as u64));
    assert(b.subrange(b.len() - 5, b.len() - 1) =~= spec_u32_to_le_bytes(receive_ratio));
    assert forall|k: int| 0 <= k < n implies #[trigger] nack_ids(b)[k] == ids[k] by {
        assert(b.subrange(16 + 4 * k, 20 + 4 * k) =~= ids_bytes(ids).subrange(4 * k, 4 * k + 4));
    }
    assert(nack_ids(b) =~= ids);
}

/// Whether `bytes` are the frame of message `m`, field by field.
pub open spec fn decodes_to(bytes: Seq<u8>, m: Message) -> bool {
    match m {
        Message::Nack(n) => decode_frame(bytes, MessageType::Nack) matches Ok(b) && nack_body_ok(b)
            && n.segment_id == spec_u64_from_le_bytes(b.subrange(0, 8)) && n.missing_chunk_ids@
            == nack_ids(b) && n.receive_ratio == spec_u32_from_le_bytes(
            b.subrange(b.len() - 5, b.len() - 1),
        ) && n.nic_id == b[b.len() - 1],
        Message::SegmentComplete(c) => decoded(
            bytes,
            MessageType::SegmentComplete,
            |b| parse_segment_complete(b),
        ) == Ok::<SegmentCompleteMessage, Error>(c),
        Message::Init(i) => decode_frame(bytes, MessageType::Init) matches Ok(b) && init_body_ok(b)
            && init_parses_to(b, i),
        Message::InitAck(a) => decode_frame(bytes, MessageType::InitAck) matches Ok(b)
            && init_ack_parses_to(b, a),
        Message::Heartbeat(h) => decoded(bytes, MessageType::Heartbeat, |b| parse_heartbeat(b))
            == Ok::<HeartbeatMessage, Error>(h),
        Message::FlowControl(f) => decoded(
            bytes,
            MessageType::FlowControl,
            |b| parse_flow_control(b),
        ) == Ok::<FlowControlMessage, Error>(f),
        Message::KeyExchange(k) => decode_frame(bytes, MessageType::KeyExchange) matches Ok(b)
            && b.len() == 32 && k.public_key@ == b,
        Message::Close => decode_frame(bytes, MessageType::Close) is Ok,
    }
}

/// Any control message.
#[derive(Debug, Clone)]
pub enum Message {
    Nack(NackMessage),
    SegmentComplete(SegmentCompleteMessage),
    Init(InitMessage),
    InitAck(InitAckMessage),
    Heartbeat(HeartbeatMessage),
    FlowControl(FlowControlMessage),
    KeyExchange(KeyExchangeMessage),
    Close,
}

impl Message {
    pub open spec fn spec_msg_type(&self) -> MessageType {
        match self {
            Message::Nack(_) => MessageType::Nack,
            Message::SegmentComplete(_) => MessageType::SegmentComplete,
            Message::Init(_) => MessageType::Init,
            Message::InitAck(_) => MessageType::InitAck,
            Message::Heartbeat(_) => MessageType::Heartbeat,
            Message::FlowControl(_) => MessageType::FlowControl,
            Message::KeyExchange(_) => MessageType::KeyExchange,
            Message::Close => MessageType::Close,
        }
    }

    pub fn msg_type(&self) -> (r: MessageType)
        ensures
            r == self.spec_msg_type(),
    {
        match self {
            Message::Nack(_) => MessageType::Nack,
            Message::SegmentComplete(_) => MessageType::SegmentComplete,
            Message::Init(_) => MessageType::Init,
            Message::InitAck(_) => MessageType::InitAck,
            Message::Heartbeat(_) => MessageType::Heartbeat,
            Message::FlowControl(_) => MessageType::FlowControl,
            Message::KeyExchange(_) => MessageType::KeyExchange,
            Message::Close => MessageType::Close,
        }
    }

    /// Decodes any control frame. The header's type decides which body is
    /// read; a chunk, stats or heartbeat-ack tag is refused as `Malformed`.
    pub fn from_bytes(bytes: &[u8]) -> (r: Result<Message, Error>)
        ensures
            decode_header(bytes@) is Err ==> r == Err::<Message, Error>(
                decode_header(bytes@)->Err_0,
            ),
            r matches Ok(m) ==> decodes_to(bytes@, m),
            r is Err ==> forall|m: Message| !decodes_to(bytes@, m),
    {
        let h = read_header(bytes)?;
        match h.msg_type {
            MessageType::Nack => Ok(Message::Nack(NackMessage::from_bytes(bytes)?)),
            MessageType::SegmentComplete => Ok(
                Message::SegmentComplete(SegmentCompleteMessage::from_bytes(bytes)?),
            ),
            MessageType::Init => Ok(Message::Init(InitMessage::from_bytes(bytes)?)),
            MessageType::InitAck => Ok(Message::InitAck(InitAckMessage::from_bytes(bytes)?)),
            MessageType::Heartbeat => Ok(Message::Heartbeat(HeartbeatMessage::from_bytes(bytes)?)),
            MessageType::FlowControl => Ok(
                Message::FlowControl(FlowControlMessage::from_bytes(bytes)?),
            ),
            MessageType::KeyExchange => Ok(
                Message::KeyExchange(KeyExchangeMessage::from_bytes(bytes)?),
            ),
            MessageType::Close => {
                let _ = read_frame(bytes, MessageType::Close)?;
                Ok(Message::Close)
            },
            _ => Err(Error::Malformed),
        }
    }
}

} // verus!
