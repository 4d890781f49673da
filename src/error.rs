//! Error kinds of the protocol engine.
use crate::message::MessageType;
use vstd::prelude::*;

verus! {

/// What went wrong, by kind: framing, integrity, sequencing, timeout,
/// resource and protocol errors.
#[allow(inconsistent_fields)]
#[derive(Debug, Clone, Copy, PartialEq, Eq, Structural)]
pub enum Error {
    /// A frame too short for its header or body, or a body that does not decode.
    Malformed,
    InvalidMagicNumber { expected: u32, got: u32 },
    InvalidVersion { expected: u8, got: u8 },
    MessageTypeMismatch { expected: MessageType, got: MessageType },
    SegmentTimeout { segment_id: u64 },
    ChunksMissing { segment_id: u64, missing_count: usize },
    BufferOverflow { max_size: usize },
    InvalidChunkId { chunk_id: u32 },
    InvalidSegmentId { segment_id: u64 },
    CrcMismatch { expected: u32, got: u32 },
    /// An opened segment whose length is not the declared one.
    LengthMismatch { expected: usize, got: usize },
    /// The AEAD refused to seal or open.
    CryptoFailed,
    NoNicAvailable,
    ChannelError,
    ConnectionClosed,
}

} // verus!
