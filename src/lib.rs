//! Segment Flow Protocol: a NACK-driven block-assembly transfer protocol over
//! datagrams, with forward redundancy, receiver-driven pacing and optional
//! per-segment AEAD encryption.
//!
//! The crate holds the protocol engine: wire codecs, segment splitting and
//! assembly, the sender and receiver state machines, the congestion loop and
//! the path weights. Sockets, timers and tasks live with the caller, which
//! hands the engine plain values (bytes, timestamps in microseconds) and
//! performs the actions it returns.
use vstd::prelude::*;

pub mod cache;
pub mod chunk;
pub mod config;
pub mod congestion;
pub mod crypto;
pub mod error;
pub mod handshake;
pub mod message;
pub mod multipath;
pub mod queue;
pub mod receiver;
pub mod sender;
pub mod stats;
pub mod wire;

pub use chunk::{Chunk, ChunkId, Segment, SegmentBuilder, SegmentId};
pub use config::Config;
pub use crypto::{CryptoSession, EphemeralKeyPair, SegmentCipher};
pub use error::Error;
pub use message::{KeyExchangeMessage, Message, NackMessage};
pub use multipath::{NicInfo, PathManager};
pub use receiver::ReceiverSession;
pub use sender::Sender;
pub use stats::TransferStats;

verus! {

/// Protocol version carried by every control frame.
pub const PROTOCOL_VERSION: u8 = 1;

/// Default chunk size in bytes.
pub const DEFAULT_CHUNK_SIZE: usize = 1200;

/// Default segment size in bytes.
pub const DEFAULT_SEGMENT_SIZE: usize = 65536;

/// Magic number that starts every control frame ("SFPP").
pub const MAGIC_NUMBER: u32 = 0x53465050;

} // verus!
