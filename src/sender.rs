//! Sending side of a session: segment production and caching, forward
//! redundancy, NACK service, pacing input and termination.
//!
//! The caller owns the socket and the clock. It offers the engine the source
//! a segment at a time, passes in every control frame it receives, and sends
//! the frames the engine hands back, paced by `batch_delay_us`.
use crate::cache::{cache_get, cache_insert, cache_is_empty, cache_new, cache_remove, cached, no_entries};
use crate::chunk::{chunk_frame, Chunk, ChunkId, SegmentBuilder, SegmentId};
use crate::config::Config;
use crate::congestion::CongestionControl;
use crate::crypto::CryptoSession;
use crate::error::Error;
use crate::message::{
    decodes_to, FlowControlMessage, HeartbeatMessage, InitAckMessage, Message, MessageType,
    NackMessage, SegmentCompleteMessage,
};
use crate::stats::sat_add;
use crate::multipath::PathManager;
use crate::stats::TransferStats;
use vstd::prelude::*;

verus! {

/// Frames that re-send the listed chunks of a cached segment, in list order;
/// ids past the segment's end are skipped.
pub open spec fn retransmit_frames(frames: Seq<Seq<u8>>, ids: Seq<ChunkId>) -> Seq<Seq<u8>>
    decreases ids.len(),
{
    if ids.len() == 0 {
        Seq::empty()
    } else {
        retransmit_frames(frames, ids.drop_last()) + if (ids.last() as int) < frames.len() {
            seq![frames[ids.last() as int]]
        } else {
            Seq::empty()
        }
    }
}

/// Whether `f` is the frame of a well-formed first copy of chunk `k` of
/// segment `id`.
pub open spec fn first_copy_frame(f: Seq<u8>, id: u64, k: int) -> bool {
    exists|c: Chunk|
        f == chunk_frame(c.header, c.data@) && c.header.segment_id == id && c.header.chunk_id == k
            && !c.header.is_redundant && #[trigger] c.well_formed()
}

/// Header of chunk `k` of segment `id` when payload `d` is split at `c`
/// bytes, sent on link `nic` at `now_us`.
pub open spec fn split_header(id: u64, d: Seq<u8>, c: int, k: int, nic: u8, now_us: u64) -> crate::chunk::ChunkHeader {
    let off = k * c;
    let n = crate::chunk::chunk_len(d.len() as int, c, k);
    crate::chunk::ChunkHeader {
        segment_id: id,
        chunk_id: k as u32,
        total_chunks: crate::chunk::chunk_count(d.len() as int, c) as u32,
        offset: off as u32,
        data_len: n as u16,
        segment_size: d.len() as u32,
        nic_id: nic,
        is_redundant: false,
        crc32: crate::chunk::crc32_of(d.subrange(off, off + n)),
        timestamp_us: now_us,
    }
}

/// Whether `f` is the frame of chunk `k` of segment `id` when payload `d`
/// is split at `c` bytes, sent at `now_us` (on whichever link).
pub open spec fn split_frame(f: Seq<u8>, id: u64, d: Seq<u8>, c: int, k: int, now_us: u64) -> bool {
    let off = k * c;
    let n = crate::chunk::chunk_len(d.len() as int, c, k);
    exists|nic: u8|
        f == chunk_frame(#[trigger] split_header(id, d, c, k, nic, now_us), d.subrange(off, off + n))
}

/// Whether the cache holds, under `id`, the frames of segment `k` of `d`
/// (cut at `size` bytes, split at `chunk` bytes, sent at `now_us`).
pub open spec fn segment_cached(
    c: Map<u64, Seq<Seq<u8>>>,
    id: u64,
    d: Seq<u8>,
    size: int,
    chunk: int,
    k: int,
    now_us: u64,
) -> bool {
    &&& c.contains_key(id)
    &&& forall|q: int|
        0 <= q < c[id].len() ==> split_frame(
            #[trigger] c[id][q],
            id,
            crate::receiver::source_slice(d, size, k),
            chunk,
            q,
            now_us,
        )
}

/// Whether one of `frames` has the bytes `f`.
pub open spec fn frames_contain(frames: Seq<Vec<u8>>, f: Seq<u8>) -> bool {
    exists|i: int| 0 <= i < frames.len() && #[trigger] frames[i]@ == f
}

/// What segment `id` carries on the wire: the data itself, or, in an
/// encrypted session whose cipher is at `counter`, the nonce and the seal.
pub open spec fn payload_of(s: Sender, id: u64, data: Seq<u8>) -> Seq<u8> {
    match s.crypto {
        None => data,
        Some(c) => crate::crypto::nonce_bytes(id, c.cipher.counter() as u32) + crate::crypto::chacha_seal(
            c.cipher.key_view(),
            crate::crypto::nonce_bytes(id, c.cipher.counter() as u32),
            data,
        ),
    }
}

/// Whether the frames after the first copies `fc` are copies of distinct
/// first copies, each with its redundancy flag (frame byte 29) set.
pub open spec fn redundant_tail(frames: Seq<Vec<u8>>, fc: Seq<Seq<u8>>) -> bool {
    exists|picks: Seq<int>|
        {
            &&& picks.len() == frames.len() - fc.len()
            &&& picks.no_duplicates()
            &&& forall|q: int|
                0 <= q < picks.len() ==> 0 <= #[trigger] picks[q] < fc.len() && frames[fc.len()
                    + q]@ == fc[picks[q]].update(29, 1u8)
        }
}

/// Session deadline of the sender in seconds: `size / 5 MiB/s + 60`, at
/// least 120.
pub open spec fn send_deadline_s(data_size: u64) -> int {
    let d = data_size as int / 5242880 + 60;
    if d < 120 {
        120
    } else {
        d
    }
}

/// What to do after a control frame.
#[derive(Debug)]
pub enum SenderAction {
    /// Nothing to send.
    Nothing,
    /// Send these frames to the peer, control frames ahead of data.
    Reply(Vec<u8>),
    /// Queue these data frames (retransmits).
    Retransmit(Vec<Vec<u8>>),
    /// The peer closed the session.
    Closed,
}

/// Bytes a completed segment stands for in the pacing loop:
/// `chunks_per_segment * chunk_size`, capped at `u64::MAX`.
pub open spec fn sender_bps(c: Config) -> u64 {
    let p = crate::chunk::chunk_count(c.segment_size as int, c.chunk_size as int) * c.chunk_size;
    if p > u64::MAX {
        u64::MAX
    } else {
        p as u64
    }
}

/// The InitAck body a sender answers an Init with: its own public key (zero
/// when plaintext), the source size, sizes and redundancy, chunks per
/// segment of the (sealed, when encrypted) segment, and both timestamps.
pub open spec fn init_ack_reply(s: Sender, client_timestamp_us: u64, now_us: u64) -> Seq<u8> {
    let seg = s.config.segment_size as int;
    let chunk = s.config.chunk_size as int;
    crate::message::init_ack_bytes(
        if s.crypto is Some {
            s.crypto->Some_0.local_public_key@
        } else {
            Seq::new(32, |i: int| 0u8)
        },
        s.crypto is Some,
        1,
        s.config.chunk_size as u16,
        s.config.segment_size as u32,
        s.current_redundancy,
        s.data_size,
        crate::message::segment_count(s.data_size as int, seg) as u64,
        (if s.crypto is Some {
            crate::chunk::chunk_count(seg + 28, chunk)
        } else {
            crate::chunk::chunk_count(seg, chunk)
        }) as u32,
        crate::PROTOCOL_VERSION,
        client_timestamp_us,
        now_us,
    )
}

/// A NACK served at `now_us`: the listed chunks of the cached segment are
/// re-sent (`fs`), the NACK is counted, its ids count as losses on its link,
/// and the re-sent chunks are counted.
pub open spec fn nack_served(s0: Sender, s1: Sender, n: NackMessage, fs: Seq<Seq<u8>>, now_us: u64) -> bool {
    &&& cached(s1.segments) == cached(s0.segments)
    &&& s1.next_segment_id == s0.next_segment_id
    &&& s1.connected == s0.connected
    &&& s1.data_size == s0.data_size
    &&& s1.last_nack_us == Some(now_us)
    &&& s1.stats.total_nacks == sat_add(s0.stats.total_nacks, 1)
    &&& s1.stats.last_nack_time_us == Some(now_us)
    &&& ((n.nic_id as int) < s0.path_manager.stats@.len() ==> s1.path_manager.stats@[n.nic_id as int].lost_chunks
        == sat_add(
        s0.path_manager.stats@[n.nic_id as int].lost_chunks,
        n.missing_chunk_ids@.len() as int,
    ))
    &&& fs == if cached(s0.segments).contains_key(n.segment_id) {
        retransmit_frames(cached(s0.segments)[n.segment_id], n.missing_chunk_ids@)
    } else {
        Seq::empty()
    }
    &&& s1.retransmitted == sat_add(s0.retransmitted, fs.len() as int)
    &&& s1.stats.retransmitted_chunks == sat_add(s0.stats.retransmitted_chunks, fs.len() as int)
    &&& s1.stats.total_chunks == sat_add(s0.stats.total_chunks, fs.len() as int)
}

/// The effect of one decoded control message at `now_us`, and the action
/// returned for it.
pub open spec fn handled(s0: Sender, s1: Sender, m: Message, a: SenderAction, now_us: u64) -> bool {
    match m {
        Message::Init(i) => {
            &&& s1.connected
            &&& cached(s1.segments) == cached(s0.segments)
            &&& s1.next_segment_id == s0.next_segment_id
            &&& a matches SenderAction::Reply(f) && f@ == crate::message::frame_of(
                MessageType::InitAck,
                init_ack_reply(s0, i.timestamp_us, now_us),
            )
        },
        Message::Nack(n) => a matches SenderAction::Retransmit(fs) && nack_served(
            s0,
            s1,
            n,
            fs@.map_values(|f: Vec<u8>| f@),
            now_us,
        ),
        Message::SegmentComplete(c) => {
            &&& a is Nothing
            &&& cached(s1.segments) == cached(s0.segments).remove(c.segment_id)
            &&& s1.connected == s0.connected
            &&& s1.next_segment_id == s0.next_segment_id
        },
        Message::FlowControl(fc) => {
            &&& a is Nothing
            &&& crate::congestion::flow_post(s0.congestion, s1.congestion, fc, now_us, sender_bps(s0.config))
            &&& cached(s1.segments) == cached(s0.segments)
            &&& s1.connected == s0.connected
            &&& s1.next_segment_id == s0.next_segment_id
        },
        Message::Heartbeat(h) => {
            &&& a matches SenderAction::Reply(f) && f@ == crate::message::frame_of(
                MessageType::Heartbeat,
                crate::message::heartbeat_body(HeartbeatMessage { sequence: h.sequence, timestamp_us: now_us }),
            )
            &&& cached(s1.segments) == cached(s0.segments)
            &&& s1.connected == s0.connected
        },
        Message::Close => {
            &&& a is Closed
            &&& !s1.connected
            &&& cached(s1.segments) == cached(s0.segments)
        },
        _ => {
            &&& a is Nothing
            &&& cached(s1.segments) == cached(s0.segments)
            &&& s1.connected == s0.connected
        },
    }
}

/// The sender's session record.
pub struct Sender {
    pub config: Config,
    pub path_manager: PathManager,
    pub segment_builder: SegmentBuilder,
    /// Frames of the first copies of every segment not yet confirmed.
    pub segments: dashmap::DashMap<u64, Vec<Vec<u8>>>,
    /// The id the next segment gets; ids start at 1.
    pub next_segment_id: u64,
    pub stats: TransferStats,
    /// Current redundancy, parts per million.
    pub current_redundancy: u32,
    pub running: bool,
    /// Whether a peer has sent Init and not Close.
    pub connected: bool,
    pub crypto: Option<CryptoSession>,
    pub congestion: CongestionControl,
    /// Bytes of the source, announced in InitAck.
    pub data_size: u64,
    pub start_us: u64,
    pub last_nack_us: Option<u64>,
    /// Chunks re-sent on request.
    pub retransmitted: u64,
    /// Segments confirmed by the peer.
    pub confirmed: u64,
}

impl Sender {
    pub open spec fn wf(&self) -> bool {
        &&& self.config.wf()
        &&& 0 < self.segment_builder.chunk_size <= u16::MAX
        &&& self.segment_builder.chunk_size == self.config.chunk_size
        &&& self.path_manager.wf()
        &&& self.congestion.wf()
        &&& self.next_segment_id >= 1
        &&& 0 < self.config.segment_size <= u32::MAX - 28
    }

    /// A sender for `data_size` bytes, with one link. Chunk sizes must fit a
    /// chunk's 16-bit length field.
    pub fn new(config: Config, data_size: u64, now_us: u64) -> (r: Result<Sender, Error>)
        requires
            config.wf(),
        ensures
            r is Ok <==> 0 < config.chunk_size <= u16::MAX && 0 < config.segment_size <= u32::MAX - 28,
            r matches Ok(s) ==> {
                &&& s.wf()
                &&& no_entries(cached(s.segments))
                &&& s.next_segment_id == 1
                &&& s.current_redundancy == config.base_redundancy_ratio
                &&& !s.connected
                &&& s.data_size == data_size
                &&& s.start_us == now_us
            },
    {
        if config.chunk_size == 0 || config.chunk_size > u16::MAX as usize || config.segment_size == 0
            || config.segment_size > (u32::MAX - 28) as usize {
            return Err(Error::Malformed);
        }
        let mut path_manager = PathManager::new(config, now_us);
        let _ = path_manager.add_nic(now_us);
        let stats = TransferStats::new(1, config.stats_window_size, now_us);
        Ok(
            Sender {
                config,
                path_manager,
                segment_builder: SegmentBuilder::new(config.chunk_size),
                segments: cache_new(),
                next_segment_id: 1,
                stats,
                current_redundancy: config.base_redundancy_ratio,
                running: false,
                connected: false,
                crypto: None,
                congestion: CongestionControl::new(now_us),
                data_size,
                start_us: now_us,
                last_nack_us: None,
                retransmitted: 0,
                confirmed: 0,
            },
        )
    }

    /// Produces the next segment from `data`: seals it when the session is
    /// encrypted, splits it, picks redundant copies, caches the frames of the
    /// first copies under the next id and returns the id with the frames to
    /// send (first copies, then redundant ones). Without a connected peer the
    /// segment is still cached and `ConnectionClosed` returned.
    pub fn send_data(&mut self, data: &[u8], now_us: u64) -> (r: Result<
        (SegmentId, Vec<Vec<u8>>),
        Error,
    >)
        requires
            old(self).wf(),
            data@.len() + 28 <= u32::MAX,
            old(self).next_segment_id < u64::MAX,
        ensures
            final(self).wf(),
            final(self).connected == old(self).connected,
            final(self).data_size == old(self).data_size,
            final(self).config == old(self).config,
            final(self).crypto is None <==> old(self).crypto is None,
            final(self).next_segment_id == old(self).next_segment_id || final(self).next_segment_id
                == old(self).next_segment_id + 1,
            final(self).next_segment_id == old(self).next_segment_id ==> cached(final(self).segments)
                == cached(old(self).segments) && r is Err,
            final(self).next_segment_id == old(self).next_segment_id + 1 ==> {
                let id = old(self).next_segment_id;
                &&& cached(final(self).segments) == cached(old(self).segments).insert(
                    id,
                    cached(final(self).segments)[id],
                )
                &&& forall|k: int|
                    0 <= k < cached(final(self).segments)[id].len() ==> first_copy_frame(
                        #[trigger] cached(final(self).segments)[id][k],
                        id,
                        k,
                    )
            },
            old(self).crypto is None ==> final(self).next_segment_id == old(self).next_segment_id + 1
                && cached(final(self).segments)[old(self).next_segment_id].len()
                == crate::chunk::chunk_count(data@.len() as int, old(self).config.chunk_size as int),
            old(self).crypto is None && old(self).connected ==> r is Ok,
            old(self).crypto is Some && old(self).connected && old(self).crypto->Some_0.cipher.counter()
                <= u32::MAX ==> r is Ok,
            !old(self).connected ==> r is Err,
            final(self).next_segment_id == old(self).next_segment_id + 1 ==> final(self).stats.total_segments
                == crate::stats::sat_add(old(self).stats.total_segments, 1)
                && final(self).stats.total_bytes == crate::stats::sat_add(
                old(self).stats.total_bytes,
                data@.len() as int,
            ),
            final(self).next_segment_id == old(self).next_segment_id + 1 ==> forall|k: int|
                0 <= k < cached(final(self).segments)[old(self).next_segment_id].len()
                    ==> split_frame(
                    #[trigger] cached(final(self).segments)[old(self).next_segment_id][k],
                    old(self).next_segment_id,
                    payload_of(*old(self), old(self).next_segment_id, data@),
                    old(self).config.chunk_size as int,
                    k,
                    now_us,
                ),
            r matches Ok((id, frames)) ==> frames@.len() == cached(final(self).segments)[id].len()
                + crate::chunk::redundant_count(
                cached(final(self).segments)[id].len() as int,
                old(self).current_redundancy as int,
            ),
            r matches Ok((id, frames)) ==> redundant_tail(frames@, cached(final(self).segments)[id]),
            r matches Ok((id, frames)) ==> id == old(self).next_segment_id && final(self).next_segment_id == id + 1 && cached(final(self).segments)[id].len() <= frames@.len()
                && forall|k: int|
                0 <= k < cached(final(self).segments)[id].len() ==> (#[trigger] frames@[k])@ == cached(
                    final(self).segments,
                )[id][k],
    {
        let id = self.next_segment_id;
        let payload: Vec<u8> = match &mut self.crypto {
            Some(c) => {
                match c.encrypt(id, data) {
                    Ok(sealed) => sealed,
                    Err(e) => {
                        return Err(e);
                    },
                }
            },
            None => crate::chunk::copy_bytes(data),
        };
        if payload.len() > u32::MAX as usize {
            return Err(Error::BufferOverflow { max_size: u32::MAX as usize });
        }
        let nic = match self.path_manager.select_nic_for_chunk() {
            Some(n) => n,
            None => 0,
        };
        let chunks = self.segment_builder.split_into_chunks(id, payload.as_slice(), nic, now_us);
        assert(chunks@.len() <= u32::MAX) by (nonlinear_arith)
            requires
                chunks@.len() == (payload@.len() + self.segment_builder.chunk_size - 1)
                    / self.segment_builder.chunk_size as int,
                payload@.len() <= u32::MAX,
                self.segment_builder.chunk_size >= 1,
        ;
        let picks = crate::chunk::redundant_picks(chunks.len(), self.current_redundancy);
        let mut frames: Vec<Vec<u8>> = Vec::new();
        let mut keep: Vec<Vec<u8>> = Vec::new();
        let mut k: usize = 0;
        while k < chunks.len()
            invariant
                k <= chunks@.len(),
                frames@.len() == k,
                keep@.len() == k,
                forall|q: int|
                    0 <= q < k ==> (#[trigger] frames@[q])@ == chunk_frame(
                        chunks@[q].header,
                        chunks@[q].data@,
                    ) && keep@[q]@ == frames@[q]@,
            decreases chunks@.len() - k,
        {
            frames.push(chunks[k].to_bytes());
            keep.push(chunks[k].to_bytes());
            k = k + 1;
        }
        let mut q: usize = 0;
        while q < picks.len()
            invariant
                q <= picks@.len(),
                frames@.len() == chunks@.len() + q,
                keep@.len() == chunks@.len(),
                forall|j: int| 0 <= j < picks@.len() ==> #[trigger] picks@[j] < chunks@.len(),
                forall|p: int|
                    0 <= p < chunks@.len() ==> (#[trigger] frames@[p])@ == chunk_frame(
                        chunks@[p].header,
                        chunks@[p].data@,
                    ) && keep@[p]@ == frames@[p]@,
                forall|p: int|
                    0 <= p < q ==> (#[trigger] frames@[chunks@.len() + p])@ == keep@[picks@[p] as int]@.update(
                        29,
                        1u8,
                    ),
            decreases picks@.len() - q,
        {
            let pk = picks[q];
            let mut header = chunks[pk].header;
            header.is_redundant = true;
            let copy = Chunk { header, data: crate::chunk::copy_bytes(chunks[pk].data.as_slice()) };
            proof {
                crate::chunk::lemma_redundant_frame(chunks@[pk as int].header, chunks@[pk as int].data@);
                assert(header == crate::chunk::as_redundant(chunks@[pk as int].header));
            }
            let ghost before = frames@;
            let f = copy.to_bytes();
            assert(pk < chunks@.len());
            assert(frames@[pk as int]@ == chunk_frame(chunks@[pk as int].header, chunks@[pk as int].data@));
            assert(keep@[pk as int]@ == chunk_frame(chunks@[pk as int].header, chunks@[pk as int].data@));
            assert(f@ == keep@[pk as int]@.update(29, 1u8));
            frames.push(f);
            assert(forall|p: int| 0 <= p < frames@.len() - 1 ==> frames@[p] == before[p]);
            q = q + 1;
        }
        let n_chunks = chunks.len() as u64;
        let n_redundant = picks.len() as u64;
        let ghost kept = crate::cache::frames_view(keep@);
        let ghost ip = Seq::new(picks@.len(), |j: int| picks@[j] as int);
        assert forall|q2: int| 0 <= q2 < ip.len() implies 0 <= #[trigger] ip[q2] < kept.len()
            && frames@[kept.len() + q2]@ == kept[ip[q2]].update(29, 1u8) by {
            assert(kept[ip[q2]] == keep@[ip[q2]]@);
        }
        assert(ip.no_duplicates());
        assert(redundant_tail(frames@, kept));
        assert(payload@ == payload_of(*old(self), id, data@));
        assert forall|k: int| 0 <= k < kept.len() implies split_frame(
            #[trigger] kept[k],
            id,
            payload@,
            self.config.chunk_size as int,
            k,
            now_us,
        ) by {
            assert(kept[k] == keep@[k]@);
            assert(frames@[k]@ == chunk_frame(chunks@[k].header, chunks@[k].data@));
            let h = chunks@[k].header;
            assert(h == split_header(id, payload@, self.config.chunk_size as int, k, nic, now_us));
        }
        assert forall|k: int| 0 <= k < kept.len() implies first_copy_frame(#[trigger] kept[k], id, k) by {
            assert(kept[k] == keep@[k]@);
            assert(frames@[k]@ == chunk_frame(chunks@[k].header, chunks@[k].data@));
            let c = chunks@[k];
            assert(c.header.segment_id == id && c.header.chunk_id == k && !c.header.is_redundant
                && c.well_formed());
        }
        cache_insert(&mut self.segments, id, keep);
        assert(cached(self.segments)[id] == kept);
        assert forall|k: int| 0 <= k < cached(self.segments)[id].len() implies first_copy_frame(
            #[trigger] cached(self.segments)[id][k],
            id,
            k,
        ) by {
            assert(cached(self.segments)[id][k] == kept[k]);
        }
        assert forall|k: int| 0 <= k < cached(self.segments)[id].len() implies split_frame(
            #[trigger] cached(self.segments)[id][k],
            id,
            payload_of(*old(self), id, data@),
            self.config.chunk_size as int,
            k,
            now_us,
        ) by {
            assert(cached(self.segments)[id][k] == kept[k]);
        }
        assert(cached(self.segments) =~= cached(old(self).segments).insert(id, kept));
        self.next_segment_id = id + 1;
        self.stats.total_segments = self.stats.total_segments.saturating_add(1);
        self.stats.total_bytes = self.stats.total_bytes.saturating_add(data.len() as u64);
        if !self.connected {
            return Err(Error::ConnectionClosed);
        }
        self.stats.total_chunks = self.stats.total_chunks.saturating_add(n_chunks).saturating_add(
            n_redundant,
        );
        self.stats.redundant_chunks = self.stats.redundant_chunks.saturating_add(n_redundant);
        Ok((id, frames))
    }

    /// Serves a NACK: re-sends, in list order, each listed chunk of the
    /// segment if it is still cached (ids past its end are skipped), and
    /// counts the ids as losses on the NACK's link.
    pub fn handle_nack(&mut self, nack: &NackMessage, now_us: u64) -> (r: Vec<Vec<u8>>)
        requires
            old(self).wf(),
        ensures
            final(self).wf(),
            nack_served(*old(self), *final(self), *nack, r@.map_values(|f: Vec<u8>| f@), now_us),
    {
        self.stats.total_nacks = self.stats.total_nacks.saturating_add(1);
        self.stats.last_nack_time_us = Some(now_us);
        self.last_nack_us = Some(now_us);
        self.path_manager.record_loss(nack.nic_id, nack.missing_chunk_ids.len() as u64);
        let mut frames: Vec<Vec<u8>> = Vec::new();
        let cachedv = match cache_get(&self.segments, nack.segment_id) {
            None => {
                assert(frames@.map_values(|f: Vec<u8>| f@) =~= Seq::<Seq<u8>>::empty());
                return frames;
            },
            Some(v) => v,
        };
        let ghost fv = crate::cache::frames_view(cachedv@);
        let ids = &nack.missing_chunk_ids;
        let mut k: usize = 0;
        while k < ids.len()
            invariant
                k <= ids@.len(),
                fv == crate::cache::frames_view(cachedv@),
                frames@.map_values(|f: Vec<u8>| f@) == retransmit_frames(
                    fv,
                    ids@.subrange(0, k as int),
                ),
            decreases ids@.len() - k,
        {
            let ghost before = frames@;
            assert(ids@.subrange(0, k + 1).drop_last() =~= ids@.subrange(0, k as int));
            let id = ids[k] as usize;
            if id < cachedv.len() {
                frames.push(crate::chunk::copy_bytes(cachedv[id].as_slice()));
                assert(frames@.map_values(|f: Vec<u8>| f@) =~= before.map_values(
                    |f: Vec<u8>| f@,
                ).push(fv[id as int]));
            }
            k = k + 1;
        }
        assert(ids@.subrange(0, ids@.len() as int) =~= ids@);
        self.retransmitted = self.retransmitted.saturating_add(frames.len() as u64);
        self.stats.retransmitted_chunks = self.stats.retransmitted_chunks.saturating_add(
            frames.len() as u64,
        );
        self.stats.total_chunks = self.stats.total_chunks.saturating_add(frames.len() as u64);
        frames
    }

    /// Drops a confirmed segment from the cache and counts it once.
    pub fn handle_segment_complete(&mut self, msg: &SegmentCompleteMessage)
        requires
            old(self).wf(),
        ensures
            final(self).wf(),
            final(self).connected == old(self).connected,
            final(self).data_size == old(self).data_size,
            final(self).next_segment_id == old(self).next_segment_id,
            cached(final(self).segments) == cached(old(self).segments).remove(msg.segment_id),
            final(self).confirmed == if cached(old(self).segments).contains_key(msg.segment_id) {
                crate::stats::sat_add(old(self).confirmed, 1)
            } else {
                old(self).confirmed
            },
    {
        match cache_remove(&mut self.segments, msg.segment_id) {
            Some(_) => {
                self.confirmed = self.confirmed.saturating_add(1);
                self.stats.completed_segments = self.stats.completed_segments.saturating_add(1);
            },
            None => {},
        }
    }

    /// Feeds a FlowControl report to the pacing loop; a segment is taken as
    /// `chunks_per_segment * chunk_size` bytes.
    pub fn handle_flow_control(&mut self, fc: &FlowControlMessage, now_us: u64)
        requires
            old(self).wf(),
        ensures
            final(self).wf(),
            crate::congestion::flow_post(old(self).congestion, final(self).congestion, *fc, now_us, sender_bps(old(self).config)),
            cached(final(self).segments) == cached(old(self).segments),
            final(self).next_segment_id == old(self).next_segment_id,
            final(self).connected == old(self).connected,
            final(self).data_size == old(self).data_size,
            final(self).config == old(self).config,
    {
        let cps = self.config.chunks_per_segment();
        assert(cps as u128 * self.config.chunk_size as u128 <= u64::MAX as u128 * u64::MAX as u128)
            by (nonlinear_arith)
            requires
                cps <= u64::MAX,
                self.config.chunk_size <= u64::MAX,
        ;
        let per = cps as u128 * self.config.chunk_size as u128;
        let bytes_per_segment: u64 = if per > u64::MAX as u128 {
            u64::MAX
        } else {
            per as u64
        };
        self.congestion.handle_flow_control(fc, now_us, bytes_per_segment);
    }

    /// Handles one control frame from the peer at `now_us` (see `handled`):
    /// Init connects and is answered with the InitAck for the source; a Nack
    /// is served; a SegmentComplete evicts its segment; a FlowControl paces;
    /// a Heartbeat is answered; Close disconnects. A frame that does not
    /// decode is refused with the decoder's error and changes nothing.
    pub fn handle_control_message(&mut self, bytes: &[u8], now_us: u64) -> (r: Result<
        SenderAction,
        Error,
    >)
        requires
            old(self).wf(),
        ensures
            final(self).wf(),
            final(self).data_size == old(self).data_size,
            crate::message::decode_header(bytes@) is Err ==> r == Err::<SenderAction, Error>(
                crate::message::decode_header(bytes@)->Err_0,
            ),
            (exists|m: Message| decodes_to(bytes@, m)) ==> r is Ok,
            r matches Ok(a) ==> exists|m: Message|
                decodes_to(bytes@, m) && #[trigger] handled(*old(self), *final(self), m, a, now_us),
            r is Err ==> cached(final(self).segments) == cached(old(self).segments) && final(self).connected
                == old(self).connected && final(self).next_segment_id == old(self).next_segment_id,
    {
        let msg = Message::from_bytes(bytes)?;
        let ghost gm = msg;
        let ghost s0 = *self;
        match msg {
            Message::Init(init) => {
                let seg = self.config.segment_size as u32;
                let chunk = self.config.chunk_size as u16;
                let mut ack = InitAckMessage::with_client_timestamp(
                    self.data_size,
                    chunk,
                    seg,
                    self.current_redundancy,
                    init.timestamp_us,
                    now_us,
                );
                match &self.crypto {
                    Some(c) => {
                        ack.encryption_enabled = true;
                        ack.server_public_key = c.local_public_key;
                        let sealed = seg as u64 + 28;
                        let cps = (sealed + chunk as u64 - 1) / chunk as u64;
                        assert(cps <= u32::MAX) by (nonlinear_arith)
                            requires
                                cps == (sealed + chunk - 1) / chunk as int,
                                sealed <= u32::MAX,
                                chunk >= 1,
                        ;
                        ack.chunks_per_segment = cps as u32;
                    },
                    None => {},
                }
                self.connected = true;
                let f = ack.to_bytes();
                assert(f@ == crate::message::frame_of(
                    MessageType::InitAck,
                    init_ack_reply(s0, init.timestamp_us, now_us),
                ));
                let a = SenderAction::Reply(f);
                assert(handled(s0, *self, gm, a, now_us));
                Ok(a)
            },
            Message::Nack(nack) => {
                let a = SenderAction::Retransmit(self.handle_nack(&nack, now_us));
                assert(handled(s0, *self, gm, a, now_us));
                Ok(a)
            },
            Message::SegmentComplete(done) => {
                self.handle_segment_complete(&done);
                assert(handled(s0, *self, gm, SenderAction::Nothing, now_us));
                Ok(SenderAction::Nothing)
            },
            Message::FlowControl(fc) => {
                self.handle_flow_control(&fc, now_us);
                assert(handled(s0, *self, gm, SenderAction::Nothing, now_us));
                Ok(SenderAction::Nothing)
            },
            Message::Heartbeat(hb) => {
                let reply = HeartbeatMessage::new(hb.sequence, now_us);
                let a = SenderAction::Reply(reply.to_bytes());
                assert(handled(s0, *self, gm, a, now_us));
                Ok(a)
            },
            Message::Close => {
                self.connected = false;
                assert(handled(s0, *self, gm, SenderAction::Closed, now_us));
                Ok(SenderAction::Closed)
            },
            _ => {
                assert(handled(s0, *self, gm, SenderAction::Nothing, now_us));
                Ok(SenderAction::Nothing)
            },
        }
    }

    /// Sets the redundancy from the worst link's loss rate.
    pub fn update_redundancy(&mut self)
        requires
            old(self).wf(),
        ensures
            final(self).wf(),
            cached(final(self).segments) == cached(old(self).segments),
            old(self).path_manager.config.min_redundancy_ratio <= final(self).current_redundancy
                <= old(self).path_manager.config.max_redundancy_ratio,
            final(self).current_redundancy == crate::config::redundancy_for(
                old(self).path_manager.config.base_redundancy_ratio,
                old(self).path_manager.config.min_redundancy_ratio,
                old(self).path_manager.config.max_redundancy_ratio,
                crate::multipath::max_loss(old(self).path_manager.stats@) as u32,
            ),
    {
        self.current_redundancy = self.path_manager.calculate_redundancy();
    }

    /// Whether the transfer is over at `now_us`: segments were produced and
    /// every one is confirmed; or 30 s passed since the last NACK with at
    /// least one chunk re-sent; or the deadline (`size / 5 MiB/s + 60 s`, at
    /// least 120 s) passed.
    pub fn should_finish(&self, now_us: u64) -> (r: bool)
        ensures
            now_us >= self.start_us && now_us - self.start_us > send_deadline_s(self.data_size)
                * 1_000_000 ==> r,
            self.next_segment_id > 1 && no_entries(cached(self.segments)) ==> r,
            (self.last_nack_us matches Some(t) && now_us >= t && now_us - t > 30_000_000
                && self.retransmitted > 0) ==> r,
            r ==> (now_us >= self.start_us && now_us - self.start_us > send_deadline_s(self.data_size)
                * 1_000_000) || (self.next_segment_id > 1 && no_entries(cached(self.segments))) || (
            self.last_nack_us matches Some(t) && now_us >= t && now_us - t > 30_000_000
                && self.retransmitted > 0),
    {
        if self.next_segment_id > 1 && cache_is_empty(&self.segments) {
            return true;
        }
        match self.last_nack_us {
            Some(t) => {
                if now_us >= t && now_us - t > 30_000_000 && self.retransmitted > 0 {
                    return true;
                }
            },
            None => {},
        }
        let d = self.data_size / 5242880 + 60;
        let deadline_s: u64 = if d < 120 {
            120
        } else {
            d
        };
        now_us >= self.start_us && (now_us - self.start_us) as u128 > deadline_s as u128 * 1_000_000
    }

    /// Microseconds that `batch_bytes` take at the current pacing rate.
    pub fn batch_delay_us(&self, batch_bytes: u64) -> (r: u64)
        requires
            self.wf(),
        ensures
            r == batch_bytes as int * 1_000_000 / self.congestion.send_rate as int,
    {
        self.congestion.batch_delay_us(batch_bytes)
    }

    /// Produces every segment of `data` in order (see `send_data`) and
    /// returns all their frames; stops at the first segment that fails.
    pub fn send_file(&mut self, data: &[u8], now_us: u64) -> (r: Result<Vec<Vec<u8>>, Error>)
        requires
            old(self).wf(),
            0 < old(self).config.segment_size,
            old(self).config.segment_size + 28 <= u32::MAX,
            old(self).next_segment_id + data@.len() + 2 < u64::MAX,
        ensures
            final(self).wf(),
            final(self).connected == old(self).connected,
            old(self).crypto is None && old(self).connected ==> r is Ok && final(self).next_segment_id
                == old(self).next_segment_id + crate::message::segment_count(
                data@.len() as int,
                old(self).config.segment_size as int,
            ),
            !old(self).connected && data@.len() > 0 ==> r is Err,
            old(self).crypto is None && old(self).connected ==> forall|k: int|
                0 <= k < crate::message::segment_count(
                    data@.len() as int,
                    old(self).config.segment_size as int,
                ) ==> #[trigger] segment_cached(
                    cached(final(self).segments),
                    (old(self).next_segment_id + k) as u64,
                    data@,
                    old(self).config.segment_size as int,
                    old(self).config.chunk_size as int,
                    k,
                    now_us,
                ),
            old(self).crypto is None && old(self).connected ==> (r matches Ok(frames) && (forall|k: int, q: int|
                0 <= k < crate::message::segment_count(
                    data@.len() as int,
                    old(self).config.segment_size as int,
                ) && 0 <= q < cached(final(self).segments)[(old(self).next_segment_id + k) as u64].len()
                    ==> frames_contain(
                    frames@,
                    #[trigger] cached(final(self).segments)[(old(self).next_segment_id + k) as u64][q],
                ))),
    {
        let size = self.config.segment_size;
        let len = data.len();
        let ghost base = self.next_segment_id;
        let mut frames: Vec<Vec<u8>> = Vec::new();
        let mut start: usize = 0;
        let mut k: u64 = 0;
        while start < len
            invariant
                self.wf(),
                self.connected == old(self).connected,
                self.crypto is None <==> old(self).crypto is None,
                self.config.segment_size == size,
                0 < size,
                size + 28 <= u32::MAX,
                len == data@.len(),
                start <= len,
                k <= start,
                start as int == if k * size <= len {
                    k * size
                } else {
                    len as int
                },
                k > 0 ==> (k - 1) * size < len,
                base == old(self).next_segment_id,
                base + len + 2 < u64::MAX,
                !old(self).connected ==> k == 0,
                self.next_segment_id <= base + k,
                old(self).crypto is None ==> self.next_segment_id == base + k,
                self.config.chunk_size == old(self).config.chunk_size,
                old(self).crypto is None && old(self).connected ==> forall|j: int|
                    0 <= j < k ==> #[trigger] segment_cached(
                        cached(self.segments),
                        (base + j) as u64,
                        data@,
                        size as int,
                        self.config.chunk_size as int,
                        j,
                        now_us,
                    ),
                old(self).crypto is None && old(self).connected ==> forall|j: int, q: int|
                    0 <= j < k && 0 <= q < cached(self.segments)[(base + j) as u64].len() ==> frames_contain(
                        frames@,
                        #[trigger] cached(self.segments)[(base + j) as u64][q],
                    ),
            decreases len - start,
        {
            let ghost before = cached(self.segments);
            let ghost s_before = *self;
            let end = if len - start <= size {
                len
            } else {
                start + size
            };
            let piece = vstd::slice::slice_subrange(data, start, end);
            let ghost fr0 = frames@;
            match self.send_data(piece, now_us) {
                Ok((_, mut f)) => {
                    let ghost fv = f@;
                    frames.append(&mut f);
                    assert(frames@ == fr0 + fv);
                    proof {
                        if old(self).crypto is None && old(self).connected {
                            let id = (base + k) as u64;
                            assert forall|j: int, q: int|
                                0 <= j < k + 1 && 0 <= q < cached(self.segments)[(base + j) as u64].len()
                                    implies frames_contain(
                                frames@,
                                #[trigger] cached(self.segments)[(base + j) as u64][q],
                            ) by {
                                if j < k {
                                    assert((base + j) as u64 != id);
                                    assert(cached(self.segments)[(base + j) as u64] == before[(base + j) as u64]);
                                    assert(frames_contain(fr0, before[(base + j) as u64][q]));
                                    let i = choose|i: int| 0 <= i < fr0.len() && #[trigger] fr0[i]@ == before[(base + j) as u64][q];
                                    assert(frames@[i] == fr0[i]);
                                } else {
                                    assert(fv[q]@ == cached(self.segments)[id][q]);
                                    assert(frames@[fr0.len() + q] == fv[q]);
                                }
                            }
                        }
                    }
                },
                Err(e) => {
                    return Err(e);
                },
            }
            assert((k + 1) * size == k * size + size) by (nonlinear_arith);
            assert(k * size < len);
            proof {
                if old(self).crypto is None && old(self).connected {
                    let id = (base + k) as u64;
                    assert(s_before.next_segment_id == id);
                    assert(piece@ =~= crate::receiver::source_slice(data@, size as int, k as int));
                    assert(payload_of(s_before, id, piece@) == piece@);
                    assert forall|j: int| 0 <= j < k + 1 implies #[trigger] segment_cached(
                        cached(self.segments),
                        (base + j) as u64,
                        data@,
                        size as int,
                        self.config.chunk_size as int,
                        j,
                        now_us,
                    ) by {
                        if j < k {
                            assert(segment_cached(before, (base + j) as u64, data@, size as int, self.config.chunk_size as int, j, now_us));
                            assert((base + j) as u64 != id);
                            assert(cached(self.segments)[(base + j) as u64] == before[(base + j) as u64]);
                        } else {
                            assert(cached(self.segments).contains_key(id));
                        }
                    }
                }
            }
            start = end;
            k = k + 1;
        }
        proof {
            if old(self).crypto is None {
                assert(k == crate::message::segment_count(len as int, size as int)) by (nonlinear_arith)
                    requires
                        start as int == if k * size <= len {
                            k * size
                        } else {
                            len as int
                        },
                        start == len,
                        k > 0 ==> (k - 1) * size < len,
                        k == 0 ==> len == 0,
                        size > 0,
                ;
            }
        }
        Ok(frames)
    }

    pub fn stop(&mut self)
        ensures
            !final(self).running,
    {
        self.running = false;
    }

    /// The session's totals.
    pub fn get_stats(&self) -> (r: &TransferStats)
        ensures
            *r == self.stats,
    {
        &self.stats
    }

    pub fn current_redundancy_ratio(&self) -> (r: u32)
        ensures
            r == self.current_redundancy,
    {
        self.current_redundancy
    }
}

/// Byte range of segment `id` (from 1) of a source of `len` bytes.
pub fn segment_range(len: usize, segment_size: usize, id: u64) -> (r: (usize, usize))
    requires
        segment_size > 0,
        id >= 1,
    ensures
        r.0 <= r.1 <= len,
        r.0 as int == if (id - 1) * segment_size >= len {
            len as int
        } else {
            (id - 1) * segment_size
        },
        r.1 as int == if r.0 + segment_size >= len {
            len as int
        } else {
            r.0 + segment_size
        },
{
    assert((id - 1) as u128 * segment_size as u128 <= u64::MAX as u128 * u64::MAX as u128)
        by (nonlinear_arith)
        requires
            id >= 1,
            segment_size <= u64::MAX,
    ;
    let start128 = (id - 1) as u128 * segment_size as u128;
    let start: usize = if start128 >= len as u128 {
        len
    } else {
        start128 as usize
    };
    let end: usize = if len - start <= segment_size {
        len
    } else {
        start + segment_size
    };
    (start, end)
}

} // verus!
