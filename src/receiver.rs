//! Receiving side of a session: chunk admission, segment assembly and
//! decryption, NACK planning, progress reports and termination.
//!
//! The engine is driven by its caller, which owns the socket and the clock:
//! it hands in decoded chunks with the time they arrived, asks for the NACK
//! and FlowControl frames to send on each tick, and asks whether to stop.
use crate::chunk::{
    after_insert, clear_indices, crc32_of, Chunk, ChunkHeader, Segment, SegmentView,
};
use crate::crypto::CryptoSession;
use crate::error::Error;
use crate::message::{FlowControlMessage, InitAckMessage, NackMessage};
use vstd::prelude::*;

verus! {

/// Most chunks a segment may declare; a session or chunk declaring more is
/// refused (`ReceiverSession::new` returns `Malformed`, `handle_chunk`
/// `Inconsistent`).
pub const MAX_CHUNKS_PER_SEGMENT: u32 = 1_000_000;

/// Most segments a session may declare; `ReceiverSession::new` refuses more
/// with `Malformed`. The per-segment state is a vector indexed by id.
pub const MAX_SEGMENTS: u64 = 16_777_216;

/// Bytes an AEAD seal adds to a segment: nonce and tag.
pub const SEAL_OVERHEAD: u32 = 28;

/// Segments a NACK round may name.
pub const NACKS_PER_ROUND: usize = 50;

/// What became of one chunk.
#[derive(Debug, Clone, Copy, PartialEq, Eq, Structural)]
pub enum ChunkOutcome {
    /// Its segment id is not one of this session's.
    OutOfRange,
    /// Its segment is already assembled.
    AlreadyAssembled,
    /// Its sizes disagree with earlier chunks of its segment or are too large.
    Inconsistent,
    /// Its id is past the end, it arrived before, or its CRC fails.
    Ignored,
    /// It was stored; the segment is not complete yet.
    Accepted,
    /// It completed its segment, which is now assembled.
    Completed,
    /// It completed its segment, which failed to open; the segment is
    /// dropped and will be asked for again.
    SealRejected,
}

/// The plan of one NACK: a segment id, the chunk ids asked for, and the
/// segment's receive ratio.
pub open spec fn nack_view(m: NackMessage) -> (u64, Seq<u32>, u32) {
    (m.segment_id, m.missing_chunk_ids@, m.receive_ratio)
}

/// NACKs for partially received segments among the first `n` slots, in id
/// order: each lists the segment's missing ids.
pub open spec fn partial_plan(slots: Seq<Option<Segment>>, n: int) -> Seq<(u64, Seq<u32>, u32)>
    decreases n,
{
    if n <= 0 {
        Seq::empty()
    } else {
        partial_plan(slots, n - 1) + match slots[n - 1] {
            Some(s) => {
                let m = clear_indices(s.received_chunks@, s.total_chunks as int);
                if m.len() > 0 {
                    seq![(n as u64, m, (s.received_count as int * 1_000_000 / s.total_chunks as int) as u32)]
                } else {
                    Seq::empty()
                }
            },
            None => Seq::empty(),
        }
    }
}

/// Every chunk id of a segment: `0..count`.
pub open spec fn all_ids(count: u32) -> Seq<u32> {
    Seq::new(count as nat, |k: int| k as u32)
}

/// NACKs for segments not seen at all among the first `n` slots, in id
/// order: each lists every chunk id.
pub open spec fn unseen_plan(
    slots: Seq<Option<Segment>>,
    done: Seq<Option<Vec<u8>>>,
    n: int,
    per_segment: u32,
) -> Seq<(u64, Seq<u32>, u32)>
    decreases n,
{
    if n <= 0 {
        Seq::empty()
    } else {
        unseen_plan(slots, done, n - 1, per_segment) + if slots[n - 1] is None && done[n - 1] is None {
            seq![(n as u64, all_ids(per_segment), 0u32)]
        } else {
            Seq::empty()
        }
    }
}

/// At most the first `k` items.
pub open spec fn at_most<T>(s: Seq<T>, k: int) -> Seq<T> {
    if s.len() <= k {
        s
    } else {
        s.take(k)
    }
}

pub open spec fn count_some<T>(s: Seq<Option<T>>) -> nat
    decreases s.len(),
{
    if s.len() == 0 {
        0
    } else {
        count_some(s.drop_last()) + if s.last() is Some {
            1nat
        } else {
            0
        }
    }
}

/// The bytes of the assembled segments, in id order.
pub open spec fn concat_done(s: Seq<Option<Vec<u8>>>) -> Seq<u8>
    decreases s.len(),
{
    if s.len() == 0 {
        Seq::empty()
    } else {
        concat_done(s.drop_last()) + match s.last() {
            Some(v) => v@,
            None => Seq::empty(),
        }
    }
}

/// The segment a chunk lands in: the one under assembly, or an empty one
/// shaped by the chunk's header.
pub open spec fn base_view(slot: Option<Segment>, h: ChunkHeader) -> SegmentView {
    match slot {
        Some(s) => s.view(),
        None => SegmentView {
            data: Seq::new(h.segment_size as nat, |i: int| 0u8),
            received: Seq::new(h.total_chunks as nat, |i: int| false),
            received_count: 0,
        },
    }
}

proof fn lemma_partial_prefix(slots: Seq<Option<Segment>>, i: int, j: int)
    requires
        0 <= i <= j,
    ensures
        partial_plan(slots, i) =~= partial_plan(slots, j).take(partial_plan(slots, i).len() as int),
        partial_plan(slots, i).len() <= partial_plan(slots, j).len(),
    decreases j - i,
{
    if i < j {
        lemma_partial_prefix(slots, i, j - 1);
    }
}

proof fn lemma_unseen_prefix(
    slots: Seq<Option<Segment>>,
    done: Seq<Option<Vec<u8>>>,
    i: int,
    j: int,
    c: u32,
)
    requires
        0 <= i <= j,
    ensures
        unseen_plan(slots, done, i, c) =~= unseen_plan(slots, done, j, c).take(
            unseen_plan(slots, done, i, c).len() as int,
        ),
        unseen_plan(slots, done, i, c).len() <= unseen_plan(slots, done, j, c).len(),
    decreases j - i,
{
    if i < j {
        lemma_unseen_prefix(slots, done, i, j - 1, c);
    }
}

proof fn lemma_count_some_update<T>(s: Seq<Option<T>>, i: int, x: T)
    requires
        0 <= i < s.len(),
        s[i] is None,
    ensures
        count_some(s.update(i, Some(x))) == count_some(s) + 1,
    decreases s.len(),
{
    let u = s.update(i, Some(x));
    if i == s.len() - 1 {
        assert(u.drop_last() =~= s.drop_last());
    } else {
        assert(u.drop_last() =~= s.drop_last().update(i, Some(x)));
        lemma_count_some_update(s.drop_last(), i, x);
    }
}

proof fn lemma_count_some_le<T>(s: Seq<Option<T>>)
    ensures
        count_some(s) <= s.len(),
    decreases s.len(),
{
    if s.len() > 0 {
        lemma_count_some_le(s.drop_last());
    }
}

/// Parameters fixed by the handshake.
#[derive(Debug, Clone, Copy)]
pub struct SessionParams {
    pub total_file_size: u64,
    pub segment_size: u32,
    pub chunk_size: u16,
    pub chunks_per_segment: u32,
    pub total_segments: u64,
}

/// Why a receiver stops.
#[derive(Debug, Clone, Copy, PartialEq, Eq, Structural)]
pub enum Termination {
    /// Every segment is assembled.
    Complete,
    /// 10 s without data with at least 95% assembled.
    MostlyComplete,
    /// 60 s without data.
    Idle,
    /// The session's deadline passed.
    Deadline,
}

/// Session deadline in seconds: `total / 3 MiB/s + 120`, at least 180.
pub open spec fn receive_deadline_s(total_file_size: u64) -> int {
    let d = total_file_size as int / 3145728 + 120;
    if d < 180 {
        180
    } else {
        d
    }
}

/// The receiver's session record.
pub struct ReceiverSession {
    pub params: SessionParams,
    /// Segments under assembly, by `id - 1`.
    pub in_progress: Vec<Option<Segment>>,
    /// Assembled (and opened) segments, by `id - 1`.
    pub assembled: Vec<Option<Vec<u8>>>,
    pub assembled_count: u64,
    pub crypto: Option<CryptoSession>,
    pub chunks_received: u64,
    pub duplicates: u64,
    pub nacks_sent: u64,
    pub start_us: u64,
    pub last_chunk_us: u64,
}

impl ReceiverSession {
    /// Largest segment the session accepts, sealed or not.
    pub open spec fn max_segment_bytes(&self) -> int {
        self.params.segment_size + if self.crypto is Some {
            SEAL_OVERHEAD as int
        } else {
            0
        }
    }

    pub open spec fn wf(&self) -> bool {
        &&& self.in_progress@.len() == self.params.total_segments
        &&& self.assembled@.len() == self.params.total_segments
        &&& self.params.total_segments <= MAX_SEGMENTS
        &&& self.params.chunks_per_segment <= MAX_CHUNKS_PER_SEGMENT
        &&& self.assembled_count == count_some(self.assembled@)
        &&& forall|i: int|
            0 <= i < self.in_progress@.len() ==> (#[trigger] self.in_progress@[i] matches Some(s)
                ==> {
                &&& s.wf()
                &&& s.id == i + 1
                &&& s.total_chunks <= MAX_CHUNKS_PER_SEGMENT
                &&& s.received_count < s.total_chunks
                &&& self.assembled@[i] is None
            })
    }

    /// A session for the parameters of an InitAck, with `crypto` when the
    /// session is encrypted. Refuses parameters with a zero size or more
    /// chunks or segments than the limits.
    pub fn new(ack: &InitAckMessage, crypto: Option<CryptoSession>, now_us: u64) -> (r: Result<
        ReceiverSession,
        Error,
    >)
        ensures
            r is Ok <==> (ack.chunk_size > 0 && ack.segment_size > 0 && ack.chunks_per_segment
                <= MAX_CHUNKS_PER_SEGMENT && ack.total_segments <= MAX_SEGMENTS),
            r is Err ==> r == Err::<ReceiverSession, Error>(Error::Malformed),
            r matches Ok(s) ==> {
                &&& s.wf()
                &&& s.params.total_segments == ack.total_segments
                &&& s.params.total_file_size == ack.total_file_size
                &&& s.params.segment_size == ack.segment_size
                &&& s.params.chunks_per_segment == ack.chunks_per_segment
                &&& s.assembled_count == 0
                &&& s.start_us == now_us
                &&& s.last_chunk_us == now_us
                &&& forall|i: int|
                    0 <= i < s.in_progress@.len() ==> s.in_progress@[i] is None
                        && s.assembled@[i] is None
            },
    {
        if ack.chunk_size == 0 || ack.segment_size == 0 || ack.chunks_per_segment
            > MAX_CHUNKS_PER_SEGMENT || ack.total_segments > MAX_SEGMENTS {
            return Err(Error::Malformed);
        }
        let n = ack.total_segments as usize;
        let mut in_progress: Vec<Option<Segment>> = Vec::new();
        let mut assembled: Vec<Option<Vec<u8>>> = Vec::new();
        let mut i: usize = 0;
        while i < n
            invariant
                i <= n,
                in_progress@.len() == i,
                assembled@.len() == i,
                forall|k: int| 0 <= k < i ==> in_progress@[k] is None && assembled@[k] is None,
            decreases n - i,
        {
            in_progress.push(None);
            assembled.push(None);
            i = i + 1;
        }
        proof {
            lemma_count_none(assembled@);
        }
        Ok(
            ReceiverSession {
                params: SessionParams {
                    total_file_size: ack.total_file_size,
                    segment_size: ack.segment_size,
                    chunk_size: ack.chunk_size,
                    chunks_per_segment: ack.chunks_per_segment,
                    total_segments: ack.total_segments,
                },
                in_progress,
                assembled,
                assembled_count: 0,
                crypto,
                chunks_received: 0,
                duplicates: 0,
                nacks_sent: 0,
                start_us: now_us,
                last_chunk_us: now_us,
            },
        )
    }

    /// Plaintext length of segment `sid`: a full segment, or what is left of
    /// the data for the last one.
    pub open spec fn plain_len(&self, sid: u64) -> int {
        let start = (sid - 1) * self.params.segment_size;
        let left = self.params.total_file_size - start;
        if left <= 0 {
            0
        } else if left < self.params.segment_size {
            left
        } else {
            self.params.segment_size as int
        }
    }

    fn expected_plain_len(&self, sid: u64) -> (r: usize)
        requires
            1 <= sid,
        ensures
            r == self.plain_len(sid),
    {
        assert((sid - 1) as u128 * self.params.segment_size as u128 <= u64::MAX as u128 * u32::MAX as u128)
            by (nonlinear_arith)
            requires
                sid >= 1,
        ;
        let start: u128 = (sid - 1) as u128 * self.params.segment_size as u128;
        let total = self.params.total_file_size as u128;
        if total <= start {
            0
        } else if total - start < self.params.segment_size as u128 {
            (total - start) as usize
        } else {
            self.params.segment_size as usize
        }
    }

    /// Admits one chunk that arrived at `now_us`.
    ///
    /// A chunk is refused when its segment id is outside `1..=total_segments`,
    /// when its segment is already assembled, when its CRC fails (nothing
    /// changes), or when its sizes disagree with its segment's (or, for a new
    /// segment, declare no chunk or exceed the limits). Otherwise it
    /// is inserted into its segment (a new one shaped by its header if none
    /// is under assembly), as `Segment::insert_chunk` says. A segment whose
    /// every chunk has arrived is assembled: opened first when the session
    /// is encrypted, and dropped if it does not open to its expected length.
    pub fn handle_chunk(&mut self, chunk: &Chunk, now_us: u64) -> (r: ChunkOutcome)
        requires
            old(self).wf(),
        ensures
            final(self).wf(),
            final(self).last_chunk_us == now_us,
            final(self).params == old(self).params,
            final(self).crypto == old(self).crypto,
            final(self).start_us == old(self).start_us,
            final(self).nacks_sent == old(self).nacks_sent,
            r == ChunkOutcome::Accepted || r == ChunkOutcome::Completed || r
                == ChunkOutcome::SealRejected ==> final(self).chunks_received == crate::stats::sat_add(
                old(self).chunks_received,
                1,
            ) && final(self).duplicates == old(self).duplicates,
            !(r == ChunkOutcome::Accepted || r == ChunkOutcome::Completed || r
                == ChunkOutcome::SealRejected) ==> final(self).chunks_received == old(self).chunks_received,
            r == ChunkOutcome::OutOfRange || r == ChunkOutcome::AlreadyAssembled || r
                == ChunkOutcome::Inconsistent || crate::chunk::crc32_of(chunk.data@) != chunk.header.crc32
                ==> final(self).duplicates == old(self).duplicates && final(self).chunks_received == old(self).chunks_received,
            ({
                let h = chunk.header;
                let sid = h.segment_id;
                let i = sid - 1;
                if sid == 0 || sid > old(self).params.total_segments {
                    &&& r == ChunkOutcome::OutOfRange
                    &&& final(self).in_progress@ == old(self).in_progress@
                    &&& final(self).assembled@ == old(self).assembled@
                } else if old(self).assembled@[i] is Some {
                    &&& r == ChunkOutcome::AlreadyAssembled
                    &&& final(self).in_progress@ == old(self).in_progress@
                    &&& final(self).assembled@ == old(self).assembled@
                } else if crc32_of(chunk.data@) != h.crc32 {
                    &&& r == ChunkOutcome::Ignored
                    &&& final(self).in_progress@ == old(self).in_progress@
                    &&& final(self).assembled@ == old(self).assembled@
                } else if (old(self).in_progress@[i] matches Some(s) && (s.total_chunks
                    != h.total_chunks || s.total_size != h.segment_size)) || (old(self).in_progress@[i] is None && (h.total_chunks == 0 || h.total_chunks > MAX_CHUNKS_PER_SEGMENT
                    || h.segment_size > old(self).max_segment_bytes())) {
                    &&& r == ChunkOutcome::Inconsistent
                    &&& final(self).in_progress@ == old(self).in_progress@
                    &&& final(self).assembled@ == old(self).assembled@
                } else {
                    let v = after_insert(base_view(old(self).in_progress@[i], h), h, chunk.data@);
                    let complete = v.received_count == v.received.len();
                    &&& (forall|j: int|
                        0 <= j < old(self).in_progress@.len() && j != i ==> final(self).in_progress@[j] == old(self).in_progress@[j] && final(self).assembled@[j]
                            == old(self).assembled@[j])
                    &&& (!complete ==> (final(self).in_progress@[i] matches Some(s) && s.view() == v)
                        && final(self).assembled@[i] is None && (r == ChunkOutcome::Accepted
                        || r == ChunkOutcome::Ignored))
                    &&& (r == ChunkOutcome::Ignored <==> v == base_view(
                        old(self).in_progress@[i],
                        h,
                    ) && !complete)
                    &&& (complete ==> final(self).in_progress@[i] is None)
                    &&& (complete && old(self).crypto is None ==> r == ChunkOutcome::Completed
                        && (final(self).assembled@[i] matches Some(b) && b@ == v.data))
                    &&& (complete && old(self).crypto is Some ==> (r == ChunkOutcome::Completed
                        && (final(self).assembled@[i] matches Some(b) && b@.len() == old(self).plain_len(sid)
                        && v.data.len() >= 28 && b@ == crate::crypto::chacha_open(
                            old(self).crypto->Some_0.cipher.key_view(),
                            v.data.subrange(0, 12),
                            v.data.subrange(12, v.data.len() as int),
                        ))) || (r == ChunkOutcome::SealRejected && final(self).assembled@[i] is None))
                    &&& (complete && old(self).crypto is Some ==> forall|p: Seq<u8>|
                        v.data.len() >= 28 && crate::crypto::sealable(p) && p.len() == old(self).plain_len(sid)
                            && v.data.subrange(12, v.data.len() as int) == #[trigger] crate::crypto::chacha_seal(
                            old(self).crypto->Some_0.cipher.key_view(),
                            v.data.subrange(0, 12),
                            p,
                        ) ==> r == ChunkOutcome::Completed && (final(self).assembled@[i] matches Some(b)
                            && b@ == p))
                }
            }),
    {
        self.last_chunk_us = now_us;
        let h = chunk.header;
        let sid = h.segment_id;
        if sid == 0 || sid > self.params.total_segments {
            return ChunkOutcome::OutOfRange;
        }
        let i = (sid - 1) as usize;
        if self.assembled[i].is_some() {
            return ChunkOutcome::AlreadyAssembled;
        }
        if !chunk.verify_crc() {
            return ChunkOutcome::Ignored;
        }
        let max_bytes: u64 = self.params.segment_size as u64 + if self.crypto.is_some() {
            SEAL_OVERHEAD as u64
        } else {
            0
        };
        let ghost old_slots = self.in_progress@;
        let slot = self.in_progress[i].take();
        assert(self.in_progress@ == old_slots.update(i as int, None));
        let mut seg = match slot {
            Some(s) => {
                if s.total_chunks != h.total_chunks || s.total_size as u64 != h.segment_size as u64 {
                    self.in_progress.set(i, Some(s));
                    assert(self.in_progress@ =~= old_slots);
                    return ChunkOutcome::Inconsistent;
                }
                s
            },
            None => {
                if h.total_chunks == 0 || h.total_chunks > MAX_CHUNKS_PER_SEGMENT
                    || h.segment_size as u64 > max_bytes {
                    assert(self.in_progress@ =~= old_slots);
                    return ChunkOutcome::Inconsistent;
                }
                let fresh = Segment::new_for_receive(
                    sid,
                    h.segment_size as usize,
                    h.total_chunks,
                    now_us,
                );
                assert(fresh.view() == base_view(old_slots[i as int], h));
                fresh
            },
        };
        assert(seg.view() == base_view(old_slots[i as int], h));
        let ghost base = seg.view();
        let inserted = seg.insert_chunk(chunk);
        assert(inserted ==> seg.view().received_count == base.received_count + 1);
        assert(!inserted ==> seg.view() == base);
        if inserted {
            self.chunks_received = self.chunks_received.saturating_add(1);
        } else {
            self.duplicates = self.duplicates.saturating_add(1);
        }
        assert(seg.view() == after_insert(base_view(old_slots[i as int], h), h, chunk.data@));
        if !seg.is_complete() {
            assert(inserted ==> seg.view() != base);
            proof {
                crate::chunk::lemma_count_set_bounds(seg.received_chunks@);
            }
            self.in_progress.set(i, Some(seg));
            return if inserted {
                ChunkOutcome::Accepted
            } else {
                ChunkOutcome::Ignored
            };
        }
        proof {
            crate::chunk::lemma_count_set_bounds(seg.received_chunks@);
        }
        let data = seg.into_data();
        let stored: Option<Vec<u8>> = match &self.crypto {
            Some(c) => {
                let expected = self.expected_plain_len(sid);
                match c.decrypt_expecting(data.as_slice(), expected) {
                    Ok(p) => Some(p),
                    Err(_) => None,
                }
            },
            None => Some(data),
        };
        match stored {
            Some(bytes) => {
                proof {
                    lemma_count_some_update(self.assembled@, i as int, bytes);
                    lemma_count_some_le(self.assembled@.update(i as int, Some(bytes)));
                }
                self.assembled.set(i, Some(bytes));
                self.assembled_count = self.assembled_count + 1;
                ChunkOutcome::Completed
            },
            None => ChunkOutcome::SealRejected,
        }
    }

    /// The NACKs of one round, at most `max` of them: first one per partially
    /// received segment listing its missing ids, then one per segment not yet
    /// seen listing ids `0..chunks_per_segment`, each group in id order.
    pub fn nack_plan(&self, max: usize) -> (r: Vec<NackMessage>)
        requires
            self.wf(),
        ensures
            r@.map_values(|m: NackMessage| nack_view(m)) == at_most(
                partial_plan(self.in_progress@, self.in_progress@.len() as int) + unseen_plan(
                    self.in_progress@,
                    self.assembled@,
                    self.assembled@.len() as int,
                    self.params.chunks_per_segment,
                ),
                max as int,
            ),
            forall|k: int|
                0 <= k < r@.len() ==> (#[trigger] r@[k]).missing_chunk_ids@.len()
                    <= MAX_CHUNKS_PER_SEGMENT && r@[k].nic_id == 0,
    {
        let slots = &self.in_progress;
        let n = slots.len();
        let ghost p = partial_plan(slots@, n as int);
        let ghost u = unseen_plan(slots@, self.assembled@, n as int, self.params.chunks_per_segment);
        let mut out: Vec<NackMessage> = Vec::new();
        let mut i: usize = 0;
        while i < n && out.len() < max
            invariant
                self.wf(),
                slots == &self.in_progress,
                n == slots@.len(),
                i <= n,
                out@.len() <= max,
                out@.map_values(|m: NackMessage| nack_view(m)) == partial_plan(slots@, i as int),
                forall|k: int|
                    0 <= k < out@.len() ==> (#[trigger] out@[k]).missing_chunk_ids@.len()
                        <= MAX_CHUNKS_PER_SEGMENT && out@[k].nic_id == 0,
            decreases n - i,
        {
            let ghost before = out@;
            match &slots[i] {
                Some(seg) => {
                    let missing = seg.missing_chunk_ids();
                    if missing.len() > 0 {
                        proof {
                            crate::chunk::lemma_clear_indices_len(
                                seg.received_chunks@,
                                seg.total_chunks as int,
                            );
                        }
                        let ratio = seg.receive_ratio();
                        out.push(NackMessage::new((i + 1) as u64, missing, ratio, 0));
                    }
                },
                None => {},
            }
            assert(out@.map_values(|m: NackMessage| nack_view(m)) =~= partial_plan(
                slots@,
                i + 1,
            ));
            i = i + 1;
        }
        proof {
            lemma_partial_prefix(slots@, i as int, n as int);
        }
        if out.len() >= max {
            assert(out@.map_values(|m: NackMessage| nack_view(m)) =~= at_most(p + u, max as int));
            return out;
        }
        assert(i == n);
        let ghost plen = out@.len();
        let per = self.params.chunks_per_segment;
        let mut j: usize = 0;
        while j < n && out.len() < max
            invariant
                self.wf(),
                slots == &self.in_progress,
                n == slots@.len(),
                n == self.assembled@.len(),
                per == self.params.chunks_per_segment,
                per <= MAX_CHUNKS_PER_SEGMENT,
                j <= n,
                out@.len() <= max,
                plen == p.len(),
                p == partial_plan(slots@, n as int),
                out@.map_values(|m: NackMessage| nack_view(m)) == p + unseen_plan(
                    slots@,
                    self.assembled@,
                    j as int,
                    per,
                ),
                forall|k: int|
                    0 <= k < out@.len() ==> (#[trigger] out@[k]).missing_chunk_ids@.len()
                        <= MAX_CHUNKS_PER_SEGMENT && out@[k].nic_id == 0,
            decreases n - j,
        {
            let ghost before = out@;
            let ghost u0 = unseen_plan(slots@, self.assembled@, j as int, per);
            if slots[j].is_none() && self.assembled[j].is_none() {
                let ids = all_chunk_ids(per);
                let m = NackMessage::new((j + 1) as u64, ids, 0, 0);
                assert(nack_view(m) == ((j + 1) as u64, all_ids(per), 0u32));
                out.push(m);
                assert(out@.map_values(|m: NackMessage| nack_view(m)) =~= before.map_values(
                    |m: NackMessage| nack_view(m),
                ).push(nack_view(m)));
                assert(unseen_plan(slots@, self.assembled@, j + 1, per) =~= u0.push(
                    ((j + 1) as u64, all_ids(per), 0u32),
                ));
            } else {
                assert(unseen_plan(slots@, self.assembled@, j + 1, per) =~= u0);
            }
            assert(out@.map_values(|m: NackMessage| nack_view(m)) =~= p + unseen_plan(
                slots@,
                self.assembled@,
                j + 1,
                per,
            ));
            j = j + 1;
        }
        proof {
            lemma_unseen_prefix(slots@, self.assembled@, j as int, n as int, per);
        }
        assert(out@.map_values(|m: NackMessage| nack_view(m)) =~= at_most(p + u, max as int));
        out
    }

    /// The NACK frames of one round (see `nack_plan`, at most
    /// `NACKS_PER_ROUND`), counted in `nacks_sent`.
    pub fn nack_frames(&mut self) -> (r: Vec<Vec<u8>>)
        requires
            old(self).wf(),
        ensures
            final(self).wf(),
            final(self).in_progress@ == old(self).in_progress@,
            final(self).assembled@ == old(self).assembled@,
            final(self).params == old(self).params,
            final(self).crypto == old(self).crypto,
            final(self).start_us == old(self).start_us,
            final(self).last_chunk_us == old(self).last_chunk_us,
            final(self).nacks_sent == crate::stats::sat_add(old(self).nacks_sent, r@.len() as int),
            ({
                let plan = at_most(
                    partial_plan(old(self).in_progress@, old(self).in_progress@.len() as int)
                        + unseen_plan(
                        old(self).in_progress@,
                        old(self).assembled@,
                        old(self).assembled@.len() as int,
                        old(self).params.chunks_per_segment,
                    ),
                    NACKS_PER_ROUND as int,
                );
                &&& r@.len() == plan.len()
                &&& forall|k: int|
                    0 <= k < r@.len() ==> (#[trigger] r@[k])@ == crate::message::frame_of(
                        crate::message::MessageType::Nack,
                        crate::message::nack_body(plan[k].0, plan[k].1, plan[k].2, 0),
                    )
            }),
    {
        let plan = self.nack_plan(NACKS_PER_ROUND);
        let ghost pv = plan@.map_values(|m: NackMessage| nack_view(m));
        let mut frames: Vec<Vec<u8>> = Vec::new();
        let mut k: usize = 0;
        while k < plan.len()
            invariant
                k <= plan@.len(),
                pv == plan@.map_values(|m: NackMessage| nack_view(m)),
                frames@.len() == k,
                forall|q: int|
                    0 <= q < plan@.len() ==> (#[trigger] plan@[q]).missing_chunk_ids@.len()
                        <= MAX_CHUNKS_PER_SEGMENT && plan@[q].nic_id == 0,
                forall|q: int|
                    0 <= q < k ==> (#[trigger] frames@[q])@ == crate::message::frame_of(
                        crate::message::MessageType::Nack,
                        crate::message::nack_body(pv[q].0, pv[q].1, pv[q].2, 0),
                    ),
            decreases plan@.len() - k,
        {
            let f = plan[k].to_bytes();
            frames.push(f);
            k = k + 1;
        }
        self.nacks_sent = self.nacks_sent.saturating_add(frames.len() as u64);
        frames
    }

    /// Segments under assembly.
    pub fn in_progress_count(&self) -> (r: u64)
        requires
            self.wf(),
        ensures
            r == count_some(self.in_progress@),
    {
        let mut c: u64 = 0;
        let mut i: usize = 0;
        while i < self.in_progress.len()
            invariant
                self.wf(),
                i <= self.in_progress@.len(),
                c == count_some(self.in_progress@.subrange(0, i as int)),
                c <= i,
            decreases self.in_progress@.len() - i,
        {
            assert(self.in_progress@.subrange(0, i + 1).drop_last() =~= self.in_progress@.subrange(
                0,
                i as int,
            ));
            if self.in_progress[i].is_some() {
                c = c + 1;
            }
            i = i + 1;
        }
        assert(self.in_progress@.subrange(0, self.in_progress@.len() as int) =~= self.in_progress@);
        c
    }

    /// Highest assembled segment id, 0 if none.
    pub fn max_completed_id(&self) -> (r: u64)
        requires
            self.wf(),
        ensures
            r == 0 <==> forall|i: int| 0 <= i < self.assembled@.len() ==> self.assembled@[i] is None,
            r > 0 ==> self.assembled@[r - 1] is Some && forall|i: int|
                r <= i < self.assembled@.len() ==> self.assembled@[i] is None,
    {
        let mut i: usize = self.assembled.len();
        while i > 0
            invariant
                i <= self.assembled@.len(),
                forall|k: int| i <= k < self.assembled@.len() ==> self.assembled@[k] is None,
            decreases i,
        {
            if self.assembled[i - 1].is_some() {
                return i as u64;
            }
            i = i - 1;
        }
        0
    }

    /// The periodic progress report: completed count, highest completed id,
    /// segments under assembly, no loss estimate, and the completed count as
    /// the processing rate.
    pub fn flow_control(&self) -> (r: FlowControlMessage)
        requires
            self.wf(),
        ensures
            r.buffer_available as int == if self.assembled_count > u32::MAX {
                u32::MAX as int
            } else {
                self.assembled_count as int
            },
            r.processing_rate == r.buffer_available,
            r.segments_in_progress as int == if count_some(self.in_progress@) > u32::MAX {
                u32::MAX as int
            } else {
                count_some(self.in_progress@) as int
            },
            r.loss_rate == 0,
            r.last_completed_segment == 0 <==> forall|i: int|
                0 <= i < self.assembled@.len() ==> self.assembled@[i] is None,
            r.last_completed_segment > 0 ==> self.assembled@[r.last_completed_segment - 1] is Some,
    {
        let done: u32 = if self.assembled_count > u32::MAX as u64 {
            u32::MAX
        } else {
            self.assembled_count as u32
        };
        let busy = self.in_progress_count();
        let busy32: u32 = if busy > u32::MAX as u64 {
            u32::MAX
        } else {
            busy as u32
        };
        FlowControlMessage::new(done, self.max_completed_id(), busy32, 0, done)
    }

    /// Whether to stop at `now_us`, and why: every segment assembled; 10 s
    /// without data with at least 95% assembled; 60 s without data; or the
    /// session deadline (`total / 3 MiB/s + 120 s`, at least 180 s) passed.
    pub fn should_terminate(&self, now_us: u64) -> (r: Option<Termination>)
        ensures
            self.assembled_count >= self.params.total_segments ==> r == Some(Termination::Complete),
            now_us >= self.start_us && now_us - self.start_us > receive_deadline_s(
                self.params.total_file_size,
            ) * 1_000_000 ==> r is Some,
            ({
                let idle = if now_us >= self.last_chunk_us {
                    now_us - self.last_chunk_us
                } else {
                    0
                };
                &&& (self.assembled_count < self.params.total_segments && idle > 10_000_000
                    && self.assembled_count * 100 >= self.params.total_segments * 95 ==> r == Some(
                    Termination::MostlyComplete,
                ))
                &&& (idle > 60_000_000 ==> r is Some)
                &&& (r is None <==> !(self.assembled_count >= self.params.total_segments || (idle
                    > 10_000_000 && self.assembled_count * 100 >= self.params.total_segments * 95)
                    || idle > 60_000_000 || (now_us >= self.start_us && now_us - self.start_us
                    > receive_deadline_s(self.params.total_file_size) * 1_000_000)))
            }),
    {
        if self.assembled_count >= self.params.total_segments {
            return Some(Termination::Complete);
        }
        let idle = if now_us >= self.last_chunk_us {
            now_us - self.last_chunk_us
        } else {
            0
        };
        if idle > 10_000_000 && self.assembled_count as u128 * 100 >= self.params.total_segments as u128
            * 95 {
            return Some(Termination::MostlyComplete);
        }
        if idle > 60_000_000 {
            return Some(Termination::Idle);
        }
        let d = self.params.total_file_size / 3145728 + 120;
        let deadline_s: u64 = if d < 180 {
            180
        } else {
            d
        };
        if now_us >= self.start_us && (now_us - self.start_us) as u128 > deadline_s as u128
            * 1_000_000 {
            return Some(Termination::Deadline);
        }
        None
    }

    /// The assembled segments' bytes in id order.
    pub fn output(&self) -> (r: Vec<u8>)
        ensures
            r@ == concat_done(self.assembled@),
    {
        let mut out: Vec<u8> = Vec::new();
        let mut i: usize = 0;
        while i < self.assembled.len()
            invariant
                i <= self.assembled@.len(),
                out@ == concat_done(self.assembled@.subrange(0, i as int)),
            decreases self.assembled@.len() - i,
        {
            assert(self.assembled@.subrange(0, i + 1).drop_last() =~= self.assembled@.subrange(
                0,
                i as int,
            ));
            match &self.assembled[i] {
                Some(v) => {
                    out.extend_from_slice(v.as_slice());
                },
                None => {},
            }
            i = i + 1;
        }
        assert(self.assembled@.subrange(0, self.assembled@.len() as int) =~= self.assembled@);
        out
    }

    /// Segments assembled so far.
    pub fn completed_segments(&self) -> (r: u64)
        ensures
            r == self.assembled_count,
    {
        self.assembled_count
    }

    /// Share of the file delivered, in parts per million, at most one whole;
    /// 0 for an empty file.
    pub fn success_rate(&self, delivered: u64) -> (r: u32)
        ensures
            self.params.total_file_size == 0 ==> r == 0,
            self.params.total_file_size > 0 ==> r as int == if delivered
                >= self.params.total_file_size {
                1_000_000
            } else {
                delivered as int * 1_000_000 / self.params.total_file_size as int
            },
    {
        if self.params.total_file_size == 0 {
            return 0;
        }
        if delivered >= self.params.total_file_size {
            return 1_000_000;
        }
        crate::stats::share_ppm(delivered, self.params.total_file_size)
    }
}

/// The initial bandwidth hint in MB/s from the handshake RTT: 400 bytes over
/// the RTT, scaled by 1000, clamped to 50..=500; 100 without an RTT.
pub fn initial_rate_hint(rtt_us: u64) -> (r: u32)
    ensures
        rtt_us == 0 ==> r == 100,
        rtt_us > 0 ==> {
            let mb = 400_000_000_000int / rtt_us as int / 1_000_000;
            r as int == if mb < 50 {
                50
            } else if mb > 500 {
                500
            } else {
                mb
            }
        },
{
    if rtt_us == 0 {
        return 100;
    }
    let mb = 400_000_000_000u64 / rtt_us / 1_000_000;
    if mb < 50 {
        50
    } else if mb > 500 {
        500
    } else {
        mb as u32
    }
}

/// Ids `0..count`.
pub fn all_chunk_ids(count: u32) -> (r: Vec<u32>)
    ensures
        r@ == all_ids(count),
{
    let mut ids: Vec<u32> = Vec::new();
    let mut c: u32 = 0;
    while c < count
        invariant
            c <= count,
            ids@ == Seq::new(c as nat, |k: int| k as u32),
        decreases count - c,
    {
        ids.push(c);
        c = c + 1;
        assert(ids@ =~= Seq::new(c as nat, |k: int| k as u32));
    }
    ids
}

proof fn lemma_count_none<T>(s: Seq<Option<T>>)
    requires
        forall|k: int| 0 <= k < s.len() ==> s[k] is None,
    ensures
        count_some(s) == 0,
    decreases s.len(),
{
    if s.len() > 0 {
        lemma_count_none(s.drop_last());
    }
}

/// Segment `i` (from 0) of a source: the bytes from `i * size`, at most `size`.
pub open spec fn source_slice(d: Seq<u8>, size: int, i: int) -> Seq<u8> {
    let start = i * size;
    let end = if start + size < d.len() {
        start + size
    } else {
        d.len() as int
    };
    d.subrange(start, end)
}

proof fn lemma_concat_prefix(d: Seq<u8>, size: int, slots: Seq<Option<Vec<u8>>>, k: int)
    requires
        size > 0,
        0 <= k <= slots.len(),
        slots.len() == crate::message::segment_count(d.len() as int, size),
        forall|i: int|
            0 <= i < slots.len() ==> (#[trigger] slots[i] matches Some(v) && v@ == source_slice(
                d,
                size,
                i,
            )),
    ensures
        k * size <= d.len() ==> concat_done(slots.subrange(0, k)) == d.subrange(0, k * size),
        k * size > d.len() ==> concat_done(slots.subrange(0, k)) == d,
    decreases k,
{
    if k == 0 {
        assert(slots.subrange(0, 0) =~= Seq::<Option<Vec<u8>>>::empty());
        assert(0 * size == 0) by (nonlinear_arith);
        assert(d.subrange(0, 0) =~= Seq::<u8>::empty());
    } else {
        let p = k - 1;
        lemma_concat_prefix(d, size, slots, p);
        assert(slots.subrange(0, k).drop_last() =~= slots.subrange(0, p));
        assert(k * size == p * size + size) by (nonlinear_arith)
            requires
                k == p + 1,
        ;
        assert(p * size < d.len()) by (nonlinear_arith)
            requires
                p < slots.len(),
                slots.len() == (d.len() + size - 1) / size,
                size > 0,
                p >= 0,
        ;
        let prev = concat_done(slots.subrange(0, p));
        assert(prev == d.subrange(0, p * size));
        let piece = source_slice(d, size, p);
        if k * size <= d.len() {
            assert(prev + piece =~= d.subrange(0, k * size));
        } else {
            assert(prev + piece =~= d);
        }
    }
}

/// The output of a session whose every segment holds its slice of the
/// source is the source: `concat(slices) == d`.
pub proof fn lemma_output_is_source(d: Seq<u8>, size: int, slots: Seq<Option<Vec<u8>>>)
    requires
        size > 0,
        slots.len() == crate::message::segment_count(d.len() as int, size),
        forall|i: int|
            0 <= i < slots.len() ==> (#[trigger] slots[i] matches Some(v) && v@ == source_slice(
                d,
                size,
                i,
            )),
    ensures
        concat_done(slots) == d,
{
    let n = slots.len() as int;
    lemma_concat_prefix(d, size, slots, n);
    assert(slots.subrange(0, n) =~= slots);
    assert(n * size >= d.len()) by (nonlinear_arith)
        requires
            n == (d.len() + size - 1) / size,
            size > 0,
    ;
    if n * size == d.len() {
        assert(d.subrange(0, n * size) =~= d);
    }
}

proof fn lemma_clear_indices_has(bits: Seq<bool>, n: int, m: int)
    requires
        0 <= m < n <= bits.len(),
        n <= u32::MAX + 1,
        !bits[m],
    ensures
        clear_indices(bits, n).contains(m as u32),
    decreases n,
{
    if m < n - 1 {
        lemma_clear_indices_has(bits, n - 1, m);
        let prev = clear_indices(bits, n - 1);
        let k = choose|k: int| 0 <= k < prev.len() && prev[k] == m as u32;
        assert(clear_indices(bits, n)[k] == m as u32);
    } else {
        let all = clear_indices(bits, n);
        assert(all[all.len() - 1] == m as u32);
    }
}

proof fn lemma_partial_plan_has(slots: Seq<Option<Segment>>, n: int, i: int)
    requires
        0 <= i < n <= slots.len(),
        slots[i] matches Some(s) && clear_indices(s.received_chunks@, s.total_chunks as int).len() > 0,
    ensures
        exists|k: int|
            0 <= k < partial_plan(slots, n).len() && (#[trigger] partial_plan(slots, n)[k]).0 == (i
                + 1) as u64 && partial_plan(slots, n)[k].1 == clear_indices(
                slots[i]->Some_0.received_chunks@,
                slots[i]->Some_0.total_chunks as int,
            ),
    decreases n,
{
    if i < n - 1 {
        lemma_partial_plan_has(slots, n - 1, i);
        let prev = partial_plan(slots, n - 1);
        let k = choose|k: int|
            0 <= k < prev.len() && (#[trigger] prev[k]).0 == (i + 1) as u64 && prev[k].1
                == clear_indices(
                slots[i]->Some_0.received_chunks@,
                slots[i]->Some_0.total_chunks as int,
            );
        assert(partial_plan(slots, n)[k] == prev[k]);
    } else {
        let all = partial_plan(slots, n);
        assert(all[all.len() - 1].0 == (i + 1) as u64);
    }
}

proof fn lemma_unseen_plan_has(
    slots: Seq<Option<Segment>>,
    done: Seq<Option<Vec<u8>>>,
    n: int,
    per: u32,
    i: int,
)
    requires
        0 <= i < n <= slots.len(),
        n <= done.len(),
        slots[i] is None,
        done[i] is None,
    ensures
        exists|k: int|
            0 <= k < unseen_plan(slots, done, n, per).len() && (#[trigger] unseen_plan(
                slots,
                done,
                n,
                per,
            )[k]).0 == (i + 1) as u64 && unseen_plan(slots, done, n, per)[k].1 == all_ids(per),
    decreases n,
{
    if i < n - 1 {
        lemma_unseen_plan_has(slots, done, n - 1, per, i);
        let prev = unseen_plan(slots, done, n - 1, per);
        let k = choose|k: int|
            0 <= k < prev.len() && (#[trigger] prev[k]).0 == (i + 1) as u64 && prev[k].1 == all_ids(
                per,
            );
        assert(unseen_plan(slots, done, n, per)[k] == prev[k]);
    } else {
        let all = unseen_plan(slots, done, n, per);
        assert(all[all.len() - 1].0 == (i + 1) as u64);
    }
}

/// A round of NACKs covers what is missing: for a segment under assembly,
/// its plan lists every chunk id not yet received; for a segment neither
/// under assembly nor assembled, its plan lists every id. (A round names
/// at most `NACKS_PER_ROUND` segments; this is the full plan before that cut.)
pub proof fn lemma_nacks_cover_missing(
    slots: Seq<Option<Segment>>,
    done: Seq<Option<Vec<u8>>>,
    per: u32,
    i: int,
    m: int,
)
    requires
        0 <= i < slots.len(),
        slots.len() == done.len(),
        slots[i] matches Some(s) ==> s.wf() && 0 <= m < s.total_chunks && !s.received_chunks@[m],
        slots[i] is None ==> done[i] is None,
    ensures
        ({
            let plan = partial_plan(slots, slots.len() as int) + unseen_plan(
                slots,
                done,
                slots.len() as int,
                per,
            );
            exists|k: int|
                0 <= k < plan.len() && (#[trigger] plan[k]).0 == (i + 1) as u64 && (slots[i] is Some
                    ==> plan[k].1.contains(m as u32)) && (slots[i] is None ==> plan[k].1 == all_ids(
                    per,
                ))
        }),
{
    let n = slots.len() as int;
    let p = partial_plan(slots, n);
    let u = unseen_plan(slots, done, n, per);
    let plan = p + u;
    match slots[i] {
        Some(s) => {
            lemma_clear_indices_has(s.received_chunks@, s.total_chunks as int, m);
            lemma_partial_plan_has(slots, n, i);
            let k = choose|k: int|
                0 <= k < p.len() && (#[trigger] p[k]).0 == (i + 1) as u64 && p[k].1 == clear_indices(
                    s.received_chunks@,
                    s.total_chunks as int,
                );
            assert(plan[k] == p[k]);
        },
        None => {
            lemma_unseen_plan_has(slots, done, n, per, i);
            let k = choose|k: int|
                0 <= k < u.len() && (#[trigger] u[k]).0 == (i + 1) as u64 && u[k].1 == all_ids(per);
            assert(plan[p.len() + k] == u[k]);
        },
    }
}

/// Interval between FlowControl reports.
pub const REPORT_INTERVAL_US: u64 = 100_000;

/// Quiet time since the last chunk after which a NACK round is due.
pub const NACK_IDLE_US: u64 = 200_000;

/// Base interval between NACK rounds.
pub const NACK_INTERVAL_US: u64 = 100_000;

/// `a - b`, or 0 when `b` is later.
pub open spec fn since(a: u64, b: u64) -> int {
    if a >= b {
        a - b
    } else {
        0
    }
}

/// What a receiver's periodic tick sends.
#[derive(Debug, Clone, Copy, PartialEq, Eq, Structural)]
pub struct TickActions {
    pub send_report: bool,
    pub send_nacks: bool,
}

/// When the receiver last sent a report and a NACK round.
#[derive(Debug, Clone, Copy)]
pub struct ReceiverTimers {
    pub last_report_us: u64,
    pub last_nack_us: u64,
}

impl ReceiverTimers {
    pub fn new(now_us: u64) -> (r: ReceiverTimers)
        ensures
            r.last_report_us == now_us,
            r.last_nack_us == now_us,
    {
        ReceiverTimers { last_report_us: now_us, last_nack_us: now_us }
    }

    /// A tick at `now_us`, the last chunk having arrived at `last_chunk_us`:
    /// a report is due every `REPORT_INTERVAL_US`; a NACK round once
    /// `NACK_IDLE_US` passed since the last chunk, or `NACK_INTERVAL_US` since
    /// the last round. Each due action restarts its timer.
    pub fn on_tick(&mut self, now_us: u64, last_chunk_us: u64) -> (r: TickActions)
        ensures
            r.send_report == (since(now_us, old(self).last_report_us) >= REPORT_INTERVAL_US),
            r.send_nacks == (since(now_us, last_chunk_us) >= NACK_IDLE_US || since(
                now_us,
                old(self).last_nack_us,
            ) >= NACK_INTERVAL_US),
            final(self).last_report_us == if r.send_report {
                now_us
            } else {
                old(self).last_report_us
            },
            final(self).last_nack_us == if r.send_nacks {
                now_us
            } else {
                old(self).last_nack_us
            },
    {
        let since_report = if now_us >= self.last_report_us {
            now_us - self.last_report_us
        } else {
            0
        };
        let since_chunk = if now_us >= last_chunk_us {
            now_us - last_chunk_us
        } else {
            0
        };
        let since_nack = if now_us >= self.last_nack_us {
            now_us - self.last_nack_us
        } else {
            0
        };
        let send_report = since_report >= REPORT_INTERVAL_US;
        let send_nacks = since_chunk >= NACK_IDLE_US || since_nack >= NACK_INTERVAL_US;
        if send_report {
            self.last_report_us = now_us;
        }
        if send_nacks {
            self.last_nack_us = now_us;
        }
        TickActions { send_report, send_nacks }
    }
}

/// Segments not yet assembled among the first `n`.
pub open spec fn unassembled(done: Seq<Option<Vec<u8>>>, n: int) -> nat
    decreases n,
{
    if n <= 0 {
        0
    } else {
        unassembled(done, n - 1) + if done[n - 1] is None {
            1nat
        } else {
            0
        }
    }
}

proof fn lemma_plan_len(slots: Seq<Option<Segment>>, done: Seq<Option<Vec<u8>>>, n: int, per: u32)
    requires
        0 <= n <= slots.len(),
        slots.len() == done.len(),
        forall|i: int| 0 <= i < slots.len() ==> slots[i] is Some ==> #[trigger] done[i] is None,
    ensures
        partial_plan(slots, n).len() + unseen_plan(slots, done, n, per).len() <= unassembled(done, n),
    decreases n,
{
    if n > 0 {
        lemma_plan_len(slots, done, n - 1, per);
        assert(slots[n - 1] is Some ==> done[n - 1] is None);
    }
}

/// A NACK round with room for every unassembled segment is not cut: when at
/// most `max` segments are unassembled, the round's plan is the full plan,
/// which `lemma_nacks_cover_missing` shows covers every missing chunk.
pub proof fn lemma_round_not_cut(
    slots: Seq<Option<Segment>>,
    done: Seq<Option<Vec<u8>>>,
    per: u32,
    max: int,
)
    requires
        slots.len() == done.len(),
        forall|i: int| 0 <= i < slots.len() ==> slots[i] is Some ==> #[trigger] done[i] is None,
        unassembled(done, done.len() as int) <= max,
    ensures
        at_most(
            partial_plan(slots, slots.len() as int) + unseen_plan(slots, done, done.len() as int, per),
            max,
        ) == partial_plan(slots, slots.len() as int) + unseen_plan(
            slots,
            done,
            done.len() as int,
            per,
        ),
{
    lemma_plan_len(slots, done, slots.len() as int, per);
}

} // verus!
