//! Chunks and segments: framing, CRC, splitting and assembly.
use crate::wire::{bool_byte, get_u16, get_u32, get_u64, put_u16, put_u32, put_u64};
use vstd::bytes::*;
use vstd::prelude::*;

verus! {

/// Segment identifier; the first segment of a transfer is 1.
pub type SegmentId = u64;

/// Chunk identifier: the chunk's index within its segment, from 0.
pub type ChunkId = u32;

/// Length of an encoded chunk header.
pub const CHUNK_HEADER_LEN: usize = 40;

/// What `crc32fast::hash` returns for a byte string: the CRC-32 (IEEE) checksum.
pub uninterp spec fn crc32_of(data: Seq<u8>) -> u32;

/// Relies on `crc32fast::hash`: the CRC-32 of the bytes, a function of the bytes alone.
#[verifier::external_body]
pub(crate) fn crc32_hash(data: &[u8]) -> (r: u32)
    ensures
        r == crc32_of(data@),
{
    crc32fast::hash(data)
}

/// Header of a chunk, in wire order.
#[derive(Clone, Copy, Debug, PartialEq, Eq)]
pub struct ChunkHeader {
    pub segment_id: SegmentId,
    pub chunk_id: ChunkId,
    /// Number of chunks in the owning segment.
    pub total_chunks: u32,
    /// Byte offset of this chunk within the segment.
    pub offset: u32,
    pub data_len: u16,
    /// Size of the whole segment in bytes.
    pub segment_size: u32,
    /// Link the chunk was sent on.
    pub nic_id: u8,
    pub is_redundant: bool,
    /// CRC-32 of the data.
    pub crc32: u32,
    /// Send time in microseconds.
    pub timestamp_us: u64,
}

/// The 40 header bytes: every field little-endian, in declaration order.
pub open spec fn header_bytes(h: ChunkHeader) -> Seq<u8> {
    spec_u64_to_le_bytes(h.segment_id) + spec_u32_to_le_bytes(h.chunk_id) + spec_u32_to_le_bytes(
        h.total_chunks,
    ) + spec_u32_to_le_bytes(h.offset) + spec_u16_to_le_bytes(h.data_len) + spec_u32_to_le_bytes(
        h.segment_size,
    ) + seq![h.nic_id] + seq![bool_byte(h.is_redundant)] + spec_u32_to_le_bytes(h.crc32)
        + spec_u64_to_le_bytes(h.timestamp_us)
}

/// Whether 40 bytes hold a header: the flag byte is 0 or 1.
pub open spec fn header_parses(s: Seq<u8>) -> bool {
    s.len() >= 40 && (s[27] == 0 || s[27] == 1)
}

/// The header that 40 bytes hold.
pub open spec fn parse_header(s: Seq<u8>) -> ChunkHeader {
    ChunkHeader {
        segment_id: spec_u64_from_le_bytes(s.subrange(0, 8)),
        chunk_id: spec_u32_from_le_bytes(s.subrange(8, 12)),
        total_chunks: spec_u32_from_le_bytes(s.subrange(12, 16)),
        offset: spec_u32_from_le_bytes(s.subrange(16, 20)),
        data_len: spec_u16_from_le_bytes(s.subrange(20, 22)),
        segment_size: spec_u32_from_le_bytes(s.subrange(22, 26)),
        nic_id: s[26],
        is_redundant: s[27] == 1,
        crc32: spec_u32_from_le_bytes(s.subrange(28, 32)),
        timestamp_us: spec_u64_from_le_bytes(s.subrange(32, 40)),
    }
}

/// A chunk frame: the header length as two bytes, the header, then the data.
pub open spec fn chunk_frame(h: ChunkHeader, data: Seq<u8>) -> Seq<u8> {
    spec_u16_to_le_bytes(40) + header_bytes(h) + data
}

/// The header length that a frame declares.
pub open spec fn declared_header_len(s: Seq<u8>) -> int {
    spec_u16_from_le_bytes(s.subrange(0, 2)) as int
}

/// Whether bytes hold a chunk frame: a header length, at least that many
/// header bytes, and a header that parses from them.
pub open spec fn frame_parses(s: Seq<u8>) -> bool {
    &&& s.len() >= 2
    &&& 2 + declared_header_len(s) <= s.len()
    &&& header_parses(s.subrange(2, 2 + declared_header_len(s)))
}

/// The header of a chunk frame.
pub open spec fn frame_header(s: Seq<u8>) -> ChunkHeader {
    parse_header(s.subrange(2, 2 + declared_header_len(s)))
}

/// The data of a chunk frame: everything after the declared header.
pub open spec fn frame_data(s: Seq<u8>) -> Seq<u8> {
    s.subrange(2 + declared_header_len(s), s.len() as int)
}

/// Decoding a header gives back the header that was encoded.
pub proof fn lemma_header_round_trip(h: ChunkHeader)
    ensures
        header_bytes(h).len() == 40,
        header_parses(header_bytes(h)),
        parse_header(header_bytes(h)) == h,
{
    lemma_auto_spec_u16_to_from_le_bytes();
    lemma_auto_spec_u32_to_from_le_bytes();
    lemma_auto_spec_u64_to_from_le_bytes();
    let s = header_bytes(h);
    assert(s.subrange(0, 8) =~= spec_u64_to_le_bytes(h.segment_id));
    assert(s.subrange(8, 12) =~= spec_u32_to_le_bytes(h.chunk_id));
    assert(s.subrange(12, 16) =~= spec_u32_to_le_bytes(h.total_chunks));
    assert(s.subrange(16, 20) =~= spec_u32_to_le_bytes(h.offset));
    assert(s.subrange(20, 22) =~= spec_u16_to_le_bytes(h.data_len));
    assert(s.subrange(22, 26) =~= spec_u32_to_le_bytes(h.segment_size));
    assert(s[26] == h.nic_id);
    assert(s[27] == bool_byte(h.is_redundant));
    assert(s.subrange(28, 32) =~= spec_u32_to_le_bytes(h.crc32));
    assert(s.subrange(32, 40) =~= spec_u64_to_le_bytes(h.timestamp_us));
}

/// A chunk frame decodes to the header and data it was made from.
pub proof fn lemma_chunk_frame_round_trip(h: ChunkHeader, data: Seq<u8>)
    ensures
        frame_parses(chunk_frame(h, data)),
        frame_header(chunk_frame(h, data)) == h,
        frame_data(chunk_frame(h, data)) == data,
{
    lemma_auto_spec_u16_to_from_le_bytes();
    lemma_header_round_trip(h);
    let s = chunk_frame(h, data);
    assert(s.subrange(0, 2) =~= spec_u16_to_le_bytes(40));
    assert(declared_header_len(s) == 40);
    assert(s.subrange(2, 42) =~= header_bytes(h));
    assert(s.subrange(42, s.len() as int) =~= data);
}

/// Unit of transmission: a header and a slice of one segment's bytes.
#[derive(Debug)]
pub struct Chunk {
    pub header: ChunkHeader,
    pub data: Vec<u8>,
}

impl Clone for Chunk {
    fn clone(&self) -> (r: Chunk)
        ensures
            r.header == self.header,
            r.data@ == self.data@,
    {
        Chunk { header: self.header, data: copy_bytes(self.data.as_slice()) }
    }
}

/// A fresh vector with the same bytes.
pub fn copy_bytes(s: &[u8]) -> (r: Vec<u8>)
    ensures
        r@ == s@,
{
    let mut r: Vec<u8> = Vec::with_capacity(s.len());
    r.extend_from_slice(s);
    r
}

impl Chunk {
    /// Whether this chunk is one that a sender would have built: the length
    /// and CRC fields describe the data.
    pub open spec fn well_formed(&self) -> bool {
        &&& self.header.data_len as int == self.data@.len()
        &&& self.header.crc32 == crc32_of(self.data@)
    }

    /// Builds a chunk over `data`, filling in its length and CRC-32.
    pub fn new(
        segment_id: SegmentId,
        chunk_id: ChunkId,
        total_chunks: u32,
        offset: u32,
        segment_size: u32,
        data: Vec<u8>,
        nic_id: u8,
        is_redundant: bool,
        timestamp_us: u64,
    ) -> (r: Chunk)
        requires
            data@.len() <= u16::MAX,
        ensures
            r.header == (ChunkHeader {
                segment_id,
                chunk_id,
                total_chunks,
                offset,
                data_len: data@.len() as u16,
                segment_size,
                nic_id,
                is_redundant,
                crc32: crc32_of(data@),
                timestamp_us,
            }),
            r.data@ == data@,
            r.well_formed(),
    {
        let crc32 = crc32_hash(data.as_slice());
        let data_len = data.len() as u16;
        Chunk {
            header: ChunkHeader {
                segment_id,
                chunk_id,
                total_chunks,
                offset,
                data_len,
                segment_size,
                nic_id,
                is_redundant,
                crc32,
                timestamp_us,
            },
            data,
        }
    }

    /// Encodes the chunk as a frame.
    pub fn to_bytes(&self) -> (r: Vec<u8>)
        ensures
            r@ == chunk_frame(self.header, self.data@),
    {
        let h = &self.header;
        let mut buf: Vec<u8> = Vec::new();
        put_u16(&mut buf, 40);
        put_u64(&mut buf, h.segment_id);
        put_u32(&mut buf, h.chunk_id);
        put_u32(&mut buf, h.total_chunks);
        put_u32(&mut buf, h.offset);
        put_u16(&mut buf, h.data_len);
        put_u32(&mut buf, h.segment_size);
        buf.push(h.nic_id);
        buf.push(if h.is_redundant { 1u8 } else { 0u8 });
        put_u32(&mut buf, h.crc32);
        put_u64(&mut buf, h.timestamp_us);
        buf.extend_from_slice(self.data.as_slice());
        assert(buf@ =~= chunk_frame(self.header, self.data@));
        buf
    }

    /// Decodes a chunk frame. A header longer than the fields it holds is
    /// accepted; the data is everything after it.
    pub fn from_bytes(bytes: &[u8]) -> (r: Option<Chunk>)
        ensures
            r.is_some() == frame_parses(bytes@),
            r matches Some(c) ==> c.header == frame_header(bytes@) && c.data@ == frame_data(
                bytes@,
            ),
    {
        let len = bytes.len();
        if len < 2 {
            return None;
        }
        let hlen = get_u16(bytes, 0) as usize;
        if len - 2 < hlen {
            return None;
        }
        let hs = vstd::slice::slice_subrange(bytes, 2, 2 + hlen);
        if hlen < CHUNK_HEADER_LEN || (hs[27] != 0 && hs[27] != 1) {
            return None;
        }
        let header = ChunkHeader {
            segment_id: get_u64(hs, 0),
            chunk_id: get_u32(hs, 8),
            total_chunks: get_u32(hs, 12),
            offset: get_u32(hs, 16),
            data_len: get_u16(hs, 20),
            segment_size: get_u32(hs, 22),
            nic_id: hs[26],
            is_redundant: hs[27] == 1,
            crc32: get_u32(hs, 28),
            timestamp_us: get_u64(hs, 32),
        };
        let ds = vstd::slice::slice_subrange(bytes, 2 + hlen, len);
        let data = copy_bytes(ds);
        Some(Chunk { header, data })
    }

    /// Whether the CRC field matches the data.
    pub fn verify_crc(&self) -> (r: bool)
        ensures
            r == (crc32_of(self.data@) == self.header.crc32),
    {
        crc32_hash(self.data.as_slice()) == self.header.crc32
    }
}

/// Number of set flags.
pub open spec fn count_set(bits: Seq<bool>) -> nat
    decreases bits.len(),
{
    if bits.len() == 0 {
        0
    } else {
        count_set(bits.drop_last()) + if bits.last() { 1nat } else { 0nat }
    }
}

/// Indices below `n` whose flag is clear, ascending.
pub open spec fn clear_indices(bits: Seq<bool>, n: int) -> Seq<ChunkId>
    decreases n,
{
    if n <= 0 {
        Seq::empty()
    } else {
        clear_indices(bits, n - 1) + if !bits[n - 1] {
            seq![(n - 1) as ChunkId]
        } else {
            Seq::empty()
        }
    }
}

pub proof fn lemma_clear_indices_len(bits: Seq<bool>, n: int)
    requires
        0 <= n,
    ensures
        clear_indices(bits, n).len() <= n,
    decreases n,
{
    if n > 0 {
        lemma_clear_indices_len(bits, n - 1);
    }
}

/// `buf` with `d` written over it from `off`, cut at the end of `buf`.
pub open spec fn write_at(buf: Seq<u8>, off: int, d: Seq<u8>) -> Seq<u8> {
    Seq::new(
        buf.len(),
        |i: int|
            if off <= i && i < off + d.len() {
                d[i - off]
            } else {
                buf[i]
            },
    )
}

pub proof fn lemma_count_set_bounds(bits: Seq<bool>)
    ensures
        count_set(bits) <= bits.len(),
        count_set(bits) == bits.len() <==> forall|i: int| 0 <= i < bits.len() ==> bits[i],
    decreases bits.len(),
{
    if bits.len() > 0 {
        lemma_count_set_bounds(bits.drop_last());
        if count_set(bits) == bits.len() {
            assert forall|i: int| 0 <= i < bits.len() implies bits[i] by {
                if i < bits.len() - 1 {
                    assert(bits.drop_last()[i] == bits[i]);
                }
            }
        }
        if forall|i: int| 0 <= i < bits.len() ==> bits[i] {
            assert forall|i: int| 0 <= i < bits.drop_last().len() implies bits.drop_last()[i] by {
                assert(bits[i]);
            }
        }
    }
}

pub proof fn lemma_count_set_update(bits: Seq<bool>, i: int)
    requires
        0 <= i < bits.len(),
        !bits[i],
    ensures
        count_set(bits.update(i, true)) == count_set(bits) + 1,
    decreases bits.len(),
{
    let u = bits.update(i, true);
    if i == bits.len() - 1 {
        assert(u.drop_last() =~= bits.drop_last());
    } else {
        assert(u.drop_last() =~= bits.drop_last().update(i, true));
        lemma_count_set_update(bits.drop_last(), i);
    }
}

/// The state of a segment being assembled, as plain values.
pub struct SegmentView {
    pub data: Seq<u8>,
    pub received: Seq<bool>,
    pub received_count: nat,
}

/// Whether inserting `c` changes the segment: its id is in range, it is not a
/// duplicate, and its CRC holds.
pub open spec fn admits(s: SegmentView, h: ChunkHeader, data: Seq<u8>) -> bool {
    &&& (h.chunk_id as int) < s.received.len()
    &&& !s.received[h.chunk_id as int]
    &&& crc32_of(data) == h.crc32
}

/// The segment after inserting a chunk with header `h` and bytes `data`.
pub open spec fn after_insert(s: SegmentView, h: ChunkHeader, data: Seq<u8>) -> SegmentView {
    if admits(s, h, data) {
        SegmentView {
            data: write_at(s.data, h.offset as int, data),
            received: s.received.update(h.chunk_id as int, true),
            received_count: s.received_count + 1,
        }
    } else {
        s
    }
}

/// Delivering the same chunk again leaves the segment as the first delivery
/// left it, and no delivery lowers the received count.
pub proof fn lemma_insert_idempotent(s: SegmentView, h: ChunkHeader, data: Seq<u8>)
    ensures
        after_insert(after_insert(s, h, data), h, data) == after_insert(s, h, data),
        after_insert(s, h, data).received_count >= s.received_count,
{
}

/// A chunk whose CRC field does not match its data changes nothing: it does
/// not count toward completion and does not mark its id as received.
pub proof fn lemma_crc_gate(s: SegmentView, h: ChunkHeader, data: Seq<u8>)
    requires
        crc32_of(data) != h.crc32,
    ensures
        after_insert(s, h, data) == s,
{
}

/// A segment under assembly on the receiving side.
#[derive(Debug)]
pub struct Segment {
    pub id: SegmentId,
    /// Buffer of `total_size` bytes that chunks are copied into.
    pub data: Vec<u8>,
    pub total_size: usize,
    /// Which chunk ids have arrived.
    pub received_chunks: Vec<bool>,
    pub total_chunks: u32,
    pub received_count: u32,
    /// Time the first chunk arrived, in microseconds.
    pub created_at_us: u64,
}

impl Segment {
    pub open spec fn view(&self) -> SegmentView {
        SegmentView {
            data: self.data@,
            received: self.received_chunks@,
            received_count: self.received_count as nat,
        }
    }

    /// Buffer and bitmap sizes agree with the declared sizes, and the count is
    /// the number of received ids.
    pub open spec fn wf(&self) -> bool {
        &&& self.data@.len() == self.total_size
        &&& self.received_chunks@.len() == self.total_chunks
        &&& self.received_count == count_set(self.received_chunks@)
    }

    /// An empty segment of `total_size` zero bytes expecting `total_chunks` chunks.
    pub fn new_for_receive(id: SegmentId, total_size: usize, total_chunks: u32, now_us: u64) -> (r:
        Segment)
        ensures
            r.wf(),
            r.id == id,
            r.total_size == total_size,
            r.total_chunks == total_chunks,
            r.created_at_us == now_us,
            r.data@ == Seq::new(total_size as nat, |i: int| 0u8),
            r.received_chunks@ == Seq::new(total_chunks as nat, |i: int| false),
            r.received_count == 0,
    {
        let data = vec![0u8; total_size];
        let received_chunks = vec![false; total_chunks as usize];
        let r = Segment {
            id,
            data,
            total_size,
            received_chunks,
            total_chunks,
            received_count: 0,
            created_at_us: now_us,
        };
        assert(r.data@ =~= Seq::new(total_size as nat, |i: int| 0u8));
        assert(r.received_chunks@ =~= Seq::new(total_chunks as nat, |i: int| false));
        proof {
            lemma_count_none_set(r.received_chunks@);
        }
        r
    }

    /// Inserts a chunk. Returns whether it was taken; an out-of-range id, a
    /// duplicate or a CRC mismatch leaves the segment as it was.
    pub fn insert_chunk(&mut self, chunk: &Chunk) -> (r: bool)
        requires
            old(self).wf(),
        ensures
            final(self).wf(),
            r == admits(old(self).view(), chunk.header, chunk.data@),
            final(self).view() == after_insert(old(self).view(), chunk.header, chunk.data@),
            final(self).id == old(self).id,
            final(self).total_size == old(self).total_size,
            final(self).total_chunks == old(self).total_chunks,
            final(self).created_at_us == old(self).created_at_us,
    {
        let chunk_id = chunk.header.chunk_id as usize;
        if chunk_id >= self.received_chunks.len() || self.received_chunks[chunk_id] {
            return false;
        }
        if !chunk.verify_crc() {
            return false;
        }
        let offset = chunk.header.offset as usize;
        let n = chunk.data.len();
        let ghost old_data = self.data@;
        let mut j: usize = 0;
        while j < n
            invariant
                j <= n,
                n == chunk.data@.len(),
                self.data@.len() == old_data.len(),
                self.total_size == old_data.len(),
                self.received_chunks@ == old(self).received_chunks@,
                self.received_count == old(self).received_count,
                self.total_chunks == old(self).total_chunks,
                self.id == old(self).id,
                self.created_at_us == old(self).created_at_us,
                forall|i: int|
                    0 <= i < old_data.len() ==> #[trigger] self.data@[i] == if offset <= i && i
                        < offset + j {
                        chunk.data@[i - offset]
                    } else {
                        old_data[i]
                    },
            decreases n - j,
        {
            if offset < self.total_size && j < self.total_size - offset {
                self.data.set(offset + j, chunk.data[j]);
            }
            j = j + 1;
        }
        assert(self.data@ =~= write_at(old_data, offset as int, chunk.data@));
        proof {
            lemma_count_set_update(self.received_chunks@, chunk_id as int);
            lemma_count_set_bounds(self.received_chunks@.update(chunk_id as int, true));
        }
        self.received_chunks.set(chunk_id, true);
        self.received_count = self.received_count + 1;
        true
    }

    /// Whether every chunk id has arrived.
    pub fn is_complete(&self) -> (r: bool)
        requires
            self.wf(),
        ensures
            r == forall|i: int| 0 <= i < self.total_chunks ==> self.received_chunks@[i],
    {
        proof {
            lemma_count_set_bounds(self.received_chunks@);
        }
        self.received_count >= self.total_chunks
    }

    /// The ids that have not arrived, ascending.
    pub fn missing_chunk_ids(&self) -> (r: Vec<ChunkId>)
        requires
            self.wf(),
        ensures
            r@ == clear_indices(self.received_chunks@, self.total_chunks as int),
    {
        let mut r: Vec<ChunkId> = Vec::new();
        let n = self.received_chunks.len();
        let mut i: usize = 0;
        while i < n
            invariant
                i <= n,
                n == self.received_chunks@.len(),
                n == self.total_chunks,
                r@ == clear_indices(self.received_chunks@, i as int),
            decreases n - i,
        {
            if !self.received_chunks[i] {
                r.push(i as ChunkId);
            }
            i = i + 1;
        }
        r
    }

    /// Share of chunk ids received, in parts per million; 0 for a segment of
    /// no chunks.
    pub fn receive_ratio(&self) -> (r: u32)
        requires
            self.wf(),
        ensures
            self.total_chunks == 0 ==> r == 0,
            self.total_chunks > 0 ==> r == self.received_count as int * 1_000_000
                / self.total_chunks as int,
    {
        if self.total_chunks == 0 {
            return 0;
        }
        proof {
            lemma_count_set_bounds(self.received_chunks@);
        }
        let c = self.received_count as u64;
        let t = self.total_chunks as u64;
        let q = (c * 1_000_000) / t;
        assert(q <= 1_000_000) by (nonlinear_arith)
            requires
                q as int == (c as int * 1_000_000) / t as int,
                c <= t,
                t > 0,
        ;
        q as u32
    }

    /// The assembled bytes.
    pub fn into_data(self) -> (r: Vec<u8>)
        ensures
            r@ == self.data@,
    {
        self.data
    }
}

/// No flag set counts zero.
proof fn lemma_count_none_set(bits: Seq<bool>)
    requires
        forall|i: int| 0 <= i < bits.len() ==> !bits[i],
    ensures
        count_set(bits) == 0,
    decreases bits.len(),
{
    if bits.len() > 0 {
        lemma_count_none_set(bits.drop_last());
    }
}

/// Relies on `rand::seq::SliceRandom::shuffle` with `rand::thread_rng`: the
/// slice is permuted in place by swaps, so the result holds the same items.
#[verifier::external_body]
fn shuffle_indices(v: &mut Vec<usize>)
    ensures
        final(v)@.len() == old(v)@.len(),
        forall|i: int| 0 <= i < final(v)@.len() ==> old(v)@.contains(#[trigger] final(v)@[i]),
        old(v)@.no_duplicates() ==> final(v)@.no_duplicates(),
{
    rand::seq::SliceRandom::shuffle(v.as_mut_slice(), &mut rand::thread_rng());
}

/// Number of chunks of a segment of `len` bytes: `ceil(len / chunk_size)`.
pub open spec fn chunk_count(len: int, chunk_size: int) -> int {
    (len + chunk_size - 1) / chunk_size
}

/// Length of chunk `i` of a segment of `len` bytes: `min(c, len - i*c)`.
pub open spec fn chunk_len(len: int, chunk_size: int, i: int) -> int {
    if len - i * chunk_size < chunk_size {
        len - i * chunk_size
    } else {
        chunk_size
    }
}

/// Number of redundant copies for `n` chunks at `ratio_ppm` parts per million:
/// `ceil(n * ratio)`, at most `n`.
pub open spec fn redundant_count(n: int, ratio_ppm: int) -> int {
    let c = (n * ratio_ppm + 999_999) / 1_000_000;
    if c < n {
        c
    } else {
        n
    }
}

/// The header of a redundant copy.
pub open spec fn as_redundant(h: ChunkHeader) -> ChunkHeader {
    ChunkHeader { is_redundant: true, ..h }
}

/// `redundant_count(n, ratio)` distinct chunk indices below `n`, picked at
/// random (a shuffle of `0..n`, cut).
pub fn redundant_picks(n: usize, redundancy_ppm: u32) -> (r: Vec<usize>)
    requires
        n <= u32::MAX,
    ensures
        r@.len() == redundant_count(n as int, redundancy_ppm as int),
        r@.no_duplicates(),
        forall|k: int| 0 <= k < r@.len() ==> #[trigger] r@[k] < n,
{
    assert(n as u64 * redundancy_ppm as u64 <= 0xffff_fffe_0000_0001u64) by (nonlinear_arith)
        requires
            n <= u32::MAX,
            redundancy_ppm <= u32::MAX,
    ;
    let want: u64 = (n as u64 * redundancy_ppm as u64 + 999_999) / 1_000_000;
    let count: usize = if want < n as u64 {
        want as usize
    } else {
        n
    };
    let mut indices: Vec<usize> = Vec::new();
    let mut i: usize = 0;
    while i < n
        invariant
            i <= n,
            indices@ == Seq::new(i as nat, |k: int| k as usize),
        decreases n - i,
    {
        indices.push(i);
        i = i + 1;
        assert(indices@ =~= Seq::new(i as nat, |k: int| k as usize));
    }
    let ghost before = indices@;
    assert(before.no_duplicates());
    shuffle_indices(&mut indices);
    assert forall|k: int| 0 <= k < indices@.len() implies indices@[k] < n by {
        assert(before.contains(indices@[k]));
    }
    let ghost full = indices@;
    indices.truncate(count);
    assert(indices@ =~= full.subrange(0, count as int));
    assert forall|a: int, b: int| 0 <= a < b < indices@.len() implies indices@[a] != indices@[b] by {
        assert(indices@[a] == full[a] && indices@[b] == full[b]);
    }
    indices
}

/// Splits segments into chunks on the sending side.
pub struct SegmentBuilder {
    pub chunk_size: usize,
}

impl SegmentBuilder {
    pub fn new(chunk_size: usize) -> (r: SegmentBuilder)
        ensures
            r.chunk_size == chunk_size,
    {
        SegmentBuilder { chunk_size }
    }

    /// Splits `data` into `ceil(len / chunk_size)` chunks: chunk `i` holds the
    /// bytes from `i * chunk_size`, is not redundant, and carries its CRC.
    pub fn split_into_chunks(&self, segment_id: SegmentId, data: &[u8], nic_id: u8, now_us: u64) -> (r:
        Vec<Chunk>)
        requires
            0 < self.chunk_size <= u16::MAX,
            data@.len() <= u32::MAX,
        ensures
            r@.len() == chunk_count(data@.len() as int, self.chunk_size as int),
            forall|i: int|
                #![trigger r@[i]]
                0 <= i < r@.len() ==> {
                    let off = i * self.chunk_size;
                    let n = chunk_len(data@.len() as int, self.chunk_size as int, i);
                    &&& r@[i].header == ChunkHeader {
                        segment_id,
                        chunk_id: i as u32,
                        total_chunks: r@.len() as u32,
                        offset: off as u32,
                        data_len: n as u16,
                        segment_size: data@.len() as u32,
                        nic_id,
                        is_redundant: false,
                        crc32: crc32_of(data@.subrange(off, off + n)),
                        timestamp_us: now_us,
                    }
                    &&& r@[i].data@ == data@.subrange(off, off + n)
                    &&& r@[i].well_formed()
                },
    {
        let c = self.chunk_size;
        let len = data.len();
        let total: u64 = (len as u64 + c as u64 - 1) / c as u64;
        assert(total <= u32::MAX) by (nonlinear_arith)
            requires
                total == (len as int + c as int - 1) / c as int,
                len <= u32::MAX,
                c > 0,
        ;
        let mut r: Vec<Chunk> = Vec::new();
        let mut off: usize = 0;
        let mut i: u64 = 0;
        assert(0 * c == 0) by (nonlinear_arith);
        if len > 0 {
            proof {
                lemma_next_chunk(len as int, c as int, 0, total as int);
            }
        }
        while off < len
            invariant
                c == self.chunk_size,
                0 < c <= u16::MAX,
                len == data@.len(),
                len <= u32::MAX,
                total == chunk_count(len as int, c as int),
                total <= u32::MAX,
                off as int == if i * c <= len {
                    i * c
                } else {
                    len as int
                },
                i * c <= len + c - 1,
                r@.len() == i,
                off < len ==> i < total,
                forall|k: int|
                    #![trigger r@[k]]
                    0 <= k < r@.len() ==> {
                        let o = k * c;
                        let n = chunk_len(len as int, c as int, k);
                        &&& r@[k].header == ChunkHeader {
                            segment_id,
                            chunk_id: k as u32,
                            total_chunks: total as u32,
                            offset: o as u32,
                            data_len: n as u16,
                            segment_size: len as u32,
                            nic_id,
                            is_redundant: false,
                            crc32: crc32_of(data@.subrange(o, o + n)),
                            timestamp_us: now_us,
                        }
                        &&& r@[k].data@ == data@.subrange(o, o + n)
                        &&& r@[k].well_formed()
                    },
            decreases len - off,
        {
            let n = if len - off < c { len - off } else { c };
            let piece = copy_bytes(vstd::slice::slice_subrange(data, off, off + n));
            let chunk = Chunk::new(
                segment_id,
                i as u32,
                total as u32,
                off as u32,
                len as u32,
                piece,
                nic_id,
                false,
                now_us,
            );
            r.push(chunk);
            proof {
                lemma_next_chunk(len as int, c as int, i as int, total as int);
            }
            assert(n == chunk_len(len as int, c as int, i as int));
            off = off + n;
            i = i + 1;
        }
        proof {
            lemma_chunk_count_exact(len as int, c as int, i as int);
        }
        r
    }

    /// Picks `ceil(n * ratio)` distinct chunks (at most all of them) at random
    /// and returns copies of them marked redundant.
    pub fn create_redundant_chunks(&self, chunks: &[Chunk], redundancy_ppm: u32) -> (r: Vec<Chunk>)
        requires
            chunks@.len() <= u32::MAX,
        ensures
            r@.len() == redundant_count(chunks@.len() as int, redundancy_ppm as int),
            exists|picks: Seq<int>|
                {
                    &&& picks.len() == r@.len()
                    &&& picks.no_duplicates()
                    &&& forall|k: int|
                        #![trigger r@[k]]
                        0 <= k < r@.len() ==> {
                            &&& 0 <= picks[k] < chunks@.len()
                            &&& r@[k].header == as_redundant(chunks@[picks[k]].header)
                            &&& r@[k].data@ == chunks@[picks[k]].data@
                        }
                },
    {
        let n = chunks.len();
        let indices = redundant_picks(n, redundancy_ppm);
        let count = indices.len();
        let mut r: Vec<Chunk> = Vec::new();
        let mut k: usize = 0;
        while k < count
            invariant
                k <= count,
                count == indices@.len(),
                n == chunks@.len(),
                indices@.no_duplicates(),
                forall|j: int| 0 <= j < count ==> indices@[j] < n,
                r@.len() == k,
                forall|j: int|
                    #![trigger r@[j]]
                    0 <= j < k ==> {
                        &&& r@[j].header == as_redundant(chunks@[indices@[j] as int].header)
                        &&& r@[j].data@ == chunks@[indices@[j] as int].data@
                    },
            decreases count - k,
        {
            let picked = &chunks[indices[k]];
            let mut header = picked.header;
            header.is_redundant = true;
            r.push(Chunk { header, data: copy_bytes(picked.data.as_slice()) });
            k = k + 1;
        }
        let ghost picks = Seq::new(count as nat, |j: int| indices@[j] as int);
        assert(picks.no_duplicates());
        assert(forall|j: int|
            #![trigger r@[j]]
            0 <= j < r@.len() ==> picks[j] == indices@[j] as int);
        r
    }
}

proof fn lemma_next_chunk(len: int, c: int, i: int, total: int)
    requires
        0 < c,
        0 <= i * c < len,
        total == chunk_count(len, c),
    ensures
        (i + 1) * c == i * c + c,
        (i + 1) * c <= len + c - 1,
        i * c + chunk_len(len, c, i) == if len - i * c < c {
            len
        } else {
            (i + 1) * c
        },
        (i + 1) * c < len ==> i + 1 < total,
        i < total,
{
    assert((i + 1) * c == i * c + c) by (nonlinear_arith);
    assert(i < total) by (nonlinear_arith)
        requires
            0 < c,
            i * c < len,
            total == (len + c - 1) / c,
    ;
    assert((i + 1) * c < len ==> i + 1 < total) by (nonlinear_arith)
        requires
            0 < c,
            total == (len + c - 1) / c,
    ;
}

proof fn lemma_chunk_count_exact(len: int, c: int, i: int)
    requires
        0 < c,
        0 <= len,
        i >= 0,
        i * c >= len,
        i * c <= len + c - 1,
    ensures
        i == chunk_count(len, c),
{
    assert(i == (len + c - 1) / c) by (nonlinear_arith)
        requires
            0 < c,
            i * c >= len,
            i * c <= len + c - 1,
            i >= 0,
    ;
}

/// A segment of `len` zero bytes expecting `n` chunks, none received.
pub open spec fn fresh_view(len: nat, n: nat) -> SegmentView {
    SegmentView {
        data: Seq::new(len, |i: int| 0u8),
        received: Seq::new(n, |i: int| false),
        received_count: 0,
    }
}

/// The segment after inserting the first `k` chunks, in order.
pub open spec fn insert_all(v: SegmentView, hs: Seq<ChunkHeader>, ds: Seq<Seq<u8>>, k: int) -> SegmentView
    decreases k,
{
    if k <= 0 {
        v
    } else {
        after_insert(insert_all(v, hs, ds, k - 1), hs[k - 1], ds[k - 1])
    }
}

/// Whether headers and payloads are the chunks of `d` at `chunk_size`, as
/// `SegmentBuilder::split_into_chunks` makes them.
pub open spec fn split_of(d: Seq<u8>, chunk_size: int, hs: Seq<ChunkHeader>, ds: Seq<Seq<u8>>) -> bool {
    let n = chunk_count(d.len() as int, chunk_size);
    &&& hs.len() == n
    &&& ds.len() == n
    &&& forall|i: int|
        #![trigger hs[i]]
        0 <= i < n ==> {
            &&& hs[i].chunk_id as int == i
            &&& hs[i].offset as int == i * chunk_size
            &&& ds[i] == d.subrange(i * chunk_size, i * chunk_size + chunk_len(
                d.len() as int,
                chunk_size,
                i,
            ))
            &&& hs[i].crc32 == crc32_of(ds[i])
        }
}

proof fn lemma_assemble_prefix(d: Seq<u8>, chunk_size: int, hs: Seq<ChunkHeader>, ds: Seq<Seq<u8>>, k: int)
    requires
        chunk_size > 0,
        split_of(d, chunk_size, hs, ds),
        0 <= k <= chunk_count(d.len() as int, chunk_size),
    ensures
        ({
            let n = chunk_count(d.len() as int, chunk_size);
            let a = insert_all(fresh_view(d.len(), n as nat), hs, ds, k);
            &&& a.received =~= Seq::new(n as nat, |j: int| j < k)
            &&& a.received_count == k
            &&& a.data.len() == d.len()
            &&& forall|j: int|
                0 <= j < d.len() ==> #[trigger] a.data[j] == if j < k * chunk_size {
                    d[j]
                } else {
                    0u8
                }
        }),
    decreases k,
{
    let len = d.len() as int;
    let n = chunk_count(len, chunk_size);
    let f = fresh_view(d.len(), n as nat);
    if k == 0 {
        assert(0 * chunk_size == 0) by (nonlinear_arith);
    } else {
        let p = k - 1;
        lemma_assemble_prefix(d, chunk_size, hs, ds, p);
        let a = insert_all(f, hs, ds, p);
        assert(hs[p].chunk_id as int == p);
        assert(p * chunk_size < len) by (nonlinear_arith)
            requires
                p < n,
                n == (len + chunk_size - 1) / chunk_size,
                chunk_size > 0,
                p >= 0,
        ;
        assert(k * chunk_size == p * chunk_size + chunk_size) by (nonlinear_arith)
            requires
                k == p + 1,
        ;
        assert(!a.received[p]);
        assert(admits(a, hs[p], ds[p]));
        let b = insert_all(f, hs, ds, k);
        assert(b == after_insert(a, hs[p], ds[p]));
        let cl = chunk_len(len, chunk_size, p);
        assert forall|j: int| 0 <= j < len implies #[trigger] b.data[j] == if j < k * chunk_size {
            d[j]
        } else {
            0u8
        } by {
            if p * chunk_size <= j && j < p * chunk_size + cl {
                assert(b.data[j] == ds[p][j - p * chunk_size]);
            } else {
                assert(b.data[j] == a.data[j]);
            }
        }
        assert(b.received =~= Seq::new(n as nat, |j: int| j < k));
    }
}

/// Round trip of one segment: inserting every chunk of a split of `d`, in
/// order, into an empty segment of `d`'s size accepts each chunk and
/// reassembles exactly `d`.
pub proof fn lemma_split_then_assemble(d: Seq<u8>, chunk_size: int, hs: Seq<ChunkHeader>, ds: Seq<Seq<u8>>)
    requires
        chunk_size > 0,
        split_of(d, chunk_size, hs, ds),
    ensures
        ({
            let n = chunk_count(d.len() as int, chunk_size);
            let v = insert_all(fresh_view(d.len(), n as nat), hs, ds, n);
            &&& v.data == d
            &&& v.received_count == n
            &&& forall|i: int| 0 <= i < n ==> v.received[i]
        }),
{
    let len = d.len() as int;
    let n = chunk_count(len, chunk_size);
    assert(n >= 0) by (nonlinear_arith)
        requires
            n == (len + chunk_size - 1) / chunk_size,
            len >= 0,
            chunk_size > 0,
    ;
    lemma_assemble_prefix(d, chunk_size, hs, ds, n);
    let v = insert_all(fresh_view(d.len(), n as nat), hs, ds, n);
    assert(n * chunk_size >= len) by (nonlinear_arith)
        requires
            n == (len + chunk_size - 1) / chunk_size,
            chunk_size > 0,
            len >= 0,
    ;
    assert(v.data =~= d);
    assert forall|i: int| 0 <= i < n implies v.received[i] by {
        assert(v.received[i] == (i < n));
    }
}

/// A redundant copy's frame is its original's with the flag byte (offset 29)
/// set to 1.
pub proof fn lemma_redundant_frame(h: ChunkHeader, d: Seq<u8>)
    ensures
        chunk_frame(h, d).len() > 29,
        chunk_frame(as_redundant(h), d) == chunk_frame(h, d).update(29, 1u8),
{
    lemma_auto_spec_u16_to_from_le_bytes();
    lemma_auto_spec_u32_to_from_le_bytes();
    lemma_auto_spec_u64_to_from_le_bytes();
    lemma_header_round_trip(h);
    lemma_header_round_trip(as_redundant(h));
    let a = header_bytes(as_redundant(h));
    let b = header_bytes(h);
    assert(a =~= b.update(27, 1u8));
    assert(chunk_frame(as_redundant(h), d) =~= chunk_frame(h, d).update(29, 1u8));
}

/// The segment after inserting chunks in the order `order` lists their
/// indices (an index may repeat).
pub open spec fn insert_in_order(
    v: SegmentView,
    hs: Seq<ChunkHeader>,
    ds: Seq<Seq<u8>>,
    order: Seq<int>,
) -> SegmentView
    decreases order.len(),
{
    if order.len() == 0 {
        v
    } else {
        let k = order.last();
        after_insert(insert_in_order(v, hs, ds, order.drop_last()), hs[k], ds[k])
    }
}

proof fn lemma_byte_in_chunk(len: int, c: int, n: int, j: int)
    requires
        c > 0,
        n == chunk_count(len, c),
        0 <= j < len,
    ensures
        0 <= j / c < n,
{
    assert(0 <= j / c < n) by (nonlinear_arith)
        requires
            c > 0,
            0 <= j < len,
            n == (len + c - 1) / c,
    ;
}

proof fn lemma_chunk_of_byte(len: int, c: int, n: int, j: int, k: int)
    requires
        c > 0,
        n == chunk_count(len, c),
        0 <= j < len,
        0 <= k < n,
    ensures
        (j / c == k) <==> (k * c <= j && j < k * c + chunk_len(len, c, k)),
        0 <= j / c < n,
{
    assert((j / c == k) <==> (k * c <= j && j < k * c + c)) by (nonlinear_arith)
        requires
            c > 0,
            j >= 0,
            k >= 0,
    ;
    lemma_byte_in_chunk(len, c, n, j);
}

proof fn lemma_in_order_step(d: Seq<u8>, c: int, hs: Seq<ChunkHeader>, ds: Seq<Seq<u8>>, order: Seq<int>)
    requires
        c > 0,
        split_of(d, c, hs, ds),
        forall|q: int|
            0 <= q < order.len() ==> 0 <= #[trigger] order[q] < chunk_count(d.len() as int, c),
    ensures
        ({
            let n = chunk_count(d.len() as int, c);
            let v = insert_in_order(fresh_view(d.len(), n as nat), hs, ds, order);
            &&& v.received.len() == n
            &&& v.data.len() == d.len()
            &&& v.received_count == count_set(v.received)
            &&& forall|k: int| 0 <= k < n ==> (v.received[k] <==> order.contains(k))
            &&& forall|j: int|
                0 <= j < d.len() ==> #[trigger] v.data[j] == if v.received[j / c] {
                    d[j]
                } else {
                    0u8
                }
        }),
    decreases order.len(),
{
    let len = d.len() as int;
    let n = chunk_count(len, c);
    let f = fresh_view(d.len(), n as nat);
    assert(n >= 0) by (nonlinear_arith)
        requires
            n == (len + c - 1) / c,
            len >= 0,
            c > 0,
    ;
    if order.len() == 0 {
        lemma_count_none_set(f.received);
        assert forall|j: int| 0 <= j < len implies #[trigger] f.data[j] == if f.received[j / c] {
            d[j]
        } else {
            0u8
        } by {
            lemma_byte_in_chunk(len, c, n, j);
        }
    } else {
        let p = order.drop_last();
        let k = order.last();
        assert forall|q: int| 0 <= q < p.len() implies 0 <= #[trigger] p[q] < n by {
            assert(p[q] == order[q]);
        }
        lemma_in_order_step(d, c, hs, ds, p);
        let a = insert_in_order(f, hs, ds, p);
        let b = insert_in_order(f, hs, ds, order);
        assert(0 <= k < n) by {
            assert(order[order.len() - 1] == k);
        }
        assert(b == after_insert(a, hs[k], ds[k]));
        assert(hs[k].chunk_id as int == k);
        assert forall|m: int| 0 <= m < n implies (b.received[m] <==> order.contains(m)) by {
            if order.contains(m) && m != k {
                let q = choose|q: int| 0 <= q < order.len() && order[q] == m;
                assert(q < p.len());
                assert(p[q] == m);
            }
            if p.contains(m) {
                let q = choose|q: int| 0 <= q < p.len() && p[q] == m;
                assert(order[q] == m);
            }
            if m == k {
                assert(order[order.len() - 1] == k);
            }
        }
        if !a.received[k] {
            lemma_count_set_update(a.received, k);
            assert forall|j: int| 0 <= j < len implies #[trigger] b.data[j] == if b.received[j / c] {
                d[j]
            } else {
                0u8
            } by {
                lemma_chunk_of_byte(len, c, n, j, k);
                let cl = chunk_len(len, c, k);
                if k * c <= j && j < k * c + cl {
                    assert(b.data[j] == ds[k][j - k * c]);
                } else {
                    assert(b.data[j] == a.data[j]);
                }
            }
        }
    }
}

/// Round trip of one segment in any delivery order: inserting the chunks of
/// a split of `d` into an empty segment of `d`'s size, in any order and with
/// any repeats, as long as every chunk comes at least once, reassembles
/// exactly `d` with every chunk counted once.
pub proof fn lemma_any_order_assembles(
    d: Seq<u8>,
    chunk_size: int,
    hs: Seq<ChunkHeader>,
    ds: Seq<Seq<u8>>,
    order: Seq<int>,
)
    requires
        chunk_size > 0,
        split_of(d, chunk_size, hs, ds),
        forall|q: int|
            0 <= q < order.len() ==> 0 <= #[trigger] order[q] < chunk_count(
                d.len() as int,
                chunk_size,
            ),
        forall|k: int| 0 <= k < chunk_count(d.len() as int, chunk_size) ==> order.contains(k),
    ensures
        ({
            let n = chunk_count(d.len() as int, chunk_size);
            let v = insert_in_order(fresh_view(d.len(), n as nat), hs, ds, order);
            &&& v.data == d
            &&& v.received_count == n
            &&& forall|i: int| 0 <= i < n ==> v.received[i]
        }),
{
    let len = d.len() as int;
    let n = chunk_count(len, chunk_size);
    lemma_in_order_step(d, chunk_size, hs, ds, order);
    let v = insert_in_order(fresh_view(d.len(), n as nat), hs, ds, order);
    assert forall|j: int| 0 <= j < len implies v.data[j] == d[j] by {
        lemma_byte_in_chunk(len, chunk_size, n, j);
        assert(order.contains(j / chunk_size));
        assert(v.received[j / chunk_size]);
    }
    assert(v.data =~= d);
    assert forall|i: int| 0 <= i < n implies v.received[i] by {
        assert(order.contains(i));
    }
    lemma_count_set_bounds(v.received);
}

} // verus!
