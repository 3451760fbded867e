//! Layout of the log on disk: segment numbers and offsets, segment file
//! names, and how one write is split over segments.

use vstd::prelude::*;
use vstd::arithmetic::div_mod::{lemma_fundamental_div_mod, lemma_fundamental_div_mod_converse};

verus! {

/// Uppercase hexadecimal digit of a value below sixteen.
pub open spec fn hex_digit(n: u32) -> u8 {
    if n < 10 {
        (48 + n) as u8
    } else {
        (55 + n) as u8
    }
}

/// Eight uppercase hexadecimal digits of `v`, zero-padded.
pub open spec fn hex8(v: u32) -> Seq<u8> {
    seq![
        hex_digit((v >> 28u32) & 0xf),
        hex_digit((v >> 24u32) & 0xf),
        hex_digit((v >> 20u32) & 0xf),
        hex_digit((v >> 16u32) & 0xf),
        hex_digit((v >> 12u32) & 0xf),
        hex_digit((v >> 8u32) & 0xf),
        hex_digit((v >> 4u32) & 0xf),
        hex_digit(v & 0xf),
    ]
}

pub fn hex_digit_of(n: u32) -> (r: u8)
    requires
        n < 16,
    ensures
        r == hex_digit(n),
{
    if n < 10 {
        (48 + n) as u8
    } else {
        (55 + n) as u8
    }
}

/// Appends eight uppercase hexadecimal digits of `v`.
pub fn push_hex8(buf: &mut Vec<u8>, v: u32)
    ensures
        final(buf)@ == old(buf)@ + hex8(v),
{
    assert(((v >> 28u32) & 0xf) < 16 && ((v >> 24u32) & 0xf) < 16 && ((v >> 20u32) & 0xf) < 16
        && ((v >> 16u32) & 0xf) < 16 && ((v >> 12u32) & 0xf) < 16 && ((v >> 8u32) & 0xf) < 16
        && ((v >> 4u32) & 0xf) < 16 && (v & 0xf) < 16) by (bit_vector);
    buf.push(hex_digit_of((v >> 28u32) & 0xf));
    buf.push(hex_digit_of((v >> 24u32) & 0xf));
    buf.push(hex_digit_of((v >> 20u32) & 0xf));
    buf.push(hex_digit_of((v >> 16u32) & 0xf));
    buf.push(hex_digit_of((v >> 12u32) & 0xf));
    buf.push(hex_digit_of((v >> 8u32) & 0xf));
    buf.push(hex_digit_of((v >> 4u32) & 0xf));
    buf.push(hex_digit_of(v & 0xf));
    assert(final(buf)@ =~= old(buf)@ + hex8(v));
}

/// Offset of `lsn` inside its segment.
pub fn xlog_segment_offset(lsn: u64, wal_seg_size: u64) -> (r: u64)
    requires
        wal_seg_size > 0,
    ensures
        r == lsn % wal_seg_size,
{
    lsn % wal_seg_size
}

/// Number of the segment that holds `lsn`.
pub fn xlbyte_to_seg(lsn: u64, wal_seg_size: u64) -> (r: u64)
    requires
        wal_seg_size > 0,
    ensures
        r == lsn / wal_seg_size,
{
    lsn / wal_seg_size
}

/// Name of segment `segno`: the timeline, then the segment number split in
/// a high and a low part, each as eight hexadecimal digits.
pub open spec fn spec_xlog_file_name(timeline: u32, segno: u64, wal_seg_size: u64) -> Seq<u8> {
    let per_id = 0x1_0000_0000u64 / wal_seg_size;
    hex8(timeline) + hex8((segno / per_id) as u32) + hex8((segno % per_id) as u32)
}

pub fn xlog_file_name(timeline: u32, segno: u64, wal_seg_size: u64) -> (r: Vec<u8>)
    requires
        0 < wal_seg_size <= 0x1_0000_0000,
    ensures
        r@ == spec_xlog_file_name(timeline, segno, wal_seg_size),
{
    let per_id = 0x1_0000_0000u64 / wal_seg_size;
    assert(per_id >= 1) by (nonlinear_arith)
        requires
            per_id == 0x1_0000_0000u64 / wal_seg_size,
            0 < wal_seg_size <= 0x1_0000_0000,
    ;
    let mut name: Vec<u8> = Vec::new();
    push_hex8(&mut name, timeline);
    push_hex8(&mut name, (segno / per_id) as u32);
    push_hex8(&mut name, (segno % per_id) as u32);
    assert(name@ =~= spec_xlog_file_name(timeline, segno, wal_seg_size));
    name
}

/// One piece of a write that stays inside one segment: `len` bytes of the
/// buffer from `buf_start`, written at `offset` of segment `segno`.
#[derive(Clone, Copy, Debug, PartialEq, Eq, Structural)]
pub struct WriteChunk {
    pub segno: u64,
    pub offset: u64,
    pub buf_start: usize,
    pub len: usize,
    /// Whether the piece fills its segment to the end, so that the segment
    /// is complete once it is written.
    pub completes_segment: bool,
}

/// The piece of a write of `len` bytes at `start` that begins at byte
/// `c.buf_start` of the buffer: as much as fits before the next boundary.
pub open spec fn chunk_ok(c: WriteChunk, start: u64, len: usize, seg: u64) -> bool {
    let s = seg as int;
    let pos = start + c.buf_start;
    let room = s - pos % s;
    let left = len - c.buf_start;
    &&& c.buf_start < len
    &&& c.segno == pos / s
    &&& c.offset == pos % s
    &&& c.len == (if left < room { left } else { room })
    &&& c.completes_segment == (c.offset + c.len == s)
}

/// The pieces follow each other from the start of the buffer up to `upto`.
pub open spec fn contiguous(chunks: Seq<WriteChunk>, upto: int) -> bool {
    &&& chunks.len() == 0 ==> upto == 0
    &&& chunks.len() > 0 ==> chunks[0].buf_start == 0 && chunks.last().buf_start
        + chunks.last().len == upto
    &&& forall|k: int|
        0 <= k < chunks.len() - 1 ==> #[trigger] chunks[k + 1].buf_start == chunks[k].buf_start
            + chunks[k].len
}

/// How a write of `len` bytes at `start` splits over segments.
pub open spec fn plan_ok(chunks: Seq<WriteChunk>, start: u64, len: usize, seg: u64) -> bool {
    &&& contiguous(chunks, len as int)
    &&& forall|k: int| 0 <= k < chunks.len() ==> chunk_ok(#[trigger] chunks[k], start, len, seg)
}

/// Splits a write of `len` bytes at log position `start` into pieces that
/// each stay inside one segment, in order.
pub fn plan_wal_write(start: u64, len: usize, wal_seg_size: u64) -> (r: Vec<WriteChunk>)
    requires
        wal_seg_size > 0,
        start + len <= u64::MAX,
    ensures
        plan_ok(r@, start, len, wal_seg_size),
{
    let mut chunks: Vec<WriteChunk> = Vec::new();
    let mut written: usize = 0;
    while written < len
        invariant
            written <= len,
            wal_seg_size > 0,
            start + len <= u64::MAX,
            contiguous(chunks@, written as int),
            forall|k: int|
                0 <= k < chunks@.len() ==> chunk_ok(#[trigger] chunks@[k], start, len, wal_seg_size),
        decreases len - written,
    {
        let pos = start + written as u64;
        let offset = pos % wal_seg_size;
        let room = wal_seg_size - offset;
        let left = len - written;
        let n: usize = if (left as u64) < room {
            left
        } else {
            room as usize
        };
        let c = WriteChunk {
            segno: pos / wal_seg_size,
            offset,
            buf_start: written,
            len: n,
            completes_segment: offset + n as u64 == wal_seg_size,
        };
        let ghost before = chunks@;
        chunks.push(c);
        assert(chunks@ == before.push(c));
        assert forall|k: int| 0 <= k < chunks@.len() - 1 implies #[trigger] chunks@[k + 1].buf_start
            == chunks@[k].buf_start + chunks@[k].len by {
            if k + 1 < before.len() {
                assert(before[k + 1].buf_start == before[k].buf_start + before[k].len);
            }
        }
        written = written + n;
    }
    chunks
}

proof fn lemma_find_chunk(chunks: Seq<WriteChunk>, upto: int, i: int) -> (k: int)
    requires
        contiguous(chunks, upto),
        0 <= i < upto,
    ensures
        0 <= k < chunks.len(),
        chunks[k].buf_start <= i < chunks[k].buf_start + chunks[k].len,
    decreases chunks.len(),
{
    let last = chunks.len() - 1;
    if i >= chunks[last].buf_start {
        last
    } else {
        let prefix = chunks.drop_last();
        assert forall|k: int| 0 <= k < prefix.len() - 1 implies #[trigger] prefix[k + 1].buf_start
            == prefix[k].buf_start + prefix[k].len by {
            assert(chunks[k + 1].buf_start == chunks[k].buf_start + chunks[k].len);
        }
        if prefix.len() > 0 {
            let j = last - 1;
            assert(chunks[j + 1].buf_start == chunks[j].buf_start + chunks[j].len);
            assert(prefix.last() == chunks[j]);
        } else {
            assert(chunks[0].buf_start == 0);
        }
        lemma_find_chunk(prefix, chunks[last].buf_start as int, i)
    }
}

/// Every byte of a write lands where a read looks for it: byte `i` of the
/// buffer goes to the segment and offset of log position `start + i`.
pub proof fn lemma_plan_places_bytes(
    chunks: Seq<WriteChunk>,
    start: u64,
    len: usize,
    seg: u64,
    i: int,
)
    requires
        seg > 0,
        plan_ok(chunks, start, len, seg),
        0 <= i < len,
    ensures
        exists|k: int|
            0 <= k < chunks.len() && #[trigger] chunks[k].buf_start <= i < chunks[k].buf_start
                + chunks[k].len && chunks[k].segno == (start + i) / (seg as int) && chunks[k].offset
                + (i - chunks[k].buf_start) == (start + i) % (seg as int),
{
    let k = lemma_find_chunk(chunks, len as int, i);
    let c = chunks[k];
    assert(chunk_ok(c, start, len, seg));
    let pos = start + c.buf_start;
    lemma_fundamental_div_mod(pos, seg as int);
    let d = i - c.buf_start;
    assert(start + i == (pos / (seg as int)) * seg + (pos % (seg as int) + d)) by (nonlinear_arith)
        requires
            pos == (seg as int) * (pos / (seg as int)) + (pos % (seg as int)),
            start + i == pos + d,
    ;
    lemma_fundamental_div_mod_converse(
        start + i,
        seg as int,
        pos / (seg as int),
        pos % (seg as int) + d,
    );
}

/// A segment file as created: `seg` zero bytes.
pub open spec fn zero_segment(seg: int) -> Seq<u8> {
    Seq::new(seg as nat, |j: int| 0u8)
}

/// Every segment file holds `seg` bytes.
pub open spec fn segments_wf(segs: Map<int, Seq<u8>>, seg: int) -> bool {
    forall|n: int| #[trigger] segs.contains_key(n) ==> segs[n].len() == seg
}

/// The segment files once piece `c` of `buf` is written: the segment is
/// created zero-filled if missing, then its bytes at the piece's offsets
/// are replaced.
pub open spec fn spec_write_chunk(
    segs: Map<int, Seq<u8>>,
    c: WriteChunk,
    buf: Seq<u8>,
    seg: int,
) -> Map<int, Seq<u8>> {
    let n = c.segno as int;
    let base = if segs.contains_key(n) { segs[n] } else { zero_segment(seg) };
    segs.insert(
        n,
        Seq::new(
            seg as nat,
            |j: int|
                if c.offset <= j < c.offset + c.len {
                    buf[c.buf_start + (j - c.offset)]
                } else {
                    base[j]
                },
        ),
    )
}

/// The segment files once every piece of a plan is written, in order.
pub open spec fn spec_apply_plan(
    segs: Map<int, Seq<u8>>,
    chunks: Seq<WriteChunk>,
    buf: Seq<u8>,
    seg: int,
) -> Map<int, Seq<u8>>
    decreases chunks.len(),
{
    if chunks.len() == 0 {
        segs
    } else {
        spec_write_chunk(spec_apply_plan(segs, chunks.drop_last(), buf, seg), chunks.last(), buf, seg)
    }
}

/// Piece `c` starts at the segment and offset of its log position and stays
/// inside that segment.
pub open spec fn chunk_placed(c: WriteChunk, start: int, seg: int) -> bool {
    &&& c.segno == (start + c.buf_start) / seg
    &&& c.offset == (start + c.buf_start) % seg
    &&& c.offset + c.len <= seg
}

/// `r` is `segs` after the bytes `buf[0..upto]` were written from log
/// position `start`: segments keep their size and are never removed, each
/// written byte sits at the segment and offset of its position, and every
/// other byte is as it was, or zero in a segment that was created.
pub open spec fn written_as_planned(
    segs: Map<int, Seq<u8>>,
    r: Map<int, Seq<u8>>,
    buf: Seq<u8>,
    start: int,
    seg: int,
    upto: int,
) -> bool {
    &&& segments_wf(r, seg)
    &&& forall|n: int| #[trigger] segs.contains_key(n) ==> r.contains_key(n)
    &&& forall|i: int|
        #![trigger r.contains_key((start + i) / seg)]
        #![trigger r[(start + i) / seg][(start + i) % seg]]
        0 <= i < upto ==> r.contains_key((start + i) / seg) && r[(start + i) / seg][(start + i)
            % seg] == buf[i]
    &&& forall|n: int, j: int|
        r.contains_key(n) && 0 <= j < seg && !(start <= n * seg + j < start + upto) ==> #[trigger] r[n][j]
            == (if segs.contains_key(n) {
            segs[n][j]
        } else {
            0u8
        })
}

proof fn lemma_apply_prefix(
    segs: Map<int, Seq<u8>>,
    chunks: Seq<WriteChunk>,
    buf: Seq<u8>,
    start: int,
    seg: int,
    upto: int,
)
    requires
        seg > 0,
        start >= 0,
        contiguous(chunks, upto),
        forall|k: int| 0 <= k < chunks.len() ==> chunk_placed(#[trigger] chunks[k], start, seg),
        buf.len() >= upto,
        segments_wf(segs, seg),
    ensures
        written_as_planned(segs, spec_apply_plan(segs, chunks, buf, seg), buf, start, seg, upto),
    decreases chunks.len(), 1nat,
{
    if chunks.len() > 0 {
        lemma_apply_step(segs, chunks, buf, start, seg, upto);
    }
}

proof fn lemma_apply_step(
    segs: Map<int, Seq<u8>>,
    chunks: Seq<WriteChunk>,
    buf: Seq<u8>,
    start: int,
    seg: int,
    upto: int,
)
    requires
        chunks.len() > 0,
        seg > 0,
        start >= 0,
        contiguous(chunks, upto),
        forall|k: int| 0 <= k < chunks.len() ==> chunk_placed(#[trigger] chunks[k], start, seg),
        buf.len() >= upto,
        segments_wf(segs, seg),
    ensures
        written_as_planned(segs, spec_apply_plan(segs, chunks, buf, seg), buf, start, seg, upto),
    decreases chunks.len(), 0nat,
{
    let c = chunks.last();
    let last = chunks.len() - 1;
    let prefix = chunks.drop_last();
    let upto0 = c.buf_start as int;
    assert forall|k: int| 0 <= k < prefix.len() - 1 implies #[trigger] prefix[k + 1].buf_start
        == prefix[k].buf_start + prefix[k].len by {
        assert(chunks[k + 1].buf_start == chunks[k].buf_start + chunks[k].len);
    }
    if prefix.len() > 0 {
        let j = last - 1;
        assert(chunks[j + 1].buf_start == chunks[j].buf_start + chunks[j].len);
        assert(prefix.last() == chunks[j]);
    } else {
        assert(chunks[0].buf_start == 0);
    }
    assert forall|k: int| 0 <= k < prefix.len() implies chunk_placed(#[trigger] prefix[k], start, seg) by {
        assert(chunk_placed(chunks[k], start, seg));
    }
    lemma_apply_prefix(segs, prefix, buf, start, seg, upto0);
    let r0 = spec_apply_plan(segs, prefix, buf, seg);
    let r = spec_apply_plan(segs, chunks, buf, seg);
    assert(r == spec_write_chunk(r0, c, buf, seg));
    assert(chunk_placed(chunks[last], start, seg));
    let pos = start + c.buf_start;
    lemma_fundamental_div_mod(pos, seg);
    assert(pos == c.segno * seg + c.offset) by (nonlinear_arith)
        requires
            pos == seg * (pos / seg) + pos % seg,
            c.segno == pos / seg,
            c.offset == pos % seg,
    ;
    assert forall|i: int|
        #![trigger r.contains_key((start + i) / seg)]
        #![trigger r[(start + i) / seg][(start + i) % seg]]
        0 <= i < upto implies r.contains_key((start + i) / seg) && r[(start + i) / seg][(start + i)
            % seg] == buf[i] by {
        let p = start + i;
        lemma_fundamental_div_mod(p, seg);
        if i < upto0 {
            assert(r0.contains_key(p / seg) && r0[p / seg][p % seg] == buf[i]);
            if p / seg == c.segno {
                assert(p % seg < c.offset) by (nonlinear_arith)
                    requires
                        p == seg * (p / seg) + p % seg,
                        pos == c.segno * seg + c.offset,
                        p / seg == c.segno,
                        p < pos,
                ;
            }
        } else {
            let d = i - upto0;
            assert(p == c.segno * seg + (c.offset + d));
            lemma_fundamental_div_mod_converse(p, seg, c.segno as int, c.offset + d);
        }
    }
    assert forall|n: int, j: int|
        r.contains_key(n) && 0 <= j < seg && !(start <= n * seg + j < start + upto) implies #[trigger] r[n][j]
        == (if segs.contains_key(n) {
        segs[n][j]
    } else {
        0u8
    }) by {
        if n == c.segno {
            if c.offset <= j < c.offset + c.len {
                assert(n * seg + j == pos + (j - c.offset));
            }
        }
    }
}

/// Writing a buffer by its plan leaves every byte readable at its log
/// position, and a segment that the write creates holds zeros outside the
/// written range.
pub proof fn lemma_write_reads_back(
    segs: Map<int, Seq<u8>>,
    chunks: Seq<WriteChunk>,
    buf: Seq<u8>,
    start: u64,
    seg: u64,
)
    requires
        seg > 0,
        plan_ok(chunks, start, buf.len() as usize, seg),
        buf.len() <= usize::MAX,
        segments_wf(segs, seg as int),
    ensures
        ({
            let r = spec_apply_plan(segs, chunks, buf, seg as int);
            &&& forall|i: int|
                0 <= i < buf.len() ==> #[trigger] r[(start + i) / (seg as int)][(start + i) % (
                seg as int)] == buf[i]
            &&& forall|n: int, j: int|
                !segs.contains_key(n) && r.contains_key(n) && 0 <= j < seg && !(start <= n * seg + j
                    < start + buf.len()) ==> #[trigger] r[n][j] == 0u8
        }),
{
    assert forall|k: int| 0 <= k < chunks.len() implies chunk_placed(
        #[trigger] chunks[k],
        start as int,
        seg as int,
    ) by {
        assert(chunk_ok(chunks[k], start, buf.len() as usize, seg));
    }
    lemma_apply_prefix(segs, chunks, buf, start as int, seg as int, buf.len() as int);
}

} // verus!
