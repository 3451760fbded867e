//! Fixed-width integer encodings used on the wire and on disk.

use vstd::prelude::*;

verus! {

/// Little-endian bytes of a `u32`.
pub open spec fn le32(v: u32) -> Seq<u8> {
    seq![v as u8, (v >> 8u32) as u8, (v >> 16u32) as u8, (v >> 24u32) as u8]
}

/// Little-endian bytes of a `u64`.
pub open spec fn le64(v: u64) -> Seq<u8> {
    seq![
        v as u8,
        (v >> 8u64) as u8,
        (v >> 16u64) as u8,
        (v >> 24u64) as u8,
        (v >> 32u64) as u8,
        (v >> 40u64) as u8,
        (v >> 48u64) as u8,
        (v >> 56u64) as u8,
    ]
}

/// Big-endian bytes of a `u64`.
pub open spec fn be64(v: u64) -> Seq<u8> {
    seq![
        (v >> 56u64) as u8,
        (v >> 48u64) as u8,
        (v >> 40u64) as u8,
        (v >> 32u64) as u8,
        (v >> 24u64) as u8,
        (v >> 16u64) as u8,
        (v >> 8u64) as u8,
        v as u8,
    ]
}

/// Big-endian bytes of a `u32`.
pub open spec fn be32(v: u32) -> Seq<u8> {
    seq![(v >> 24u32) as u8, (v >> 16u32) as u8, (v >> 8u32) as u8, v as u8]
}

/// Little-endian bytes of a `u128`: the low half first.
pub open spec fn le128(v: u128) -> Seq<u8> {
    le64(v as u64) + le64((v >> 64u128) as u64)
}

/// The `u32` whose little-endian bytes start at `at` in `s`.
pub open spec fn dec_le32(s: Seq<u8>, at: int) -> u32 {
    (s[at] as u32) | ((s[at + 1] as u32) << 8u32) | ((s[at + 2] as u32) << 16u32) | ((s[at
        + 3] as u32) << 24u32)
}

/// The `u64` whose little-endian bytes start at `at` in `s`.
pub open spec fn dec_le64(s: Seq<u8>, at: int) -> u64 {
    (s[at] as u64) | ((s[at + 1] as u64) << 8u64) | ((s[at + 2] as u64) << 16u64) | ((s[at
        + 3] as u64) << 24u64) | ((s[at + 4] as u64) << 32u64) | ((s[at + 5] as u64) << 40u64)
        | ((s[at + 6] as u64) << 48u64) | ((s[at + 7] as u64) << 56u64)
}

/// The `u64` whose big-endian bytes start at `at` in `s`.
pub open spec fn dec_be64(s: Seq<u8>, at: int) -> u64 {
    ((s[at] as u64) << 56u64) | ((s[at + 1] as u64) << 48u64) | ((s[at + 2] as u64) << 40u64)
        | ((s[at + 3] as u64) << 32u64) | ((s[at + 4] as u64) << 24u64) | ((s[at + 5] as u64)
        << 16u64) | ((s[at + 6] as u64) << 8u64) | (s[at + 7] as u64)
}

/// The `u128` whose little-endian bytes start at `at` in `s`.
pub open spec fn dec_le128(s: Seq<u8>, at: int) -> u128 {
    ((dec_le64(s, at + 8) as u128) << 64u128) | (dec_le64(s, at) as u128)
}

pub proof fn lemma_le32_round_trip(v: u32)
    ensures
        dec_le32(le32(v), 0) == v,
{
    let b = le32(v);
    assert(((v as u8) as u32) | ((((v >> 8u32) as u8) as u32) << 8u32) | ((((v >> 16u32) as u8)
        as u32) << 16u32) | ((((v >> 24u32) as u8) as u32) << 24u32) == v) by (bit_vector);
}

pub proof fn lemma_le64_round_trip(v: u64)
    ensures
        dec_le64(le64(v), 0) == v,
{
    assert(((v as u8) as u64) | ((((v >> 8u64) as u8) as u64) << 8u64) | ((((v >> 16u64) as u8)
        as u64) << 16u64) | ((((v >> 24u64) as u8) as u64) << 24u64) | ((((v >> 32u64) as u8)
        as u64) << 32u64) | ((((v >> 40u64) as u8) as u64) << 40u64) | ((((v >> 48u64) as u8)
        as u64) << 48u64) | ((((v >> 56u64) as u8) as u64) << 56u64) == v) by (bit_vector);
}

pub proof fn lemma_be64_round_trip(v: u64)
    ensures
        dec_be64(be64(v), 0) == v,
{
    assert(((((v >> 56u64) as u8) as u64) << 56u64) | ((((v >> 48u64) as u8) as u64) << 48u64)
        | ((((v >> 40u64) as u8) as u64) << 40u64) | ((((v >> 32u64) as u8) as u64) << 32u64)
        | ((((v >> 24u64) as u8) as u64) << 24u64) | ((((v >> 16u64) as u8) as u64) << 16u64)
        | ((((v >> 8u64) as u8) as u64) << 8u64) | ((v as u8) as u64) == v) by (bit_vector);
}

pub proof fn lemma_dec_le32_at(s: Seq<u8>, at: int, v: u32)
    requires
        0 <= at,
        at + 4 <= s.len(),
        s.subrange(at, at + 4) == le32(v),
    ensures
        dec_le32(s, at) == v,
{
    lemma_le32_round_trip(v);
    let t = s.subrange(at, at + 4);
    assert(forall|k: int| 0 <= k < 4 ==> #[trigger] t[k] == s[at + k]);
}

pub proof fn lemma_dec_le64_at(s: Seq<u8>, at: int, v: u64)
    requires
        0 <= at,
        at + 8 <= s.len(),
        s.subrange(at, at + 8) == le64(v),
    ensures
        dec_le64(s, at) == v,
{
    lemma_le64_round_trip(v);
    let t = s.subrange(at, at + 8);
    assert(forall|k: int| 0 <= k < 8 ==> #[trigger] t[k] == s[at + k]);
}

pub proof fn lemma_dec_be64_at(s: Seq<u8>, at: int, v: u64)
    requires
        0 <= at,
        at + 8 <= s.len(),
        s.subrange(at, at + 8) == be64(v),
    ensures
        dec_be64(s, at) == v,
{
    lemma_be64_round_trip(v);
    let t = s.subrange(at, at + 8);
    assert(forall|k: int| 0 <= k < 8 ==> #[trigger] t[k] == s[at + k]);
}

pub proof fn lemma_dec_le128_at(s: Seq<u8>, at: int, v: u128)
    requires
        0 <= at,
        at + 16 <= s.len(),
        s.subrange(at, at + 16) == le128(v),
    ensures
        dec_le128(s, at) == v,
{
    let lo = v as u64;
    let hi = (v >> 64u128) as u64;
    assert(s.subrange(at, at + 8) =~= le128(v).subrange(0, 8));
    assert(le128(v).subrange(0, 8) =~= le64(lo));
    assert(s.subrange(at + 8, at + 16) =~= le128(v).subrange(8, 16));
    assert(le128(v).subrange(8, 16) =~= le64(hi));
    lemma_dec_le64_at(s, at, lo);
    lemma_dec_le64_at(s, at + 8, hi);
    assert(((((v >> 64u128) as u64) as u128) << 64u128) | ((v as u64) as u128) == v)
        by (bit_vector);
}

/// Appends the little-endian bytes of `v`.
pub fn put_le32(buf: &mut Vec<u8>, v: u32)
    ensures
        final(buf)@ == old(buf)@ + le32(v),
{
    buf.push(v as u8);
    buf.push((v >> 8u32) as u8);
    buf.push((v >> 16u32) as u8);
    buf.push((v >> 24u32) as u8);
    assert(final(buf)@ =~= old(buf)@ + le32(v));
}

/// Appends the big-endian bytes of `v`.
pub fn put_be32(buf: &mut Vec<u8>, v: u32)
    ensures
        final(buf)@ == old(buf)@ + be32(v),
{
    buf.push((v >> 24u32) as u8);
    buf.push((v >> 16u32) as u8);
    buf.push((v >> 8u32) as u8);
    buf.push(v as u8);
    assert(final(buf)@ =~= old(buf)@ + be32(v));
}

/// Appends the little-endian bytes of `v`.
pub fn put_le64(buf: &mut Vec<u8>, v: u64)
    ensures
        final(buf)@ == old(buf)@ + le64(v),
{
    buf.push(v as u8);
    buf.push((v >> 8u64) as u8);
    buf.push((v >> 16u64) as u8);
    buf.push((v >> 24u64) as u8);
    buf.push((v >> 32u64) as u8);
    buf.push((v >> 40u64) as u8);
    buf.push((v >> 48u64) as u8);
    buf.push((v >> 56u64) as u8);
    assert(final(buf)@ =~= old(buf)@ + le64(v));
}

/// Appends the big-endian bytes of `v`.
pub fn put_be64(buf: &mut Vec<u8>, v: u64)
    ensures
        final(buf)@ == old(buf)@ + be64(v),
{
    buf.push((v >> 56u64) as u8);
    buf.push((v >> 48u64) as u8);
    buf.push((v >> 40u64) as u8);
    buf.push((v >> 32u64) as u8);
    buf.push((v >> 24u64) as u8);
    buf.push((v >> 16u64) as u8);
    buf.push((v >> 8u64) as u8);
    buf.push(v as u8);
    assert(final(buf)@ =~= old(buf)@ + be64(v));
}

/// Appends the little-endian bytes of `v`.
pub fn put_le128(buf: &mut Vec<u8>, v: u128)
    ensures
        final(buf)@ == old(buf)@ + le128(v),
{
    put_le64(buf, v as u64);
    put_le64(buf, (v >> 64u128) as u64);
    assert(final(buf)@ =~= old(buf)@ + le128(v));
}

/// Reads the little-endian `u32` at `pos`.
pub fn get_le32(b: &[u8], pos: usize) -> (r: u32)
    requires
        pos + 4 <= b@.len(),
    ensures
        r == dec_le32(b@, pos as int),
{
    (b[pos] as u32) | ((b[pos + 1] as u32) << 8u32) | ((b[pos + 2] as u32) << 16u32) | ((b[pos
        + 3] as u32) << 24u32)
}

/// Reads the little-endian `u64` at `pos`.
pub fn get_le64(b: &[u8], pos: usize) -> (r: u64)
    requires
        pos + 8 <= b@.len(),
    ensures
        r == dec_le64(b@, pos as int),
{
    (b[pos] as u64) | ((b[pos + 1] as u64) << 8u64) | ((b[pos + 2] as u64) << 16u64) | ((b[pos
        + 3] as u64) << 24u64) | ((b[pos + 4] as u64) << 32u64) | ((b[pos + 5] as u64) << 40u64)
        | ((b[pos + 6] as u64) << 48u64) | ((b[pos + 7] as u64) << 56u64)
}

/// Reads the big-endian `u64` at `pos`.
pub fn get_be64(b: &[u8], pos: usize) -> (r: u64)
    requires
        pos + 8 <= b@.len(),
    ensures
        r == dec_be64(b@, pos as int),
{
    ((b[pos] as u64) << 56u64) | ((b[pos + 1] as u64) << 48u64) | ((b[pos + 2] as u64) << 40u64)
        | ((b[pos + 3] as u64) << 32u64) | ((b[pos + 4] as u64) << 24u64) | ((b[pos + 5] as u64)
        << 16u64) | ((b[pos + 6] as u64) << 8u64) | (b[pos + 7] as u64)
}

/// Reads the little-endian `u128` at `pos`.
pub fn get_le128(b: &[u8], pos: usize) -> (r: u128)
    requires
        pos + 16 <= b@.len() <= usize::MAX,
    ensures
        r == dec_le128(b@, pos as int),
{
    let lo = get_le64(b, pos);
    let hi = get_le64(b, pos + 8);
    ((hi as u128) << 64u128) | (lo as u128)
}

} // verus!
