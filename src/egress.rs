//! Decisions of a replica connection: where streaming starts, how far each
//! step goes, and the bytes of the replies built here.

use vstd::prelude::*;
use vstd::arithmetic::div_mod::lemma_mod_decreases;
use crate::command::CommandError;
use crate::ingest::MAX_SEND_SIZE;
use crate::tenant::END_REPLICATION_MARKER;
use crate::wire::{be32, be64, put_be32, put_be64};
use crate::xlog::{hex8, hex_digit, hex_digit_of, push_hex8};

verus! {

/// Size of the header of a streamed log message: message type and length.
pub const LIBPQ_HDR_SIZE: usize = 5;
/// Size of the `XLogData` header: `'w'` and three positions.
pub const XLOG_HDR_SIZE: usize = 25;

/// Where streaming starts: the requested position, or the log end when none
/// was requested, moved back to the start of its segment.
pub open spec fn spec_start_position(requested: u64, wal_end: u64, wal_seg_size: u32) -> Result<
    u64,
    CommandError,
> {
    if wal_seg_size == 0 {
        Err(CommandError::NotReady)
    } else {
        let pos = if requested == 0 { wal_end } else { requested };
        Ok((pos - pos % (wal_seg_size as u64)) as u64)
    }
}

pub fn start_position(requested: u64, wal_end: u64, wal_seg_size: u32) -> (r: Result<u64, CommandError>)
    ensures
        r == spec_start_position(requested, wal_end, wal_seg_size),
{
    if wal_seg_size == 0 {
        return Err(CommandError::NotReady);
    }
    let pos = if requested == 0 {
        wal_end
    } else {
        requested
    };
    proof {
        lemma_mod_decreases(pos as nat, wal_seg_size as nat);
    }
    Ok(pos - pos % (wal_seg_size as u64))
}

/// One step of the streaming loop.
#[derive(Clone, Copy, Debug, PartialEq, Eq, Structural)]
pub enum SendStep {
    /// Streaming is over.
    Finish,
    /// Nothing to send yet: wait for the next announcement.
    Wait,
    /// Send from the current position towards `end_pos`.
    Send { end_pos: u64 },
}

/// What to do at `start_pos`: with a stop position, stream up to it and
/// then finish; without one, stream up to the commit position that the
/// tenant makes `available`, or wait; the shutdown marker finishes.
pub open spec fn spec_next_step(start_pos: u64, stop_pos: u64, available: Option<u64>) -> SendStep {
    let end = if stop_pos != 0 {
        if start_pos >= stop_pos { None } else { Some(stop_pos) }
    } else {
        available
    };
    match end {
        None => if stop_pos != 0 { SendStep::Finish } else { SendStep::Wait },
        Some(e) => if e == END_REPLICATION_MARKER { SendStep::Finish } else { SendStep::Send { end_pos: e } },
    }
}

pub fn next_step(start_pos: u64, stop_pos: u64, available: Option<u64>) -> (r: SendStep)
    ensures
        r == spec_next_step(start_pos, stop_pos, available),
{
    let end_pos = if stop_pos != 0 {
        if start_pos >= stop_pos {
            return SendStep::Finish;
        }
        stop_pos
    } else {
        match available {
            None => return SendStep::Wait,
            Some(e) => e,
        }
    };
    if end_pos == END_REPLICATION_MARKER {
        SendStep::Finish
    } else {
        SendStep::Send { end_pos }
    }
}

/// How many bytes one message carries: what is left, at most `MAX_SEND_SIZE`.
pub fn send_size(start_pos: u64, end_pos: u64) -> (r: usize)
    requires
        start_pos <= end_pos,
    ensures
        r == (if end_pos - start_pos < MAX_SEND_SIZE { end_pos - start_pos } else { MAX_SEND_SIZE as int }),
{
    let left = end_pos - start_pos;
    if left < MAX_SEND_SIZE as u64 {
        left as usize
    } else {
        MAX_SEND_SIZE
    }
}

/// Header of a message that streams `data_len` log bytes from `start_pos`:
/// `'d'` and the big-endian length of the rest, then `'w'` and the
/// big-endian start, end and timestamp.
pub open spec fn spec_xlog_data_header(start_pos: u64, end_pos: u64, timestamp: u64, data_len: usize) -> Seq<u8> {
    seq![100u8] + be32((4 + XLOG_HDR_SIZE + data_len) as u32) + seq![119u8] + be64(start_pos) + be64(end_pos) + be64(timestamp)
}

pub fn xlog_data_header(start_pos: u64, end_pos: u64, timestamp: u64, data_len: usize) -> (r: Vec<u8>)
    requires
        data_len <= MAX_SEND_SIZE,
    ensures
        r@ == spec_xlog_data_header(start_pos, end_pos, timestamp, data_len),
        r@.len() == LIBPQ_HDR_SIZE + XLOG_HDR_SIZE,
{
    let mut buf: Vec<u8> = Vec::new();
    buf.push(100u8);
    put_be32(&mut buf, (4 + XLOG_HDR_SIZE + data_len) as u32);
    buf.push(119u8);
    put_be64(&mut buf, start_pos);
    put_be64(&mut buf, end_pos);
    put_be64(&mut buf, timestamp);
    assert(buf@ =~= spec_xlog_data_header(start_pos, end_pos, timestamp, data_len));
    buf
}

/// Hexadecimal digits of `v` without leading zeros, as `{:X}` writes them.
pub open spec fn hex_min(v: u32) -> Seq<u8>
    decreases v,
{
    if v < 16 {
        seq![hex_digit(v)]
    } else {
        hex_min(v / 16).push(hex_digit(v % 16))
    }
}

fn push_hex_min(buf: &mut Vec<u8>, v: u32)
    ensures
        final(buf)@ == old(buf)@ + hex_min(v),
    decreases v,
{
    if v >= 16 {
        push_hex_min(buf, v / 16);
    }
    buf.push(hex_digit_of(v % 16));
    assert(final(buf)@ =~= old(buf)@ + hex_min(v));
}

/// A log position as `H/LLLLLLLL`: the high half in hexadecimal, a slash,
/// and the low half as eight hexadecimal digits.
pub open spec fn spec_format_lsn(lsn: u64) -> Seq<u8> {
    hex_min((lsn / 0x1_0000_0000) as u32) + seq![47u8] + hex8((lsn % 0x1_0000_0000) as u32)
}

pub fn format_lsn(lsn: u64) -> (r: Vec<u8>)
    ensures
        r@ == spec_format_lsn(lsn),
{
    let mut buf: Vec<u8> = Vec::new();
    push_hex_min(&mut buf, (lsn / 0x1_0000_0000u64) as u32);
    buf.push(47u8);
    push_hex8(&mut buf, (lsn % 0x1_0000_0000u64) as u32);
    assert(buf@ =~= spec_format_lsn(lsn));
    buf
}

/// Decimal digits of `v` without leading zeros.
pub open spec fn decimal(v: u64) -> Seq<u8>
    decreases v,
{
    if v < 10 {
        seq![(48 + v) as u8]
    } else {
        decimal(v / 10).push((48 + v % 10) as u8)
    }
}

pub fn push_decimal(buf: &mut Vec<u8>, v: u64)
    ensures
        final(buf)@ == old(buf)@ + decimal(v),
    decreases v,
{
    if v >= 10 {
        push_decimal(buf, v / 10);
    }
    buf.push((48 + v % 10) as u8);
    assert(final(buf)@ =~= old(buf)@ + decimal(v));
}

/// The row answering `IDENTIFY_SYSTEM`; the database name is null.
#[derive(Debug)]
pub struct IdentifyRow {
    pub systemid: Vec<u8>,
    pub timeline: Vec<u8>,
    pub xlogpos: Vec<u8>,
}

/// The system identifier and timeline in decimal, and the log end as a position.
pub fn identify_system_row(system_id: u64, timeline: u32, wal_end: u64) -> (r: IdentifyRow)
    ensures
        r.systemid@ == decimal(system_id),
        r.timeline@ == decimal(timeline as u64),
        r.xlogpos@ == spec_format_lsn(wal_end),
{
    let mut systemid: Vec<u8> = Vec::new();
    push_decimal(&mut systemid, system_id);
    let mut tli: Vec<u8> = Vec::new();
    push_decimal(&mut tli, timeline as u64);
    assert(systemid@ =~= decimal(system_id));
    assert(tli@ =~= decimal(timeline as u64));
    IdentifyRow { systemid, timeline: tli, xlogpos: format_lsn(wal_end) }
}

/// The protocol a new connection speaks.
#[derive(Clone, Copy, Debug, PartialEq, Eq, Structural)]
pub enum ConnectionKind {
    /// A proposer: the first four bytes are a zero length.
    Ingest,
    /// A replica: the first four bytes start its startup packet.
    Replication,
}

/// The protocol named by the first four bytes of a connection, read as a
/// big-endian length: zero for a proposer, anything else for a replica.
pub fn classify_connection(first: &[u8]) -> (r: ConnectionKind)
    requires
        first@.len() >= 4,
    ensures
        r == (if first@[0] == 0 && first@[1] == 0 && first@[2] == 0 && first@[3] == 0 {
            ConnectionKind::Ingest
        } else {
            ConnectionKind::Replication
        }),
{
    if first[0] == 0 && first[1] == 0 && first[2] == 0 && first[3] == 0 {
        ConnectionKind::Ingest
    } else {
        ConnectionKind::Replication
    }
}

} // verus!
