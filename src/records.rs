//! The records exchanged with proposers and stored in the control file:
//! fixed layouts, no framing, each the sum of its field widths.

use vstd::prelude::*;
use crate::wire::{
    dec_be64, dec_le128, dec_le32, dec_le64, get_be64, get_le128, get_le32, get_le64, le128, le32,
    le64, be64, lemma_be64_round_trip, lemma_dec_be64_at, lemma_dec_le128_at, lemma_dec_le32_at, lemma_dec_le64_at,
    put_be64, put_le128, put_le32, put_le64,
};

verus! {

/// A buffer held fewer bytes than the record needs.
#[derive(Clone, Copy, Debug, PartialEq, Eq, Structural)]
pub enum DecodeError {
    Truncated,
}

pub const NODE_ID_LEN: usize = 24;

pub const SERVER_INFO_LEN: usize = 56;

pub const REQUEST_VOTE_LEN: usize = 40;

pub const SAFE_KEEPER_INFO_LEN: usize = 96;

pub const HOT_STANDBY_FEEDBACK_LEN: usize = 24;

pub const SAFE_KEEPER_REQUEST_LEN: usize = 56;

pub const SAFE_KEEPER_RESPONSE_LEN: usize = 40;

/// Unique identifier of a proposer: its term, then a tie-breaking uuid.
/// On the wire the uuid comes first (little-endian), then the term (big-endian).
#[derive(Clone, Copy, Debug, PartialEq, Eq, Structural)]
pub struct NodeId {
    pub uuid: u128,
    pub term: u64,
}

impl NodeId {
    /// The packed bytes.
    pub open spec fn spec_bytes(self) -> Seq<u8> {
        le128(self.uuid)
            + be64(self.term)
    }

    /// The record whose packed bytes start at `at` in `s`.
    pub open spec fn spec_at(s: Seq<u8>, at: int) -> NodeId {
        NodeId {
            uuid: dec_le128(s, at + 0),
            term: dec_be64(s, at + 16),
        }
    }

    /// Wherever the packed bytes of `x` stand, unpacking there gives `x`.
    pub proof fn lemma_decode_at(s: Seq<u8>, at: int, x: NodeId)
        requires
            0 <= at,
            at + 24 <= s.len(),
            s.subrange(at, at + 24) == x.spec_bytes(),
        ensures
            NodeId::spec_at(s, at) == x,
    {
        let b = x.spec_bytes();
        assert(s.subrange(at + 0, at + 16) =~= b.subrange(0, 16));
        assert(b.subrange(0, 16) =~= le128(x.uuid));
        lemma_dec_le128_at(s, at + 0, x.uuid);
        assert(s.subrange(at + 16, at + 24) =~= b.subrange(16, 24));
        assert(b.subrange(16, 24) =~= be64(x.term));
        lemma_dec_be64_at(s, at + 16, x.term);
    }

    /// Unpacking the packed bytes of a record gives the record back.
    pub proof fn lemma_round_trip(x: NodeId)
        ensures
            NodeId::spec_at(x.spec_bytes(), 0) == x,
            x.spec_bytes().len() == NODE_ID_LEN,
    {
        assert(x.spec_bytes().subrange(0, 24) =~= x.spec_bytes());
        NodeId::lemma_decode_at(x.spec_bytes(), 0, x);
    }

    /// Appends the packed record to `buf`.
    pub fn pack(&self, buf: &mut Vec<u8>)
        ensures
            final(buf)@ == old(buf)@ + self.spec_bytes(),
    {
        put_le128(buf, self.uuid);
        put_be64(buf, self.term);
        assert(final(buf)@ =~= old(buf)@ + self.spec_bytes());
    }

    /// Reads the record packed at `pos`.
    pub fn unpack_at(buf: &[u8], pos: usize) -> (r: NodeId)
        requires
            pos + NODE_ID_LEN <= buf@.len() <= usize::MAX,
        ensures
            r == NodeId::spec_at(buf@, pos as int),
    {
        NodeId {
            uuid: get_le128(buf, pos + 0),
            term: get_be64(buf, pos + 16),
        }
    }

    /// Reads the record packed at the start of `buf`; fails on a short buffer.
    pub fn unpack(buf: &[u8]) -> (r: Result<NodeId, DecodeError>)
        ensures
            buf@.len() < NODE_ID_LEN ==> r == Err::<NodeId, DecodeError>(DecodeError::Truncated),
            buf@.len() >= NODE_ID_LEN ==> r == Ok::<NodeId, DecodeError>(NodeId::spec_at(buf@, 0)),
    {
        if buf.len() < NODE_ID_LEN {
            Err(DecodeError::Truncated)
        } else {
            Ok(NodeId::unpack_at(buf, 0))
        }
    }
}

/// What a proposer reports of its server at the start of a handshake.
#[derive(Clone, Copy, Debug, PartialEq, Eq, Structural)]
pub struct ServerInfo {
    /// Version of the proposer-safekeeper protocol.
    pub protocol_version: u32,
    /// Version of the database server.
    pub pg_version: u32,
    pub node_id: NodeId,
    /// Identifier of the database system (the tenant).
    pub system_id: u64,
    pub wal_end: u64,
    pub timeline: u32,
    /// Size of one log segment file in bytes.
    pub wal_seg_size: u32,
}

impl ServerInfo {
    /// The packed bytes.
    pub open spec fn spec_bytes(self) -> Seq<u8> {
        le32(self.protocol_version)
            + le32(self.pg_version)
            + self.node_id.spec_bytes()
            + le64(self.system_id)
            + le64(self.wal_end)
            + le32(self.timeline)
            + le32(self.wal_seg_size)
    }

    /// The record whose packed bytes start at `at` in `s`.
    pub open spec fn spec_at(s: Seq<u8>, at: int) -> ServerInfo {
        ServerInfo {
            protocol_version: dec_le32(s, at + 0),
            pg_version: dec_le32(s, at + 4),
            node_id: NodeId::spec_at(s, at + 8),
            system_id: dec_le64(s, at + 32),
            wal_end: dec_le64(s, at + 40),
            timeline: dec_le32(s, at + 48),
            wal_seg_size: dec_le32(s, at + 52),
        }
    }

    /// Wherever the packed bytes of `x` stand, unpacking there gives `x`.
    pub proof fn lemma_decode_at(s: Seq<u8>, at: int, x: ServerInfo)
        requires
            0 <= at,
            at + 56 <= s.len(),
            s.subrange(at, at + 56) == x.spec_bytes(),
        ensures
            ServerInfo::spec_at(s, at) == x,
    {
        let b = x.spec_bytes();
        assert(s.subrange(at + 0, at + 4) =~= b.subrange(0, 4));
        assert(b.subrange(0, 4) =~= le32(x.protocol_version));
        lemma_dec_le32_at(s, at + 0, x.protocol_version);
        assert(s.subrange(at + 4, at + 8) =~= b.subrange(4, 8));
        assert(b.subrange(4, 8) =~= le32(x.pg_version));
        lemma_dec_le32_at(s, at + 4, x.pg_version);
        assert(s.subrange(at + 8, at + 32) =~= b.subrange(8, 32));
        assert(b.subrange(8, 32) =~= x.node_id.spec_bytes());
        NodeId::lemma_decode_at(s, at + 8, x.node_id);
        assert(s.subrange(at + 32, at + 40) =~= b.subrange(32, 40));
        assert(b.subrange(32, 40) =~= le64(x.system_id));
        lemma_dec_le64_at(s, at + 32, x.system_id);
        assert(s.subrange(at + 40, at + 48) =~= b.subrange(40, 48));
        assert(b.subrange(40, 48) =~= le64(x.wal_end));
        lemma_dec_le64_at(s, at + 40, x.wal_end);
        assert(s.subrange(at + 48, at + 52) =~= b.subrange(48, 52));
        assert(b.subrange(48, 52) =~= le32(x.timeline));
        lemma_dec_le32_at(s, at + 48, x.timeline);
        assert(s.subrange(at + 52, at + 56) =~= b.subrange(52, 56));
        assert(b.subrange(52, 56) =~= le32(x.wal_seg_size));
        lemma_dec_le32_at(s, at + 52, x.wal_seg_size);
    }

    /// Unpacking the packed bytes of a record gives the record back.
    pub proof fn lemma_round_trip(x: ServerInfo)
        ensures
            ServerInfo::spec_at(x.spec_bytes(), 0) == x,
            x.spec_bytes().len() == SERVER_INFO_LEN,
    {
        assert(x.spec_bytes().subrange(0, 56) =~= x.spec_bytes());
        ServerInfo::lemma_decode_at(x.spec_bytes(), 0, x);
    }

    /// Appends the packed record to `buf`.
    pub fn pack(&self, buf: &mut Vec<u8>)
        ensures
            final(buf)@ == old(buf)@ + self.spec_bytes(),
    {
        put_le32(buf, self.protocol_version);
        put_le32(buf, self.pg_version);
        self.node_id.pack(buf);
        put_le64(buf, self.system_id);
        put_le64(buf, self.wal_end);
        put_le32(buf, self.timeline);
        put_le32(buf, self.wal_seg_size);
        assert(final(buf)@ =~= old(buf)@ + self.spec_bytes());
    }

    /// Reads the record packed at `pos`.
    pub fn unpack_at(buf: &[u8], pos: usize) -> (r: ServerInfo)
        requires
            pos + SERVER_INFO_LEN <= buf@.len() <= usize::MAX,
        ensures
            r == ServerInfo::spec_at(buf@, pos as int),
    {
        ServerInfo {
            protocol_version: get_le32(buf, pos + 0),
            pg_version: get_le32(buf, pos + 4),
            node_id: NodeId::unpack_at(buf, pos + 8),
            system_id: get_le64(buf, pos + 32),
            wal_end: get_le64(buf, pos + 40),
            timeline: get_le32(buf, pos + 48),
            wal_seg_size: get_le32(buf, pos + 52),
        }
    }

    /// Reads the record packed at the start of `buf`; fails on a short buffer.
    pub fn unpack(buf: &[u8]) -> (r: Result<ServerInfo, DecodeError>)
        ensures
            buf@.len() < SERVER_INFO_LEN ==> r == Err::<ServerInfo, DecodeError>(DecodeError::Truncated),
            buf@.len() >= SERVER_INFO_LEN ==> r == Ok::<ServerInfo, DecodeError>(ServerInfo::spec_at(buf@, 0)),
    {
        if buf.len() < SERVER_INFO_LEN {
            Err(DecodeError::Truncated)
        } else {
            Ok(ServerInfo::unpack_at(buf, 0))
        }
    }
}

/// Vote request of a candidate proposer.
#[derive(Clone, Copy, Debug, PartialEq, Eq, Structural)]
pub struct RequestVote {
    pub node_id: NodeId,
    /// Volume commit position advertised by the candidate.
    pub vcl: u64,
    /// Epoch that a safekeeper joins once it has caught up.
    pub epoch: u64,
}

impl RequestVote {
    /// The packed bytes.
    pub open spec fn spec_bytes(self) -> Seq<u8> {
        self.node_id.spec_bytes()
            + le64(self.vcl)
            + le64(self.epoch)
    }

    /// The record whose packed bytes start at `at` in `s`.
    pub open spec fn spec_at(s: Seq<u8>, at: int) -> RequestVote {
        RequestVote {
            node_id: NodeId::spec_at(s, at + 0),
            vcl: dec_le64(s, at + 24),
            epoch: dec_le64(s, at + 32),
        }
    }

    /// Wherever the packed bytes of `x` stand, unpacking there gives `x`.
    pub proof fn lemma_decode_at(s: Seq<u8>, at: int, x: RequestVote)
        requires
            0 <= at,
            at + 40 <= s.len(),
            s.subrange(at, at + 40) == x.spec_bytes(),
        ensures
            RequestVote::spec_at(s, at) == x,
    {
        let b = x.spec_bytes();
        assert(s.subrange(at + 0, at + 24) =~= b.subrange(0, 24));
        assert(b.subrange(0, 24) =~= x.node_id.spec_bytes());
        NodeId::lemma_decode_at(s, at + 0, x.node_id);
        assert(s.subrange(at + 24, at + 32) =~= b.subrange(24, 32));
        assert(b.subrange(24, 32) =~= le64(x.vcl));
        lemma_dec_le64_at(s, at + 24, x.vcl);
        assert(s.subrange(at + 32, at + 40) =~= b.subrange(32, 40));
        assert(b.subrange(32, 40) =~= le64(x.epoch));
        lemma_dec_le64_at(s, at + 32, x.epoch);
    }

    /// Unpacking the packed bytes of a record gives the record back.
    pub proof fn lemma_round_trip(x: RequestVote)
        ensures
            RequestVote::spec_at(x.spec_bytes(), 0) == x,
            x.spec_bytes().len() == REQUEST_VOTE_LEN,
    {
        assert(x.spec_bytes().subrange(0, 40) =~= x.spec_bytes());
        RequestVote::lemma_decode_at(x.spec_bytes(), 0, x);
    }

    /// Appends the packed record to `buf`.
    pub fn pack(&self, buf: &mut Vec<u8>)
        ensures
            final(buf)@ == old(buf)@ + self.spec_bytes(),
    {
        self.node_id.pack(buf);
        put_le64(buf, self.vcl);
        put_le64(buf, self.epoch);
        assert(final(buf)@ =~= old(buf)@ + self.spec_bytes());
    }

    /// Reads the record packed at `pos`.
    pub fn unpack_at(buf: &[u8], pos: usize) -> (r: RequestVote)
        requires
            pos + REQUEST_VOTE_LEN <= buf@.len() <= usize::MAX,
        ensures
            r == RequestVote::spec_at(buf@, pos as int),
    {
        RequestVote {
            node_id: NodeId::unpack_at(buf, pos + 0),
            vcl: get_le64(buf, pos + 24),
            epoch: get_le64(buf, pos + 32),
        }
    }

    /// Reads the record packed at the start of `buf`; fails on a short buffer.
    pub fn unpack(buf: &[u8]) -> (r: Result<RequestVote, DecodeError>)
        ensures
            buf@.len() < REQUEST_VOTE_LEN ==> r == Err::<RequestVote, DecodeError>(DecodeError::Truncated),
            buf@.len() >= REQUEST_VOTE_LEN ==> r == Ok::<RequestVote, DecodeError>(RequestVote::spec_at(buf@, 0)),
    {
        if buf.len() < REQUEST_VOTE_LEN {
            Err(DecodeError::Truncated)
        } else {
            Ok(RequestVote::unpack_at(buf, 0))
        }
    }
}

/// Persistent state of a safekeeper, as stored in its control file.
#[derive(Clone, Copy, Debug, PartialEq, Eq, Structural)]
pub struct SafeKeeperInfo {
    pub magic: u32,
    pub format_version: u32,
    pub epoch: u64,
    pub server: ServerInfo,
    /// Log prefix acknowledged by a quorum.
    pub commit_lsn: u64,
    /// Log prefix flushed locally.
    pub flush_lsn: u64,
    /// Lowest position still needed for recovery.
    pub restart_lsn: u64,
}

impl SafeKeeperInfo {
    /// The packed bytes.
    pub open spec fn spec_bytes(self) -> Seq<u8> {
        le32(self.magic)
            + le32(self.format_version)
            + le64(self.epoch)
            + self.server.spec_bytes()
            + le64(self.commit_lsn)
            + le64(self.flush_lsn)
            + le64(self.restart_lsn)
    }

    /// The record whose packed bytes start at `at` in `s`.
    pub open spec fn spec_at(s: Seq<u8>, at: int) -> SafeKeeperInfo {
        SafeKeeperInfo {
            magic: dec_le32(s, at + 0),
            format_version: dec_le32(s, at + 4),
            epoch: dec_le64(s, at + 8),
            server: ServerInfo::spec_at(s, at + 16),
            commit_lsn: dec_le64(s, at + 72),
            flush_lsn: dec_le64(s, at + 80),
            restart_lsn: dec_le64(s, at + 88),
        }
    }

    /// Wherever the packed bytes of `x` stand, unpacking there gives `x`.
    pub proof fn lemma_decode_at(s: Seq<u8>, at: int, x: SafeKeeperInfo)
        requires
            0 <= at,
            at + 96 <= s.len(),
            s.subrange(at, at + 96) == x.spec_bytes(),
        ensures
            SafeKeeperInfo::spec_at(s, at) == x,
    {
        let b = x.spec_bytes();
        assert(s.subrange(at + 0, at + 4) =~= b.subrange(0, 4));
        assert(b.subrange(0, 4) =~= le32(x.magic));
        lemma_dec_le32_at(s, at + 0, x.magic);
        assert(s.subrange(at + 4, at + 8) =~= b.subrange(4, 8));
        assert(b.subrange(4, 8) =~= le32(x.format_version));
        lemma_dec_le32_at(s, at + 4, x.format_version);
        assert(s.subrange(at + 8, at + 16) =~= b.subrange(8, 16));
        assert(b.subrange(8, 16) =~= le64(x.epoch));
        lemma_dec_le64_at(s, at + 8, x.epoch);
        assert(s.subrange(at + 16, at + 72) =~= b.subrange(16, 72));
        assert(b.subrange(16, 72) =~= x.server.spec_bytes());
        ServerInfo::lemma_decode_at(s, at + 16, x.server);
        assert(s.subrange(at + 72, at + 80) =~= b.subrange(72, 80));
        assert(b.subrange(72, 80) =~= le64(x.commit_lsn));
        lemma_dec_le64_at(s, at + 72, x.commit_lsn);
        assert(s.subrange(at + 80, at + 88) =~= b.subrange(80, 88));
        assert(b.subrange(80, 88) =~= le64(x.flush_lsn));
        lemma_dec_le64_at(s, at + 80, x.flush_lsn);
        assert(s.subrange(at + 88, at + 96) =~= b.subrange(88, 96));
        assert(b.subrange(88, 96) =~= le64(x.restart_lsn));
        lemma_dec_le64_at(s, at + 88, x.restart_lsn);
    }

    /// Unpacking the packed bytes of a record gives the record back.
    pub proof fn lemma_round_trip(x: SafeKeeperInfo)
        ensures
            SafeKeeperInfo::spec_at(x.spec_bytes(), 0) == x,
            x.spec_bytes().len() == SAFE_KEEPER_INFO_LEN,
    {
        assert(x.spec_bytes().subrange(0, 96) =~= x.spec_bytes());
        SafeKeeperInfo::lemma_decode_at(x.spec_bytes(), 0, x);
    }

    /// Appends the packed record to `buf`.
    pub fn pack(&self, buf: &mut Vec<u8>)
        ensures
            final(buf)@ == old(buf)@ + self.spec_bytes(),
    {
        put_le32(buf, self.magic);
        put_le32(buf, self.format_version);
        put_le64(buf, self.epoch);
        self.server.pack(buf);
        put_le64(buf, self.commit_lsn);
        put_le64(buf, self.flush_lsn);
        put_le64(buf, self.restart_lsn);
        assert(final(buf)@ =~= old(buf)@ + self.spec_bytes());
    }

    /// Reads the record packed at `pos`.
    pub fn unpack_at(buf: &[u8], pos: usize) -> (r: SafeKeeperInfo)
        requires
            pos + SAFE_KEEPER_INFO_LEN <= buf@.len() <= usize::MAX,
        ensures
            r == SafeKeeperInfo::spec_at(buf@, pos as int),
    {
        SafeKeeperInfo {
            magic: get_le32(buf, pos + 0),
            format_version: get_le32(buf, pos + 4),
            epoch: get_le64(buf, pos + 8),
            server: ServerInfo::unpack_at(buf, pos + 16),
            commit_lsn: get_le64(buf, pos + 72),
            flush_lsn: get_le64(buf, pos + 80),
            restart_lsn: get_le64(buf, pos + 88),
        }
    }

    /// Reads the record packed at the start of `buf`; fails on a short buffer.
    pub fn unpack(buf: &[u8]) -> (r: Result<SafeKeeperInfo, DecodeError>)
        ensures
            buf@.len() < SAFE_KEEPER_INFO_LEN ==> r == Err::<SafeKeeperInfo, DecodeError>(DecodeError::Truncated),
            buf@.len() >= SAFE_KEEPER_INFO_LEN ==> r == Ok::<SafeKeeperInfo, DecodeError>(SafeKeeperInfo::spec_at(buf@, 0)),
    {
        if buf.len() < SAFE_KEEPER_INFO_LEN {
            Err(DecodeError::Truncated)
        } else {
            Ok(SafeKeeperInfo::unpack_at(buf, 0))
        }
    }
}

/// Feedback of replicas, aggregated over all of them.
#[derive(Clone, Copy, Debug, PartialEq, Eq, Structural)]
pub struct HotStandbyFeedback {
    pub ts: u64,
    pub xmin: u64,
    pub catalog_xmin: u64,
}

impl HotStandbyFeedback {
    /// The packed bytes.
    pub open spec fn spec_bytes(self) -> Seq<u8> {
        le64(self.ts)
            + le64(self.xmin)
            + le64(self.catalog_xmin)
    }

    /// The record whose packed bytes start at `at` in `s`.
    pub open spec fn spec_at(s: Seq<u8>, at: int) -> HotStandbyFeedback {
        HotStandbyFeedback {
            ts: dec_le64(s, at + 0),
            xmin: dec_le64(s, at + 8),
            catalog_xmin: dec_le64(s, at + 16),
        }
    }

    /// Wherever the packed bytes of `x` stand, unpacking there gives `x`.
    pub proof fn lemma_decode_at(s: Seq<u8>, at: int, x: HotStandbyFeedback)
        requires
            0 <= at,
            at + 24 <= s.len(),
            s.subrange(at, at + 24) == x.spec_bytes(),
        ensures
            HotStandbyFeedback::spec_at(s, at) == x,
    {
        let b = x.spec_bytes();
        assert(s.subrange(at + 0, at + 8) =~= b.subrange(0, 8));
        assert(b.subrange(0, 8) =~= le64(x.ts));
        lemma_dec_le64_at(s, at + 0, x.ts);
        assert(s.subrange(at + 8, at + 16) =~= b.subrange(8, 16));
        assert(b.subrange(8, 16) =~= le64(x.xmin));
        lemma_dec_le64_at(s, at + 8, x.xmin);
        assert(s.subrange(at + 16, at + 24) =~= b.subrange(16, 24));
        assert(b.subrange(16, 24) =~= le64(x.catalog_xmin));
        lemma_dec_le64_at(s, at + 16, x.catalog_xmin);
    }

    /// Unpacking the packed bytes of a record gives the record back.
    pub proof fn lemma_round_trip(x: HotStandbyFeedback)
        ensures
            HotStandbyFeedback::spec_at(x.spec_bytes(), 0) == x,
            x.spec_bytes().len() == HOT_STANDBY_FEEDBACK_LEN,
    {
        assert(x.spec_bytes().subrange(0, 24) =~= x.spec_bytes());
        HotStandbyFeedback::lemma_decode_at(x.spec_bytes(), 0, x);
    }

    /// Appends the packed record to `buf`.
    pub fn pack(&self, buf: &mut Vec<u8>)
        ensures
            final(buf)@ == old(buf)@ + self.spec_bytes(),
    {
        put_le64(buf, self.ts);
        put_le64(buf, self.xmin);
        put_le64(buf, self.catalog_xmin);
        assert(final(buf)@ =~= old(buf)@ + self.spec_bytes());
    }

    /// Reads the record packed at `pos`.
    pub fn unpack_at(buf: &[u8], pos: usize) -> (r: HotStandbyFeedback)
        requires
            pos + HOT_STANDBY_FEEDBACK_LEN <= buf@.len() <= usize::MAX,
        ensures
            r == HotStandbyFeedback::spec_at(buf@, pos as int),
    {
        HotStandbyFeedback {
            ts: get_le64(buf, pos + 0),
            xmin: get_le64(buf, pos + 8),
            catalog_xmin: get_le64(buf, pos + 16),
        }
    }

    /// Reads the record packed at the start of `buf`; fails on a short buffer.
    pub fn unpack(buf: &[u8]) -> (r: Result<HotStandbyFeedback, DecodeError>)
        ensures
            buf@.len() < HOT_STANDBY_FEEDBACK_LEN ==> r == Err::<HotStandbyFeedback, DecodeError>(DecodeError::Truncated),
            buf@.len() >= HOT_STANDBY_FEEDBACK_LEN ==> r == Ok::<HotStandbyFeedback, DecodeError>(HotStandbyFeedback::spec_at(buf@, 0)),
    {
        if buf.len() < HOT_STANDBY_FEEDBACK_LEN {
            Err(DecodeError::Truncated)
        } else {
            Ok(HotStandbyFeedback::unpack_at(buf, 0))
        }
    }
}

/// Header of one batch of log bytes sent by the proposer.
#[derive(Clone, Copy, Debug, PartialEq, Eq, Structural)]
pub struct SafeKeeperRequest {
    pub sender_id: NodeId,
    /// Start of the batch; zero ends the stream.
    pub begin_lsn: u64,
    pub end_lsn: u64,
    pub restart_lsn: u64,
    pub commit_lsn: u64,
}

impl SafeKeeperRequest {
    /// The packed bytes.
    pub open spec fn spec_bytes(self) -> Seq<u8> {
        self.sender_id.spec_bytes()
            + le64(self.begin_lsn)
            + le64(self.end_lsn)
            + le64(self.restart_lsn)
            + le64(self.commit_lsn)
    }

    /// The record whose packed bytes start at `at` in `s`.
    pub open spec fn spec_at(s: Seq<u8>, at: int) -> SafeKeeperRequest {
        SafeKeeperRequest {
            sender_id: NodeId::spec_at(s, at + 0),
            begin_lsn: dec_le64(s, at + 24),
            end_lsn: dec_le64(s, at + 32),
            restart_lsn: dec_le64(s, at + 40),
            commit_lsn: dec_le64(s, at + 48),
        }
    }

    /// Wherever the packed bytes of `x` stand, unpacking there gives `x`.
    pub proof fn lemma_decode_at(s: Seq<u8>, at: int, x: SafeKeeperRequest)
        requires
            0 <= at,
            at + 56 <= s.len(),
            s.subrange(at, at + 56) == x.spec_bytes(),
        ensures
            SafeKeeperRequest::spec_at(s, at) == x,
    {
        let b = x.spec_bytes();
        assert(s.subrange(at + 0, at + 24) =~= b.subrange(0, 24));
        assert(b.subrange(0, 24) =~= x.sender_id.spec_bytes());
        NodeId::lemma_decode_at(s, at + 0, x.sender_id);
        assert(s.subrange(at + 24, at + 32) =~= b.subrange(24, 32));
        assert(b.subrange(24, 32) =~= le64(x.begin_lsn));
        lemma_dec_le64_at(s, at + 24, x.begin_lsn);
        assert(s.subrange(at + 32, at + 40) =~= b.subrange(32, 40));
        assert(b.subrange(32, 40) =~= le64(x.end_lsn));
        lemma_dec_le64_at(s, at + 32, x.end_lsn);
        assert(s.subrange(at + 40, at + 48) =~= b.subrange(40, 48));
        assert(b.subrange(40, 48) =~= le64(x.restart_lsn));
        lemma_dec_le64_at(s, at + 40, x.restart_lsn);
        assert(s.subrange(at + 48, at + 56) =~= b.subrange(48, 56));
        assert(b.subrange(48, 56) =~= le64(x.commit_lsn));
        lemma_dec_le64_at(s, at + 48, x.commit_lsn);
    }

    /// Unpacking the packed bytes of a record gives the record back.
    pub proof fn lemma_round_trip(x: SafeKeeperRequest)
        ensures
            SafeKeeperRequest::spec_at(x.spec_bytes(), 0) == x,
            x.spec_bytes().len() == SAFE_KEEPER_REQUEST_LEN,
    {
        assert(x.spec_bytes().subrange(0, 56) =~= x.spec_bytes());
        SafeKeeperRequest::lemma_decode_at(x.spec_bytes(), 0, x);
    }

    /// Appends the packed record to `buf`.
    pub fn pack(&self, buf: &mut Vec<u8>)
        ensures
            final(buf)@ == old(buf)@ + self.spec_bytes(),
    {
        self.sender_id.pack(buf);
        put_le64(buf, self.begin_lsn);
        put_le64(buf, self.end_lsn);
        put_le64(buf, self.restart_lsn);
        put_le64(buf, self.commit_lsn);
        assert(final(buf)@ =~= old(buf)@ + self.spec_bytes());
    }

    /// Reads the record packed at `pos`.
    pub fn unpack_at(buf: &[u8], pos: usize) -> (r: SafeKeeperRequest)
        requires
            pos + SAFE_KEEPER_REQUEST_LEN <= buf@.len() <= usize::MAX,
        ensures
            r == SafeKeeperRequest::spec_at(buf@, pos as int),
    {
        SafeKeeperRequest {
            sender_id: NodeId::unpack_at(buf, pos + 0),
            begin_lsn: get_le64(buf, pos + 24),
            end_lsn: get_le64(buf, pos + 32),
            restart_lsn: get_le64(buf, pos + 40),
            commit_lsn: get_le64(buf, pos + 48),
        }
    }

    /// Reads the record packed at the start of `buf`; fails on a short buffer.
    pub fn unpack(buf: &[u8]) -> (r: Result<SafeKeeperRequest, DecodeError>)
        ensures
            buf@.len() < SAFE_KEEPER_REQUEST_LEN ==> r == Err::<SafeKeeperRequest, DecodeError>(DecodeError::Truncated),
            buf@.len() >= SAFE_KEEPER_REQUEST_LEN ==> r == Ok::<SafeKeeperRequest, DecodeError>(SafeKeeperRequest::spec_at(buf@, 0)),
    {
        if buf.len() < SAFE_KEEPER_REQUEST_LEN {
            Err(DecodeError::Truncated)
        } else {
            Ok(SafeKeeperRequest::unpack_at(buf, 0))
        }
    }
}

/// Acknowledgement of one batch.
#[derive(Clone, Copy, Debug, PartialEq, Eq, Structural)]
pub struct SafeKeeperResponse {
    pub epoch: u64,
    pub flush_lsn: u64,
    pub hs_feedback: HotStandbyFeedback,
}

impl SafeKeeperResponse {
    /// The packed bytes.
    pub open spec fn spec_bytes(self) -> Seq<u8> {
        le64(self.epoch)
            + le64(self.flush_lsn)
            + self.hs_feedback.spec_bytes()
    }

    /// The record whose packed bytes start at `at` in `s`.
    pub open spec fn spec_at(s: Seq<u8>, at: int) -> SafeKeeperResponse {
        SafeKeeperResponse {
            epoch: dec_le64(s, at + 0),
            flush_lsn: dec_le64(s, at + 8),
            hs_feedback: HotStandbyFeedback::spec_at(s, at + 16),
        }
    }

    /// Wherever the packed bytes of `x` stand, unpacking there gives `x`.
    pub proof fn lemma_decode_at(s: Seq<u8>, at: int, x: SafeKeeperResponse)
        requires
            0 <= at,
            at + 40 <= s.len(),
            s.subrange(at, at + 40) == x.spec_bytes(),
        ensures
            SafeKeeperResponse::spec_at(s, at) == x,
    {
        let b = x.spec_bytes();
        assert(s.subrange(at + 0, at + 8) =~= b.subrange(0, 8));
        assert(b.subrange(0, 8) =~= le64(x.epoch));
        lemma_dec_le64_at(s, at + 0, x.epoch);
        assert(s.subrange(at + 8, at + 16) =~= b.subrange(8, 16));
        assert(b.subrange(8, 16) =~= le64(x.flush_lsn));
        lemma_dec_le64_at(s, at + 8, x.flush_lsn);
        assert(s.subrange(at + 16, at + 40) =~= b.subrange(16, 40));
        assert(b.subrange(16, 40) =~= x.hs_feedback.spec_bytes());
        HotStandbyFeedback::lemma_decode_at(s, at + 16, x.hs_feedback);
    }

    /// Unpacking the packed bytes of a record gives the record back.
    pub proof fn lemma_round_trip(x: SafeKeeperResponse)
        ensures
            SafeKeeperResponse::spec_at(x.spec_bytes(), 0) == x,
            x.spec_bytes().len() == SAFE_KEEPER_RESPONSE_LEN,
    {
        assert(x.spec_bytes().subrange(0, 40) =~= x.spec_bytes());
        SafeKeeperResponse::lemma_decode_at(x.spec_bytes(), 0, x);
    }

    /// Appends the packed record to `buf`.
    pub fn pack(&self, buf: &mut Vec<u8>)
        ensures
            final(buf)@ == old(buf)@ + self.spec_bytes(),
    {
        put_le64(buf, self.epoch);
        put_le64(buf, self.flush_lsn);
        self.hs_feedback.pack(buf);
        assert(final(buf)@ =~= old(buf)@ + self.spec_bytes());
    }

    /// Reads the record packed at `pos`.
    pub fn unpack_at(buf: &[u8], pos: usize) -> (r: SafeKeeperResponse)
        requires
            pos + SAFE_KEEPER_RESPONSE_LEN <= buf@.len() <= usize::MAX,
        ensures
            r == SafeKeeperResponse::spec_at(buf@, pos as int),
    {
        SafeKeeperResponse {
            epoch: get_le64(buf, pos + 0),
            flush_lsn: get_le64(buf, pos + 8),
            hs_feedback: HotStandbyFeedback::unpack_at(buf, pos + 16),
        }
    }

    /// Reads the record packed at the start of `buf`; fails on a short buffer.
    pub fn unpack(buf: &[u8]) -> (r: Result<SafeKeeperResponse, DecodeError>)
        ensures
            buf@.len() < SAFE_KEEPER_RESPONSE_LEN ==> r == Err::<SafeKeeperResponse, DecodeError>(DecodeError::Truncated),
            buf@.len() >= SAFE_KEEPER_RESPONSE_LEN ==> r == Ok::<SafeKeeperResponse, DecodeError>(SafeKeeperResponse::spec_at(buf@, 0)),
    {
        if buf.len() < SAFE_KEEPER_RESPONSE_LEN {
            Err(DecodeError::Truncated)
        } else {
            Ok(SafeKeeperResponse::unpack_at(buf, 0))
        }
    }
}

/// Magic number that starts every control file.
pub const SK_MAGIC: u32 = 0xCAFECEEF;
/// Layout version of the control file.
pub const SK_FORMAT_VERSION: u32 = 1;
/// Version of the proposer-safekeeper protocol spoken here.
pub const SK_PROTOCOL_VERSION: u32 = 1;
/// Server version recorded before any proposer has connected.
pub const UNKNOWN_SERVER_VERSION: u32 = 0;

impl NodeId {
    /// Node identifiers are ordered by term first, then by uuid.
    pub open spec fn spec_lt(self, other: NodeId) -> bool {
        self.term < other.term || (self.term == other.term && self.uuid < other.uuid)
    }

    pub fn lt(&self, other: &NodeId) -> (r: bool)
        ensures
            r == self.spec_lt(*other),
    {
        self.term < other.term || (self.term == other.term && self.uuid < other.uuid)
    }
}

impl SafeKeeperInfo {
    /// The state of a safekeeper that has never met a proposer.
    pub open spec fn spec_new() -> SafeKeeperInfo {
        SafeKeeperInfo {
            magic: SK_MAGIC,
            format_version: SK_FORMAT_VERSION,
            epoch: 0,
            server: ServerInfo {
                protocol_version: SK_PROTOCOL_VERSION,
                pg_version: UNKNOWN_SERVER_VERSION,
                node_id: NodeId { term: 0, uuid: 0 },
                system_id: 0,
                wal_end: 0,
                timeline: 0,
                wal_seg_size: 0,
            },
            commit_lsn: 0,
            flush_lsn: 0,
            restart_lsn: 0,
        }
    }

    pub fn new() -> (r: SafeKeeperInfo)
        ensures
            r == SafeKeeperInfo::spec_new(),
    {
        SafeKeeperInfo {
            magic: SK_MAGIC,
            format_version: SK_FORMAT_VERSION,
            epoch: 0,
            server: ServerInfo {
                protocol_version: SK_PROTOCOL_VERSION,
                pg_version: UNKNOWN_SERVER_VERSION,
                node_id: NodeId { term: 0, uuid: 0 },
                system_id: 0,
                wal_end: 0,
                timeline: 0,
                wal_seg_size: 0,
            },
            commit_lsn: 0,
            flush_lsn: 0,
            restart_lsn: 0,
        }
    }
}

impl HotStandbyFeedback {
    /// Feedback before any replica has reported: the neutral element of `merge`.
    pub open spec fn spec_initial() -> HotStandbyFeedback {
        HotStandbyFeedback { ts: 0, xmin: u64::MAX, catalog_xmin: u64::MAX }
    }

    pub fn initial() -> (r: HotStandbyFeedback)
        ensures
            r == HotStandbyFeedback::spec_initial(),
    {
        HotStandbyFeedback { ts: 0, xmin: u64::MAX, catalog_xmin: u64::MAX }
    }

    /// Aggregate of two feedbacks: the smaller horizons, the later timestamp.
    pub open spec fn spec_merge(self, other: HotStandbyFeedback) -> HotStandbyFeedback {
        HotStandbyFeedback {
            ts: if self.ts >= other.ts { self.ts } else { other.ts },
            xmin: if self.xmin <= other.xmin { self.xmin } else { other.xmin },
            catalog_xmin: if self.catalog_xmin <= other.catalog_xmin {
                self.catalog_xmin
            } else {
                other.catalog_xmin
            },
        }
    }

    /// Folds `other` into this aggregate.
    pub fn merge(&mut self, other: &HotStandbyFeedback)
        ensures
            *final(self) == old(self).spec_merge(*other),
    {
        if other.xmin < self.xmin {
            self.xmin = other.xmin;
        }
        if other.catalog_xmin < self.catalog_xmin {
            self.catalog_xmin = other.catalog_xmin;
        }
        if other.ts > self.ts {
            self.ts = other.ts;
        }
    }

    /// The feedback carried in a replica's message body: three big-endian
    /// integers, timestamp first.
    pub open spec fn spec_parse(s: Seq<u8>) -> HotStandbyFeedback {
        HotStandbyFeedback {
            ts: dec_be64(s, 0),
            xmin: dec_be64(s, 8),
            catalog_xmin: dec_be64(s, 16),
        }
    }

    /// Parses a replica's feedback message body; fails when it is short.
    pub fn parse(body: &[u8]) -> (r: Result<HotStandbyFeedback, DecodeError>)
        ensures
            body@.len() < 24 ==> r == Err::<HotStandbyFeedback, DecodeError>(
                DecodeError::Truncated,
            ),
            body@.len() >= 24 ==> r == Ok::<HotStandbyFeedback, DecodeError>(
                HotStandbyFeedback::spec_parse(body@),
            ),
    {
        if body.len() < 24 {
            return Err(DecodeError::Truncated);
        }
        Ok(
            HotStandbyFeedback {
                ts: get_be64(body, 0),
                xmin: get_be64(body, 8),
                catalog_xmin: get_be64(body, 16),
            },
        )
    }
}


/// Whether `a` sorts before `b` when both are compared byte by byte as
/// unsigned values, as `memcmp` does.
pub open spec fn bytes_lt(a: Seq<u8>, b: Seq<u8>) -> bool {
    exists|i: int|
        0 <= i < a.len() && i < b.len() && #[trigger] a[i] < b[i] && forall|j: int|
            0 <= j < i ==> a[j] == b[j]
}

proof fn lemma_be64_first_difference(v: u64, w: u64, i: int)
    requires
        0 <= i < 8,
        forall|j: int| 0 <= j < i ==> be64(v)[j] == be64(w)[j],
        be64(v)[i] < be64(w)[i],
    ensures
        v < w,
{
    if i == 0 {
        assert(((v >> 56u64) as u8) < ((w >> 56u64) as u8) ==> v < w) by (bit_vector);
    } else if i == 1 {
        assert(be64(v)[0] == be64(w)[0]);
        assert(((v >> 56u64) as u8) == ((w >> 56u64) as u8) && ((v >> 48u64) as u8) < ((w >> 48u64) as u8) ==> v < w) by (bit_vector);
    } else if i == 2 {
        assert(be64(v)[0] == be64(w)[0]);
        assert(be64(v)[1] == be64(w)[1]);
        assert(((v >> 56u64) as u8) == ((w >> 56u64) as u8) && ((v >> 48u64) as u8) == ((w >> 48u64) as u8) && ((v >> 40u64) as u8) < ((w >> 40u64) as u8) ==> v < w) by (bit_vector);
    } else if i == 3 {
        assert(be64(v)[0] == be64(w)[0]);
        assert(be64(v)[1] == be64(w)[1]);
        assert(be64(v)[2] == be64(w)[2]);
        assert(((v >> 56u64) as u8) == ((w >> 56u64) as u8) && ((v >> 48u64) as u8) == ((w >> 48u64) as u8) && ((v >> 40u64) as u8) == ((w >> 40u64) as u8) && ((v >> 32u64) as u8) < ((w >> 32u64) as u8) ==> v < w) by (bit_vector);
    } else if i == 4 {
        assert(be64(v)[0] == be64(w)[0]);
        assert(be64(v)[1] == be64(w)[1]);
        assert(be64(v)[2] == be64(w)[2]);
        assert(be64(v)[3] == be64(w)[3]);
        assert(((v >> 56u64) as u8) == ((w >> 56u64) as u8) && ((v >> 48u64) as u8) == ((w >> 48u64) as u8) && ((v >> 40u64) as u8) == ((w >> 40u64) as u8) && ((v >> 32u64) as u8) == ((w >> 32u64) as u8) && ((v >> 24u64) as u8) < ((w >> 24u64) as u8) ==> v < w) by (bit_vector);
    } else if i == 5 {
        assert(be64(v)[0] == be64(w)[0]);
        assert(be64(v)[1] == be64(w)[1]);
        assert(be64(v)[2] == be64(w)[2]);
        assert(be64(v)[3] == be64(w)[3]);
        assert(be64(v)[4] == be64(w)[4]);
        assert(((v >> 56u64) as u8) == ((w >> 56u64) as u8) && ((v >> 48u64) as u8) == ((w >> 48u64) as u8) && ((v >> 40u64) as u8) == ((w >> 40u64) as u8) && ((v >> 32u64) as u8) == ((w >> 32u64) as u8) && ((v >> 24u64) as u8) == ((w >> 24u64) as u8) && ((v >> 16u64) as u8) < ((w >> 16u64) as u8) ==> v < w) by (bit_vector);
    } else if i == 6 {
        assert(be64(v)[0] == be64(w)[0]);
        assert(be64(v)[1] == be64(w)[1]);
        assert(be64(v)[2] == be64(w)[2]);
        assert(be64(v)[3] == be64(w)[3]);
        assert(be64(v)[4] == be64(w)[4]);
        assert(be64(v)[5] == be64(w)[5]);
        assert(((v >> 56u64) as u8) == ((w >> 56u64) as u8) && ((v >> 48u64) as u8) == ((w >> 48u64) as u8) && ((v >> 40u64) as u8) == ((w >> 40u64) as u8) && ((v >> 32u64) as u8) == ((w >> 32u64) as u8) && ((v >> 24u64) as u8) == ((w >> 24u64) as u8) && ((v >> 16u64) as u8) == ((w >> 16u64) as u8) && ((v >> 8u64) as u8) < ((w >> 8u64) as u8) ==> v < w) by (bit_vector);
    } else if i == 7 {
        assert(be64(v)[0] == be64(w)[0]);
        assert(be64(v)[1] == be64(w)[1]);
        assert(be64(v)[2] == be64(w)[2]);
        assert(be64(v)[3] == be64(w)[3]);
        assert(be64(v)[4] == be64(w)[4]);
        assert(be64(v)[5] == be64(w)[5]);
        assert(be64(v)[6] == be64(w)[6]);
        assert(((v >> 56u64) as u8) == ((w >> 56u64) as u8) && ((v >> 48u64) as u8) == ((w >> 48u64) as u8) && ((v >> 40u64) as u8) == ((w >> 40u64) as u8) && ((v >> 32u64) as u8) == ((w >> 32u64) as u8) && ((v >> 24u64) as u8) == ((w >> 24u64) as u8) && ((v >> 16u64) as u8) == ((w >> 16u64) as u8) && ((v >> 8u64) as u8) == ((w >> 8u64) as u8) && (v as u8) < (w as u8) ==> v < w) by (bit_vector);
    }
}

proof fn lemma_be64_order(v: u64, w: u64)
    ensures
        bytes_lt(be64(v), be64(w)) <==> v < w,
{
    if bytes_lt(be64(v), be64(w)) {
        let i = choose|i: int|
            0 <= i < be64(v).len() && i < be64(w).len() && be64(v)[i] < be64(w)[i] && forall|j: int|
                0 <= j < i ==> be64(v)[j] == be64(w)[j];
        lemma_be64_first_difference(v, w, i);
    }
    if v < w {
        if be64(v)[0] != be64(w)[0] {
            if be64(v)[0] > be64(w)[0] {
                lemma_be64_first_difference(w, v, 0);
            }
            assert(be64(v)[0] < be64(w)[0]);
        }
        if be64(v)[0] == be64(w)[0] && be64(v)[1] != be64(w)[1] {
            if be64(v)[1] > be64(w)[1] {
                lemma_be64_first_difference(w, v, 1);
            }
            assert(be64(v)[1] < be64(w)[1]);
        }
        if be64(v)[0] == be64(w)[0] && be64(v)[1] == be64(w)[1] && be64(v)[2] != be64(w)[2] {
            if be64(v)[2] > be64(w)[2] {
                lemma_be64_first_difference(w, v, 2);
            }
            assert(be64(v)[2] < be64(w)[2]);
        }
        if be64(v)[0] == be64(w)[0] && be64(v)[1] == be64(w)[1] && be64(v)[2] == be64(w)[2] && be64(v)[3] != be64(w)[3] {
            if be64(v)[3] > be64(w)[3] {
                lemma_be64_first_difference(w, v, 3);
            }
            assert(be64(v)[3] < be64(w)[3]);
        }
        if be64(v)[0] == be64(w)[0] && be64(v)[1] == be64(w)[1] && be64(v)[2] == be64(w)[2] && be64(v)[3] == be64(w)[3] && be64(v)[4] != be64(w)[4] {
            if be64(v)[4] > be64(w)[4] {
                lemma_be64_first_difference(w, v, 4);
            }
            assert(be64(v)[4] < be64(w)[4]);
        }
        if be64(v)[0] == be64(w)[0] && be64(v)[1] == be64(w)[1] && be64(v)[2] == be64(w)[2] && be64(v)[3] == be64(w)[3] && be64(v)[4] == be64(w)[4] && be64(v)[5] != be64(w)[5] {
            if be64(v)[5] > be64(w)[5] {
                lemma_be64_first_difference(w, v, 5);
            }
            assert(be64(v)[5] < be64(w)[5]);
        }
        if be64(v)[0] == be64(w)[0] && be64(v)[1] == be64(w)[1] && be64(v)[2] == be64(w)[2] && be64(v)[3] == be64(w)[3] && be64(v)[4] == be64(w)[4] && be64(v)[5] == be64(w)[5] && be64(v)[6] != be64(w)[6] {
            if be64(v)[6] > be64(w)[6] {
                lemma_be64_first_difference(w, v, 6);
            }
            assert(be64(v)[6] < be64(w)[6]);
        }
        if be64(v)[0] == be64(w)[0] && be64(v)[1] == be64(w)[1] && be64(v)[2] == be64(w)[2] && be64(v)[3] == be64(w)[3] && be64(v)[4] == be64(w)[4] && be64(v)[5] == be64(w)[5] && be64(v)[6] == be64(w)[6] && be64(v)[7] != be64(w)[7] {
            if be64(v)[7] > be64(w)[7] {
                lemma_be64_first_difference(w, v, 7);
            }
            assert(be64(v)[7] < be64(w)[7]);
        }
        if be64(v)[0] == be64(w)[0] && be64(v)[1] == be64(w)[1] && be64(v)[2] == be64(w)[2] && be64(v)[3] == be64(w)[3] && be64(v)[4] == be64(w)[4] && be64(v)[5] == be64(w)[5] && be64(v)[6] == be64(w)[6] && be64(v)[7] == be64(w)[7] {
            lemma_be64_round_trip(v);
            lemma_be64_round_trip(w);
            assert(be64(v) =~= be64(w));
        }
    }
}

proof fn lemma_common_prefix_order(p: Seq<u8>, x: Seq<u8>, y: Seq<u8>)
    requires
        x.len() == y.len(),
    ensures
        bytes_lt(p + x, p + y) <==> bytes_lt(x, y),
{
    let a = p + x;
    let b = p + y;
    if bytes_lt(a, b) {
        let i = choose|i: int|
            0 <= i < a.len() && i < b.len() && #[trigger] a[i] < b[i] && forall|j: int|
                0 <= j < i ==> a[j] == b[j];
        assert(i >= p.len());
        let k = i - p.len();
        assert(x[k] < y[k]);
        assert forall|j: int| 0 <= j < k implies x[j] == y[j] by {
            assert(a[j + p.len()] == b[j + p.len()]);
        }
    }
    if bytes_lt(x, y) {
        let k = choose|k: int|
            0 <= k < x.len() && k < y.len() && #[trigger] x[k] < y[k] && forall|j: int|
                0 <= j < k ==> x[j] == y[j];
        let i = k + p.len();
        assert(a[i] < b[i]);
        assert forall|j: int| 0 <= j < i implies a[j] == b[j] by {
            if j >= p.len() {
                assert(x[j - p.len()] == y[j - p.len()]);
            }
        }
    }
}

/// For two identifiers that share their uuid, the packed bytes compared as
/// unsigned byte strings order them as the identifiers are ordered. The uuid
/// is packed first and little-endian, so only the big-endian term orders
/// the bytes beyond it.
pub proof fn lemma_packed_order(a: NodeId, b: NodeId)
    requires
        a.uuid == b.uuid,
    ensures
        bytes_lt(a.spec_bytes(), b.spec_bytes()) <==> a.spec_lt(b),
{
    lemma_be64_order(a.term, b.term);
    lemma_common_prefix_order(le128(a.uuid), be64(a.term), be64(b.term));
}

} // verus!
