//! Decisions of an ingest connection: the handshake with a proposer, the
//! vote, and the handling of each batch of log bytes. The caller moves the
//! bytes and persists what these functions decide.

use vstd::prelude::*;
use crate::records::{
    HotStandbyFeedback, NodeId, RequestVote, SafeKeeperInfo, SafeKeeperRequest,
    SafeKeeperResponse, ServerInfo, SK_PROTOCOL_VERSION, UNKNOWN_SERVER_VERSION,
};

verus! {

/// Size of one log block.
pub const XLOG_BLCKSZ: usize = 8192;
/// Largest batch of log bytes that one request may carry.
pub const MAX_SEND_SIZE: usize = 131072;
/// `begin_lsn` of the request that ends the stream.
pub const END_OF_STREAM: u64 = 0;

/// Why an ingest connection is closed.
#[derive(Clone, Copy, Debug, PartialEq, Eq, Structural)]
pub enum IngestError {
    /// The proposer speaks another protocol version (the one it sent).
    ProtocolVersion(u32),
    /// A request came from a node other than the elected one.
    SenderChanged,
    /// A request ends before it begins.
    BadRange,
    /// A request carries more than `MAX_SEND_SIZE` bytes.
    Oversize,
}

/// The state to report to a proposer at the start of a handshake: the
/// stored state with the proposer's server information, except that the
/// stored vote is kept, and with the log end found on disk.
pub open spec fn spec_merge_server_info(
    stored: SafeKeeperInfo,
    server: ServerInfo,
    flush_lsn: u64,
    timeline: u32,
) -> Result<SafeKeeperInfo, IngestError> {
    if server.protocol_version != SK_PROTOCOL_VERSION {
        Err(IngestError::ProtocolVersion(server.protocol_version))
    } else {
        Ok(
            SafeKeeperInfo {
                server: ServerInfo { node_id: stored.server.node_id, timeline, ..server },
                flush_lsn,
                ..stored
            },
        )
    }
}

pub fn merge_server_info(
    stored: &SafeKeeperInfo,
    server: &ServerInfo,
    flush_lsn: u64,
    timeline: u32,
) -> (r: Result<SafeKeeperInfo, IngestError>)
    ensures
        r == spec_merge_server_info(*stored, *server, flush_lsn, timeline),
{
    if server.protocol_version != SK_PROTOCOL_VERSION {
        return Err(IngestError::ProtocolVersion(server.protocol_version));
    }
    let mut info = *stored;
    info.server = *server;
    info.server.node_id = stored.server.node_id;
    info.server.timeline = timeline;
    info.flush_lsn = flush_lsn;
    Ok(info)
}

/// Whether a proposer reports a server version other than a known stored
/// one; this is worth a note but does not stop the handshake.
pub fn pg_version_changed(stored: &SafeKeeperInfo, server: &ServerInfo) -> (r: bool)
    ensures
        r == (server.pg_version != stored.server.pg_version && stored.server.pg_version
            != UNKNOWN_SERVER_VERSION),
{
    server.pg_version != stored.server.pg_version && stored.server.pg_version
        != UNKNOWN_SERVER_VERSION
}

/// Answer to a vote request.
#[derive(Clone, Copy, Debug, PartialEq, Eq, Structural)]
pub enum VoteOutcome {
    /// The vote is granted: persist this state (synced), then echo the
    /// candidate's id.
    Accepted(SafeKeeperInfo),
    /// The candidate is older than the stored vote: send this id and close.
    Rejected(NodeId),
}

pub open spec fn spec_decide_vote(info: SafeKeeperInfo, prop: RequestVote) -> VoteOutcome {
    if prop.node_id.spec_lt(info.server.node_id) {
        VoteOutcome::Rejected(info.server.node_id)
    } else {
        VoteOutcome::Accepted(
            SafeKeeperInfo { server: ServerInfo { node_id: prop.node_id, ..info.server }, ..info },
        )
    }
}

/// Grants the vote unless the candidate is older than the one already voted for.
pub fn decide_vote(info: &SafeKeeperInfo, prop: &RequestVote) -> (r: VoteOutcome)
    ensures
        r == spec_decide_vote(*info, *prop),
{
    if prop.node_id.lt(&info.server.node_id) {
        VoteOutcome::Rejected(info.server.node_id)
    } else {
        let mut accepted = *info;
        accepted.server.node_id = prop.node_id;
        VoteOutcome::Accepted(accepted)
    }
}

/// What to do with a request header.
#[derive(Clone, Copy, Debug, PartialEq, Eq, Structural)]
pub enum RequestAction {
    /// The proposer ends the stream.
    EndOfStream,
    /// Read `len` bytes and write them to the log at `begin`.
    Append { begin: u64, len: usize },
}

/// What to do once a batch is written.
#[derive(Clone, Copy, Debug, PartialEq, Eq, Structural)]
pub struct StepOutcome {
    /// Whether the control file write must be synced.
    pub sync_control: bool,
    /// The acknowledgement to send.
    pub response: SafeKeeperResponse,
    /// The position to announce to replica senders.
    pub notify_lsn: u64,
}

/// State of an ingest connection after a granted vote.
#[derive(Clone, Copy, Debug, PartialEq, Eq, Structural)]
pub struct IngestSession {
    /// The state to persist; its `server.node_id` is the elected proposer.
    pub info: SafeKeeperInfo,
    /// The vote request that elected the proposer.
    pub vote: RequestVote,
    /// The restart position at the last synced control file write.
    pub flushed_restart_lsn: u64,
}

pub open spec fn spec_check_request(
    s: IngestSession,
    req: SafeKeeperRequest,
) -> Result<RequestAction, IngestError> {
    if req.sender_id != s.info.server.node_id {
        Err(IngestError::SenderChanged)
    } else if req.begin_lsn == END_OF_STREAM {
        Ok(RequestAction::EndOfStream)
    } else if req.end_lsn < req.begin_lsn {
        Err(IngestError::BadRange)
    } else if req.end_lsn - req.begin_lsn > MAX_SEND_SIZE {
        Err(IngestError::Oversize)
    } else {
        Ok(RequestAction::Append { begin: req.begin_lsn, len: (req.end_lsn - req.begin_lsn) as usize })
    }
}

/// The session and the outcome once the batch of `req` is written.
pub open spec fn spec_complete(
    s: IngestSession,
    req: SafeKeeperRequest,
    feedback: HotStandbyFeedback,
) -> (IngestSession, StepOutcome) {
    let end = req.end_lsn;
    let switch = s.info.epoch < s.vote.epoch && end > s.info.flush_lsn && end > s.vote.vcl;
    let epoch = if switch { s.vote.epoch } else { s.info.epoch };
    let flush = if end > s.info.flush_lsn { end } else { s.info.flush_lsn };
    let restart_due = s.flushed_restart_lsn + s.info.server.wal_seg_size < req.restart_lsn;
    let sync = switch || restart_due;
    let info = SafeKeeperInfo {
        epoch,
        flush_lsn: flush,
        commit_lsn: req.commit_lsn,
        restart_lsn: req.restart_lsn,
        ..s.info
    };
    (
        IngestSession {
            info,
            flushed_restart_lsn: if sync { req.restart_lsn } else { s.flushed_restart_lsn },
            ..s
        },
        StepOutcome {
            sync_control: sync,
            response: SafeKeeperResponse { epoch, flush_lsn: end, hs_feedback: feedback },
            notify_lsn: if req.commit_lsn <= end { req.commit_lsn } else { end },
        },
    )
}

impl IngestSession {
    pub open spec fn spec_new(info: SafeKeeperInfo, vote: RequestVote) -> IngestSession {
        IngestSession { info, vote, flushed_restart_lsn: 0 }
    }

    /// Starts streaming with the state persisted by a granted vote.
    pub fn new(info: SafeKeeperInfo, vote: RequestVote) -> (r: IngestSession)
        ensures
            r == IngestSession::spec_new(info, vote),
    {
        IngestSession { info, vote, flushed_restart_lsn: 0 }
    }

    /// Checks a request header before its bytes are read.
    pub fn check_request(&self, req: &SafeKeeperRequest) -> (r: Result<RequestAction, IngestError>)
        ensures
            r == spec_check_request(*self, *req),
    {
        if req.sender_id != self.info.server.node_id {
            Err(IngestError::SenderChanged)
        } else if req.begin_lsn == END_OF_STREAM {
            Ok(RequestAction::EndOfStream)
        } else if req.end_lsn < req.begin_lsn {
            Err(IngestError::BadRange)
        } else if req.end_lsn - req.begin_lsn > MAX_SEND_SIZE as u64 {
            Err(IngestError::Oversize)
        } else {
            Ok(RequestAction::Append { begin: req.begin_lsn, len: (req.end_lsn - req.begin_lsn) as usize })
        }
    }

    /// Records a written batch: adopts the proposer's commit and restart
    /// positions, switches epoch once past both the local log end and the
    /// candidate's commit position, advances the flush position, and says
    /// whether the control file must be synced and what to answer.
    pub fn complete_request(&mut self, req: &SafeKeeperRequest, feedback: HotStandbyFeedback) -> (r:
        StepOutcome)
        ensures
            (*final(self), r) == spec_complete(*old(self), *req, feedback),
            final(self).info.epoch >= old(self).info.epoch,
            final(self).info.flush_lsn >= old(self).info.flush_lsn,
    {
        let end = req.end_lsn;
        let mut sync = false;
        self.info.restart_lsn = req.restart_lsn;
        self.info.commit_lsn = req.commit_lsn;
        if self.info.epoch < self.vote.epoch && end > self.info.flush_lsn && end > self.vote.vcl {
            self.info.epoch = self.vote.epoch;
            sync = true;
        }
        if end > self.info.flush_lsn {
            self.info.flush_lsn = end;
        }
        let seg = self.info.server.wal_seg_size as u64;
        if self.flushed_restart_lsn < req.restart_lsn && req.restart_lsn - self.flushed_restart_lsn
            > seg {
            sync = true;
        }
        if sync {
            self.flushed_restart_lsn = req.restart_lsn;
        }
        let notify_lsn = if req.commit_lsn <= end {
            req.commit_lsn
        } else {
            end
        };
        StepOutcome {
            sync_control: sync,
            response: SafeKeeperResponse {
                epoch: self.info.epoch,
                flush_lsn: end,
                hs_feedback: feedback,
            },
            notify_lsn,
        }
    }
}

/// A granted vote changes nothing of the persisted state but the vote: the
/// epoch and the flush, commit and restart positions stay as they were.
pub proof fn lemma_vote_keeps_positions(info: SafeKeeperInfo, prop: RequestVote)
    ensures
        spec_decide_vote(info, prop) matches VoteOutcome::Accepted(next) ==> next.epoch
            == info.epoch && next.flush_lsn == info.flush_lsn && next.commit_lsn
            == info.commit_lsn && next.restart_lsn == info.restart_lsn,
{
}

/// Each written batch leaves the persisted epoch, flush, commit and restart
/// positions non-decreasing, provided the proposer's own commit and restart
/// positions do not go back.
pub proof fn lemma_positions_monotonic(
    s: IngestSession,
    req: SafeKeeperRequest,
    feedback: HotStandbyFeedback,
)
    requires
        req.commit_lsn >= s.info.commit_lsn,
        req.restart_lsn >= s.info.restart_lsn,
    ensures
        ({
            let next = spec_complete(s, req, feedback).0.info;
            &&& next.epoch >= s.info.epoch
            &&& next.flush_lsn >= s.info.flush_lsn
            &&& next.commit_lsn >= s.info.commit_lsn
            &&& next.restart_lsn >= s.info.restart_lsn
        }),
{
}

/// Once a vote for `N` is stored, a vote is never granted to an older
/// candidate, and no request from a sender older than `N` is ever accepted
/// for writing in the session that the next granted vote opens.
pub proof fn lemma_vote_safety(stored: SafeKeeperInfo, prop: RequestVote, req: SafeKeeperRequest)
    requires
        req.sender_id.spec_lt(stored.server.node_id),
    ensures
        spec_decide_vote(stored, prop) matches VoteOutcome::Accepted(next) ==> !next.server.node_id.spec_lt(
            stored.server.node_id,
        ) && spec_check_request(IngestSession::spec_new(next, prop), req)
            == Err::<RequestAction, IngestError>(IngestError::SenderChanged),
{
}

} // verus!
