use walkeeper::control::{load_control, store_control};
use walkeeper::ingest::{
    decide_vote, merge_server_info, pg_version_changed, IngestError, IngestSession, RequestAction,
    VoteOutcome,
};
use walkeeper::records::{
    HotStandbyFeedback, NodeId, RequestVote, SafeKeeperInfo, SafeKeeperRequest,
    SafeKeeperResponse, ServerInfo,
};
use walkeeper::tenant::{Resolution, TenantRegistry, TenantState, RegistryError};

fn proposer() -> ServerInfo {
    ServerInfo {
        protocol_version: 1,
        pg_version: 150000,
        node_id: NodeId { term: 7, uuid: 0xAA },
        system_id: 42,
        wal_end: 0,
        timeline: 1,
        wal_seg_size: 16777216,
    }
}

fn handshake() -> SafeKeeperInfo {
    let stored = load_control(&[]).unwrap().unwrap_or(SafeKeeperInfo::new());
    merge_server_info(&stored, &proposer(), 0, 1).unwrap()
}

fn voted() -> (SafeKeeperInfo, RequestVote) {
    let vote = RequestVote { node_id: NodeId { term: 7, uuid: 0xAA }, vcl: 0, epoch: 1 };
    match decide_vote(&handshake(), &vote) {
        VoteOutcome::Accepted(info) => (info, vote),
        VoteOutcome::Rejected(_) => panic!("vote refused"),
    }
}

#[test]
fn fresh_tenant_bootstrap() {
    let mut registry = TenantRegistry::new();
    assert_eq!(registry.resolve(0), Err(RegistryError::NoTenants));
    assert_eq!(registry.resolve(42), Ok(Resolution::Created(42)));
    assert_eq!(registry.resolve(42), Ok(Resolution::Existing(42)));
    assert_eq!(registry.resolve(0), Ok(Resolution::Existing(42)));
    let reply = handshake();
    assert_eq!(reply.magic, 0xCAFECEEF);
    assert_eq!(reply.format_version, 1);
    assert_eq!(reply.epoch, 0);
    assert_eq!(reply.flush_lsn, 0);
    assert_eq!(reply.server.system_id, 42);
    assert_eq!(reply.server.node_id, NodeId { term: 0, uuid: 0 });
    assert_eq!(reply.server.wal_seg_size, 16777216);
}

#[test]
fn handshake_refuses_other_protocol() {
    let mut server = proposer();
    server.protocol_version = 2;
    assert_eq!(
        merge_server_info(&SafeKeeperInfo::new(), &server, 0, 1),
        Err(IngestError::ProtocolVersion(2))
    );
}

#[test]
fn server_version_change_is_noticed() {
    let mut stored = SafeKeeperInfo::new();
    assert!(!pg_version_changed(&stored, &proposer()));
    stored.server.pg_version = 140000;
    assert!(pg_version_changed(&stored, &proposer()));
}

#[test]
fn vote_accept() {
    let (info, _) = voted();
    assert_eq!(info.server.node_id, NodeId { term: 7, uuid: 0xAA });
    let on_disk = load_control(&store_control(&info)).unwrap().unwrap();
    assert_eq!(on_disk.server.node_id, NodeId { term: 7, uuid: 0xAA });
}

#[test]
fn vote_reject() {
    let mut stored = SafeKeeperInfo::new();
    stored.server.node_id = NodeId { term: 9, uuid: 0 };
    let vote = RequestVote { node_id: NodeId { term: 8, uuid: 0xFF }, vcl: 0, epoch: 2 };
    assert_eq!(decide_vote(&stored, &vote), VoteOutcome::Rejected(NodeId { term: 9, uuid: 0 }));
}

#[test]
fn ingest_and_epoch_switch() {
    let (info, vote) = voted();
    let mut session = IngestSession::new(info, vote);
    let req = SafeKeeperRequest {
        sender_id: NodeId { term: 7, uuid: 0xAA },
        begin_lsn: 0,
        end_lsn: 8192,
        restart_lsn: 0,
        commit_lsn: 0,
    };
    let out = session.complete_request(&req, HotStandbyFeedback::initial());
    assert!(out.sync_control);
    assert_eq!(session.info.epoch, 1);
    assert_eq!(session.info.flush_lsn, 8192);
    assert_eq!(
        out.response,
        SafeKeeperResponse {
            epoch: 1,
            flush_lsn: 8192,
            hs_feedback: HotStandbyFeedback { ts: 0, xmin: u64::MAX, catalog_xmin: u64::MAX },
        }
    );
    assert_eq!(out.notify_lsn, 0);
}

#[test]
fn requests_are_checked() {
    let (info, vote) = voted();
    let session = IngestSession::new(info, vote);
    let me = NodeId { term: 7, uuid: 0xAA };
    let mut req = SafeKeeperRequest { sender_id: me, begin_lsn: 8192, end_lsn: 16384, restart_lsn: 0, commit_lsn: 0 };
    assert_eq!(session.check_request(&req), Ok(RequestAction::Append { begin: 8192, len: 8192 }));
    req.sender_id = NodeId { term: 6, uuid: 0xAA };
    assert_eq!(session.check_request(&req), Err(IngestError::SenderChanged));
    req.sender_id = me;
    req.end_lsn = 100;
    assert_eq!(session.check_request(&req), Err(IngestError::BadRange));
    req.end_lsn = 8192 + 131073;
    assert_eq!(session.check_request(&req), Err(IngestError::Oversize));
    req.begin_lsn = 0;
    assert_eq!(session.check_request(&req), Ok(RequestAction::EndOfStream));
}

#[test]
fn positions_never_go_back() {
    let (info, vote) = voted();
    let mut session = IngestSession::new(info, vote);
    let me = NodeId { term: 7, uuid: 0xAA };
    let first = SafeKeeperRequest { sender_id: me, begin_lsn: 8192, end_lsn: 16384, restart_lsn: 100, commit_lsn: 8192 };
    session.complete_request(&first, HotStandbyFeedback::initial());
    let before = session.info;
    let second = SafeKeeperRequest { sender_id: me, begin_lsn: 4096, end_lsn: 8192, restart_lsn: 100, commit_lsn: 8192 };
    let out = session.complete_request(&second, HotStandbyFeedback::initial());
    assert!(session.info.epoch >= before.epoch);
    assert_eq!(session.info.flush_lsn, 16384);
    assert_eq!(out.response.flush_lsn, 8192);
}

#[test]
fn restart_position_is_synced_once_per_segment() {
    let (info, vote) = voted();
    let mut session = IngestSession::new(info, vote);
    session.info.epoch = 1;
    let me = NodeId { term: 7, uuid: 0xAA };
    let near = SafeKeeperRequest { sender_id: me, begin_lsn: 8192, end_lsn: 16384, restart_lsn: 16777216, commit_lsn: 0 };
    assert!(!session.complete_request(&near, HotStandbyFeedback::initial()).sync_control);
    let far = SafeKeeperRequest { restart_lsn: 16777217, ..near };
    assert!(session.complete_request(&far, HotStandbyFeedback::initial()).sync_control);
    assert_eq!(session.flushed_restart_lsn, 16777217);
}

#[test]
fn older_sender_cannot_write() {
    let mut stored = SafeKeeperInfo::new();
    stored.server.node_id = NodeId { term: 9, uuid: 0 };
    let vote = RequestVote { node_id: NodeId { term: 10, uuid: 0 }, vcl: 0, epoch: 1 };
    let info = match decide_vote(&stored, &vote) {
        VoteOutcome::Accepted(info) => info,
        VoteOutcome::Rejected(_) => panic!("vote refused"),
    };
    let session = IngestSession::new(info, vote);
    let req = SafeKeeperRequest { sender_id: NodeId { term: 8, uuid: 0 }, begin_lsn: 8192, end_lsn: 16384, restart_lsn: 0, commit_lsn: 0 };
    assert_eq!(session.check_request(&req), Err(IngestError::SenderChanged));
}

#[test]
fn senders_wake_on_new_commit() {
    let mut tenant = TenantState::new(42);
    assert_eq!(tenant.available(0), None);
    assert!(tenant.notify_wal_senders(8192));
    assert_eq!(tenant.available(0), Some(8192));
    assert!(!tenant.notify_wal_senders(4096));
    assert_eq!(tenant.commit_lsn, 8192);
    assert!(tenant.stop_wal_senders());
    assert_eq!(tenant.commit_lsn, u64::MAX);
}

#[test]
fn tenant_feedback_and_info() {
    let mut tenant = TenantState::new(42);
    tenant.add_hs_feedback(&HotStandbyFeedback { ts: 3, xmin: 100, catalog_xmin: 200 });
    assert_eq!(tenant.get_hs_feedback(), HotStandbyFeedback { ts: 3, xmin: 100, catalog_xmin: 200 });
    let (info, _) = voted();
    tenant.set_info(&info);
    assert_eq!(tenant.get_info(), info);
}
