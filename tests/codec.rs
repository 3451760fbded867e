use walkeeper::records::{
    DecodeError, HotStandbyFeedback, NodeId, RequestVote, SafeKeeperInfo, SafeKeeperRequest,
    SafeKeeperResponse, ServerInfo, NODE_ID_LEN, SAFE_KEEPER_INFO_LEN, SAFE_KEEPER_REQUEST_LEN,
    SAFE_KEEPER_RESPONSE_LEN, SERVER_INFO_LEN, REQUEST_VOTE_LEN, HOT_STANDBY_FEEDBACK_LEN,
};

fn server() -> ServerInfo {
    ServerInfo {
        protocol_version: 1,
        pg_version: 150000,
        node_id: NodeId { term: 7, uuid: 0xAA },
        system_id: 42,
        wal_end: 0x1234_5678_9ABC,
        timeline: 1,
        wal_seg_size: 16777216,
    }
}

#[test]
fn node_id_layout() {
    let mut buf = Vec::new();
    NodeId { term: 0x0102030405060708, uuid: 0x11 }.pack(&mut buf);
    assert_eq!(buf.len(), NODE_ID_LEN);
    assert_eq!(buf[0], 0x11);
    assert!(buf[1..16].iter().all(|b| *b == 0));
    assert_eq!(&buf[16..24], &[1, 2, 3, 4, 5, 6, 7, 8]);
}

#[test]
fn node_id_round_trip() {
    let x = NodeId { term: u64::MAX - 3, uuid: u128::MAX / 7 };
    let mut buf = Vec::new();
    x.pack(&mut buf);
    assert_eq!(NodeId::unpack(&buf), Ok(x));
}

#[test]
fn server_info_round_trip() {
    let x = server();
    let mut buf = Vec::new();
    x.pack(&mut buf);
    assert_eq!(buf.len(), SERVER_INFO_LEN);
    assert_eq!(&buf[0..4], &[1, 0, 0, 0]);
    assert_eq!(ServerInfo::unpack(&buf), Ok(x));
}

#[test]
fn request_vote_round_trip() {
    let x = RequestVote { node_id: NodeId { term: 3, uuid: 9 }, vcl: 77, epoch: 5 };
    let mut buf = Vec::new();
    x.pack(&mut buf);
    assert_eq!(buf.len(), REQUEST_VOTE_LEN);
    assert_eq!(RequestVote::unpack(&buf), Ok(x));
}

#[test]
fn safe_keeper_info_round_trip() {
    let mut x = SafeKeeperInfo::new();
    x.server = server();
    x.epoch = 4;
    x.commit_lsn = 100;
    x.flush_lsn = 200;
    x.restart_lsn = 50;
    let mut buf = Vec::new();
    x.pack(&mut buf);
    assert_eq!(buf.len(), SAFE_KEEPER_INFO_LEN);
    assert_eq!(&buf[0..4], &[0xEF, 0xCE, 0xFE, 0xCA]);
    assert_eq!(SafeKeeperInfo::unpack(&buf), Ok(x));
}

#[test]
fn request_and_response_round_trip() {
    let req = SafeKeeperRequest {
        sender_id: NodeId { term: 1, uuid: 2 },
        begin_lsn: 8192,
        end_lsn: 16384,
        restart_lsn: 3,
        commit_lsn: 4,
    };
    let mut buf = Vec::new();
    req.pack(&mut buf);
    assert_eq!(buf.len(), SAFE_KEEPER_REQUEST_LEN);
    assert_eq!(SafeKeeperRequest::unpack(&buf), Ok(req));
    let resp = SafeKeeperResponse {
        epoch: 1,
        flush_lsn: 8192,
        hs_feedback: HotStandbyFeedback { ts: 5, xmin: 6, catalog_xmin: 7 },
    };
    let mut out = Vec::new();
    resp.pack(&mut out);
    assert_eq!(out.len(), SAFE_KEEPER_RESPONSE_LEN);
    assert_eq!(SafeKeeperResponse::unpack(&out), Ok(resp));
    let fb = resp.hs_feedback;
    let mut fbuf = Vec::new();
    fb.pack(&mut fbuf);
    assert_eq!(fbuf.len(), HOT_STANDBY_FEEDBACK_LEN);
    assert_eq!(HotStandbyFeedback::unpack(&fbuf), Ok(fb));
}

#[test]
fn truncated_buffer_is_refused() {
    let mut buf = Vec::new();
    server().pack(&mut buf);
    buf.pop();
    assert_eq!(ServerInfo::unpack(&buf), Err(DecodeError::Truncated));
    assert_eq!(NodeId::unpack(&[]), Err(DecodeError::Truncated));
}

#[test]
fn packed_order_follows_term() {
    let a = NodeId { term: 1, uuid: 0xAA };
    let b = NodeId { term: 256, uuid: 0xAA };
    let (mut pa, mut pb) = (Vec::new(), Vec::new());
    a.pack(&mut pa);
    b.pack(&mut pb);
    assert!(pa < pb);
    assert!(a.lt(&b));
    assert!(!b.lt(&a));
    let c = NodeId { term: 1, uuid: 0xAB };
    assert!(a.lt(&c));
}

#[test]
fn feedback_parse_and_merge() {
    let mut body = Vec::new();
    body.extend_from_slice(&10u64.to_be_bytes());
    body.extend_from_slice(&20u64.to_be_bytes());
    body.extend_from_slice(&30u64.to_be_bytes());
    let fb = HotStandbyFeedback::parse(&body).unwrap();
    assert_eq!(fb, HotStandbyFeedback { ts: 10, xmin: 20, catalog_xmin: 30 });
    assert_eq!(HotStandbyFeedback::parse(&body[..23]), Err(DecodeError::Truncated));
    let mut agg = HotStandbyFeedback::initial();
    agg.merge(&fb);
    agg.merge(&HotStandbyFeedback { ts: 5, xmin: 25, catalog_xmin: 3 });
    assert_eq!(agg, HotStandbyFeedback { ts: 10, xmin: 20, catalog_xmin: 3 });
}
