use walkeeper::command::{classify_query, parse_hex_str, parse_start_replication, CommandError, QueryKind};
use walkeeper::egress::{
    classify_connection, format_lsn, identify_system_row, next_step, send_size, start_position,
    xlog_data_header, ConnectionKind, SendStep,
};
use walkeeper::xlog::{plan_wal_write, xlog_file_name, xlbyte_to_seg, xlog_segment_offset, WriteChunk};

#[test]
fn segment_rollover() {
    let chunks = plan_wal_write(16773120, 8192, 16777216);
    assert_eq!(
        chunks,
        vec![
            WriteChunk { segno: 0, offset: 16773120, buf_start: 0, len: 4096, completes_segment: true },
            WriteChunk { segno: 1, offset: 0, buf_start: 4096, len: 4096, completes_segment: false },
        ]
    );
    assert_eq!(xlog_file_name(1, 0, 16777216), b"000000010000000000000000".to_vec());
    assert_eq!(xlog_file_name(1, 1, 16777216), b"000000010000000000000001".to_vec());
    assert_eq!(xlog_file_name(2, 0x1FF, 16777216), b"0000000200000001000000FF".to_vec());
}

#[test]
fn write_plan_places_every_byte() {
    let (start, len, seg) = (100u64, 5000usize, 1024u64);
    let chunks = plan_wal_write(start, len, seg);
    let mut next = 0usize;
    for c in &chunks {
        assert_eq!(c.buf_start, next);
        for i in c.buf_start..c.buf_start + c.len {
            let pos = start + i as u64;
            assert_eq!(c.segno, pos / seg);
            assert_eq!(c.offset + (i - c.buf_start) as u64, pos % seg);
        }
        next += c.len;
    }
    assert_eq!(next, len);
    assert!(plan_wal_write(5, 0, 1024).is_empty());
}

#[test]
fn segment_arithmetic() {
    assert_eq!(xlog_segment_offset(16777216 + 5, 16777216), 5);
    assert_eq!(xlbyte_to_seg(3 * 16777216 + 5, 16777216), 3);
}

#[test]
fn identify_system_row_values() {
    let row = identify_system_row(42, 1, 8192);
    assert_eq!(row.systemid, b"42".to_vec());
    assert_eq!(row.timeline, b"1".to_vec());
    assert_eq!(row.xlogpos, b"0/00002000".to_vec());
    assert_eq!(format_lsn(0x1_2345_6789_ABCD), b"12345/6789ABCD".to_vec());
}

#[test]
fn replica_catch_up() {
    assert_eq!(classify_query(b"IDENTIFY_SYSTEM"), QueryKind::IdentifySystem);
    assert_eq!(classify_query(b"start_replication 0/0"), QueryKind::StartReplication);
    assert_eq!(classify_query(b"SHOW x"), QueryKind::Unknown);
    let (requested, stop) = parse_start_replication(b"START_REPLICATION 0/00000000").unwrap();
    assert_eq!((requested, stop), (0, 0));
    let start = start_position(requested, 8192, 16777216).unwrap();
    assert_eq!(start, 0);
    let step = next_step(start, stop, Some(8192));
    assert_eq!(step, SendStep::Send { end_pos: 8192 });
    let n = send_size(0, 8192);
    assert_eq!(n, 8192);
    let header = xlog_data_header(0, 8192, 77, n);
    let mut expected = vec![b'd'];
    expected.extend_from_slice(&((4 + 25 + 8192) as u32).to_be_bytes());
    expected.push(b'w');
    expected.extend_from_slice(&0u64.to_be_bytes());
    expected.extend_from_slice(&8192u64.to_be_bytes());
    expected.extend_from_slice(&77u64.to_be_bytes());
    assert_eq!(header, expected);
}

#[test]
fn start_replication_positions() {
    assert_eq!(parse_start_replication(b"START_REPLICATION 1/2 A/FF"), Ok((0x1_0000_0002, 0xA_0000_00FF)));
    assert_eq!(parse_start_replication(b"START_REPLICATION"), Err(CommandError::MissingPosition));
    assert_eq!(parse_start_replication(b"START_REPLICATION /5"), Err(CommandError::InvalidHex));
    assert_eq!(parse_start_replication(b"START_REPLICATION 1/123456789"), Err(CommandError::InvalidHex));
    assert_eq!(start_position(0x1000005, 0, 16777216), Ok(0x1000000));
    assert_eq!(start_position(0, 0x2000005, 16777216), Ok(0x2000000));
    assert_eq!(start_position(5, 0, 0), Err(CommandError::NotReady));
}

#[test]
fn hex_numbers() {
    assert_eq!(parse_hex_str("ff"), Ok(255));
    assert_eq!(parse_hex_str("+1A"), Ok(26));
    assert_eq!(parse_hex_str("FFFFFFFF"), Ok(0xFFFF_FFFF));
    assert_eq!(parse_hex_str("100000000"), Err(CommandError::InvalidHex));
    assert_eq!(parse_hex_str(""), Err(CommandError::InvalidHex));
    assert_eq!(parse_hex_str("+"), Err(CommandError::InvalidHex));
    assert_eq!(parse_hex_str("g1"), Err(CommandError::InvalidHex));
}

#[test]
fn send_loop_steps() {
    assert_eq!(next_step(0, 0, None), SendStep::Wait);
    assert_eq!(next_step(0, 0, Some(u64::MAX)), SendStep::Finish);
    assert_eq!(next_step(100, 100, None), SendStep::Finish);
    assert_eq!(next_step(0, 500, None), SendStep::Send { end_pos: 500 });
    assert_eq!(send_size(0, 1 << 20), 131072);
}

#[test]
fn connection_kinds() {
    assert_eq!(classify_connection(&[0, 0, 0, 0]), ConnectionKind::Ingest);
    assert_eq!(classify_connection(&[0, 0, 0, 8]), ConnectionKind::Replication);
}
