use walkeeper::control::{load_control, store_control, ControlError};
use walkeeper::records::{NodeId, SafeKeeperInfo};

#[test]
fn empty_file_loads_nothing() {
    assert_eq!(load_control(&[]), Ok(None));
    assert_eq!(load_control(&[0u8; 10]), Ok(None));
}

#[test]
fn store_then_load_gives_record() {
    let mut info = SafeKeeperInfo::new();
    info.server.node_id = NodeId { term: 7, uuid: 0xAA };
    info.epoch = 1;
    info.flush_lsn = 8192;
    let mut file = vec![0xFFu8; 200];
    let bytes = store_control(&info);
    file[..bytes.len()].copy_from_slice(&bytes);
    assert_eq!(load_control(&file), Ok(Some(info)));
}

#[test]
fn bad_magic_and_format_are_refused() {
    let mut info = SafeKeeperInfo::new();
    info.magic = 0x1234;
    assert_eq!(load_control(&store_control(&info)), Err(ControlError::BadMagic(0x1234)));
    let mut info = SafeKeeperInfo::new();
    info.format_version = 2;
    assert_eq!(load_control(&store_control(&info)), Err(ControlError::BadFormat(2)));
}
