//! The control file: one packed `SafeKeeperInfo` at offset zero.

use vstd::prelude::*;
use crate::records::{SafeKeeperInfo, SAFE_KEEPER_INFO_LEN, SK_FORMAT_VERSION, SK_MAGIC};

verus! {

/// Why a control file cannot be used.
#[derive(Clone, Copy, Debug, PartialEq, Eq, Structural)]
pub enum ControlError {
    /// The file starts with another magic number (the one found).
    BadMagic(u32),
    /// The file has another layout version (the one found).
    BadFormat(u32),
}

/// What loading a control file of contents `file` gives: nothing while it
/// holds less than one record, else the record, once its magic number and
/// layout version are checked.
pub open spec fn spec_load(file: Seq<u8>) -> Result<Option<SafeKeeperInfo>, ControlError> {
    if file.len() < SAFE_KEEPER_INFO_LEN {
        Ok(None)
    } else {
        let info = SafeKeeperInfo::spec_at(file, 0);
        if info.magic != SK_MAGIC {
            Err(ControlError::BadMagic(info.magic))
        } else if info.format_version != SK_FORMAT_VERSION {
            Err(ControlError::BadFormat(info.format_version))
        } else {
            Ok(Some(info))
        }
    }
}

/// The contents of a control file that held `file` once `info` has been
/// stored: the packed record written over its start.
pub open spec fn spec_store(file: Seq<u8>, info: SafeKeeperInfo) -> Seq<u8> {
    if file.len() <= SAFE_KEEPER_INFO_LEN {
        info.spec_bytes()
    } else {
        info.spec_bytes() + file.subrange(SAFE_KEEPER_INFO_LEN as int, file.len() as int)
    }
}

/// A record that the control file can hold.
pub open spec fn valid_info(info: SafeKeeperInfo) -> bool {
    info.magic == SK_MAGIC && info.format_version == SK_FORMAT_VERSION
}

/// Interprets the contents of a control file.
pub fn load_control(file: &[u8]) -> (r: Result<Option<SafeKeeperInfo>, ControlError>)
    ensures
        r == spec_load(file@),
{
    if file.len() < SAFE_KEEPER_INFO_LEN {
        return Ok(None);
    }
    let info = SafeKeeperInfo::unpack_at(file, 0);
    if info.magic != SK_MAGIC {
        Err(ControlError::BadMagic(info.magic))
    } else if info.format_version != SK_FORMAT_VERSION {
        Err(ControlError::BadFormat(info.format_version))
    } else {
        Ok(Some(info))
    }
}

/// The bytes to write at the start of the control file to store `info`.
pub fn store_control(info: &SafeKeeperInfo) -> (r: Vec<u8>)
    ensures
        r@ == info.spec_bytes(),
{
    let mut buf: Vec<u8> = Vec::new();
    info.pack(&mut buf);
    assert(buf@ =~= info.spec_bytes());
    buf
}

/// Whatever the control file held before, loading it after a valid record
/// was stored gives exactly that record back.
pub proof fn lemma_store_then_load(file: Seq<u8>, info: SafeKeeperInfo)
    requires
        valid_info(info),
    ensures
        spec_load(spec_store(file, info)) == Ok::<Option<SafeKeeperInfo>, ControlError>(
            Some(info),
        ),
{
    let stored = spec_store(file, info);
    SafeKeeperInfo::lemma_round_trip(info);
    assert(stored.subrange(0, SAFE_KEEPER_INFO_LEN as int) =~= info.spec_bytes());
    SafeKeeperInfo::lemma_decode_at(stored, 0, info);
}

} // verus!
