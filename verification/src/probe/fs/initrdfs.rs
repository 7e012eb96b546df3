//! The initial RAM disk.
use super::{FileSystemType, FsProber};
use crate::error::Error;
use crate::le;
use crate::probe;
use vstd::prelude::*;

verus! {

/// The number that opens an initial RAM disk.
pub const INITRD_MAGIC: u32 = 0x9999_9999;

/// Whether the header `s` opens an initial RAM disk.
pub open spec fn header_fs(s: Seq<u8>) -> Option<FileSystemType> {
    if le::le32(s, 0) == INITRD_MAGIC {
        Some(FileSystemType::InitrdFS)
    } else {
        None
    }
}

/// Classifies the first bytes of a partition.
pub fn classify_header(s: &[u8]) -> (r: Option<FileSystemType>)
    requires
        s@.len() >= 4,
    ensures
        r == header_fs(s@),
{
    if le::read_le32(s, 0) == INITRD_MAGIC {
        Some(FileSystemType::InitrdFS)
    } else {
        None
    }
}

/// Looks for an initial RAM disk in the first bytes.
pub fn probe_initrdfs<F: FnMut(usize, usize) -> Result<Vec<u8>, Error>>(read_offset: &mut F) -> (r:
    Option<FileSystemType>)
    requires
        probe::reads_exactly(*old(read_offset)),
    ensures
        *final(read_offset) == *old(read_offset),
        exists|out: Result<Vec<u8>, Error>| #[trigger]
            call_ensures(*old(read_offset), (0usize, 4usize), out)
                && r == FsProber::Initrdfs.verdict(probe::bytes_of(out)),
{
    FsProber::Initrdfs.probe(read_offset)
}

/// An initial RAM disk opens with four bytes `99`, and whatever opens otherwise is none.
pub proof fn law_initrd_is_told_by_four_bytes(s: Seq<u8>)
    requires
        s.len() >= 4,
    ensures
        header_fs(s) == (if s.take(4) == seq![0x99u8, 0x99u8, 0x99u8, 0x99u8] {
            Some(FileSystemType::InitrdFS)
        } else {
            None
        }),
{
    let head = s.take(4);
    assert(head[0] == s[0] && head[1] == s[1] && head[2] == s[2] && head[3] == s[3]);
    if s[0] == 0x99 && s[1] == 0x99 && s[2] == 0x99 && s[3] == 0x99 {
        assert(head =~= seq![0x99u8, 0x99u8, 0x99u8, 0x99u8]);
    }
}

} // verus!
