//! ext2, ext3 and ext4.
use super::{FileSystemType, FsProber};
use crate::error::Error;
use crate::le;
use crate::probe;
use vstd::prelude::*;

verus! {

/// The magic number of an ext superblock.
pub const EXT4_SUPER_MAGIC: u16 = 0xEF53;

/// The compatible feature that ext3 has and ext2 has not: a journal.
pub const EXT4_FEATURE_COMPAT_HAS_JOURNAL: u32 = 0x0004;

/// The incompatible feature that ext4 has and ext3 has not: extents.
pub const EXT4_FEATURE_INCOMPAT_EXTENTS: u32 = 0x0040;

/// The file system that the superblock `s` belongs to, if it is one of the ext family.
pub open spec fn superblock_fs(s: Seq<u8>) -> Option<FileSystemType> {
    let compat = le::le32(s, 0x5C) as u32;
    let incompat = le::le32(s, 0x60) as u32;
    if le::le16(s, 0x38) != EXT4_SUPER_MAGIC {
        None
    } else if incompat & EXT4_FEATURE_INCOMPAT_EXTENTS != 0 {
        Some(FileSystemType::Ext4)
    } else if compat & EXT4_FEATURE_COMPAT_HAS_JOURNAL != 0 {
        Some(FileSystemType::Ext3)
    } else {
        Some(FileSystemType::Ext2)
    }
}

/// Classifies a superblock.
pub fn classify_superblock(s: &[u8]) -> (r: Option<FileSystemType>)
    requires
        s@.len() >= 1024,
    ensures
        r == superblock_fs(s@),
{
    if le::read_le16(s, 0x38) != EXT4_SUPER_MAGIC {
        return None;
    }
    let compat: u32 = le::read_le32(s, 0x5C);
    let incompat: u32 = le::read_le32(s, 0x60);
    if incompat & EXT4_FEATURE_INCOMPAT_EXTENTS != 0 {
        Some(FileSystemType::Ext4)
    } else if compat & EXT4_FEATURE_COMPAT_HAS_JOURNAL != 0 {
        Some(FileSystemType::Ext3)
    } else {
        Some(FileSystemType::Ext2)
    }
}

/// Looks for ext2, ext3 or ext4 in the superblock.
pub fn probe_extfs<F: FnMut(usize, usize) -> Result<Vec<u8>, Error>>(read_offset: &mut F) -> (r:
    Option<FileSystemType>)
    requires
        probe::reads_exactly(*old(read_offset)),
    ensures
        *final(read_offset) == *old(read_offset),
        exists|out: Result<Vec<u8>, Error>| #[trigger]
            call_ensures(*old(read_offset), (1024usize, 1024usize), out)
                && r == FsProber::Extfs.verdict(probe::bytes_of(out)),
{
    FsProber::Extfs.probe(read_offset)
}

/// A superblock of the ext family is told by its magic number, the bytes `53 EF` at byte 56. It is
/// ext4 exactly where bit 6 of the incompatible features is set, at byte 96, and otherwise ext3
/// exactly where bit 2 of the compatible features is set, at byte 92. No other bit matters.
pub proof fn law_ext_is_told_by_three_marks(s: Seq<u8>)
    requires
        s.len() >= 1024,
    ensures
        superblock_fs(s) is Some <==> s[56] == 0x53 && s[57] == 0xEF,
        superblock_fs(s) is Some ==> (superblock_fs(s)->0 == FileSystemType::Ext4 <==> (s[96] / 64)
            % 2 == 1),
        superblock_fs(s) is Some ==> (superblock_fs(s)->0 == FileSystemType::Ext3 <==> (s[96] / 64)
            % 2 == 0 && (s[92] / 4) % 2 == 1),
        superblock_fs(s) is Some ==> (superblock_fs(s)->0 == FileSystemType::Ext2 <==> (s[96] / 64)
            % 2 == 0 && (s[92] / 4) % 2 == 0),
{
    let compat = le::le32(s, 0x5C) as u32;
    let incompat = le::le32(s, 0x60) as u32;
    le::law_le32_is_spelled(s, 0x5C);
    le::law_le32_is_spelled(s, 0x60);
    reveal_with_fuel(le::spells, 2);
    assert((incompat & 0x0040u32 != 0) == ((incompat / 64) % 2 == 1)) by (bit_vector);
    assert((compat & 0x0004u32 != 0) == ((compat / 4) % 2 == 1)) by (bit_vector);
    assert(incompat % 256 == s[96] && compat % 256 == s[92]);
    assert((incompat / 64) % 2 == (s[96] as u32 / 64) % 2);
    assert((compat / 4) % 2 == (s[92] as u32 / 4) % 2);
}

/// Superblocks that differ in other places than the magic number and the two feature bits belong to
/// the same file system.
pub proof fn law_ext_ignores_the_rest(s: Seq<u8>, t: Seq<u8>)
    requires
        s.len() >= 1024,
        t.len() >= 1024,
        s[56] == t[56],
        s[57] == t[57],
        (s[96] / 64) % 2 == (t[96] / 64) % 2,
        (s[92] / 4) % 2 == (t[92] / 4) % 2,
    ensures
        superblock_fs(s) == superblock_fs(t),
{
    law_ext_is_told_by_three_marks(s);
    law_ext_is_told_by_three_marks(t);
}

} // verus!
