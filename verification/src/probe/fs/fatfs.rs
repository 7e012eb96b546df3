//! FAT and exFAT.
use super::{FileSystemType, FsProber};
use crate::error::Error;
use crate::le;
use crate::probe;
use vstd::prelude::*;

verus! {

/// Volumes with fewer clusters are FAT12, which is not supported.
pub const FAT16_MIN_CLUSTERS: u32 = 4085;

/// Volumes with fewer clusters are FAT16 at most.
pub const FAT32_MIN_CLUSTERS: u32 = 65525;

/// Whether the boot sector names exFAT: the bytes `EXFAT` and three blanks.
pub open spec fn is_exfat(s: Seq<u8>) -> bool {
    &&& s[3] == 0x45
    &&& s[4] == 0x58
    &&& s[5] == 0x46
    &&& s[6] == 0x41
    &&& s[7] == 0x54
    &&& s[8] == 0x20
    &&& s[9] == 0x20
    &&& s[10] == 0x20
}

/// `a - b`, or 0 where that is negative.
pub open spec fn monus(a: int, b: int) -> int {
    if a >= b {
        a - b
    } else {
        0
    }
}

/// The sectors that hold data, by the BIOS parameter block in the boot sector `s`: all but the
/// reserved ones, the FATs and the root directory. The size of the FATs is taken modulo `2^32`.
pub open spec fn fat_data_sectors(s: Seq<u8>) -> int {
    let bytes_per_sec = if le::le16(s, 11) == 0 {
        512
    } else {
        le::le16(s, 11)
    };
    let fat_size = if le::le16(s, 22) != 0 {
        le::le16(s, 22)
    } else {
        le::le32(s, 36)
    };
    let total = if le::le16(s, 19) != 0 {
        le::le16(s, 19)
    } else {
        le::le32(s, 32)
    };
    let fats = (s[16] * fat_size) % 0x1_0000_0000;
    let root = (le::le16(s, 17) * 32 + (bytes_per_sec - 1)) / bytes_per_sec;
    monus(monus(monus(total, le::le16(s, 14)), fats), root)
}

/// The number of clusters of the volume with boot sector `s`; 0 where the cluster size is 0.
pub open spec fn fat_clusters(s: Seq<u8>) -> int {
    if s[13] == 0 {
        0
    } else {
        fat_data_sectors(s) / s[13] as int
    }
}

/// The file system that the boot sector `s` belongs to, if it is one of the FAT family.
pub open spec fn boot_sector_fs(s: Seq<u8>) -> Option<FileSystemType> {
    if is_exfat(s) {
        Some(FileSystemType::ExFat)
    } else if s[510] != 0x55 || s[511] != 0xAA {
        None
    } else if fat_clusters(s) < FAT16_MIN_CLUSTERS {
        None
    } else if fat_clusters(s) < FAT32_MIN_CLUSTERS {
        Some(FileSystemType::Fat16)
    } else {
        Some(FileSystemType::Fat32)
    }
}

fn count_clusters(s: &[u8]) -> (r: u32)
    requires
        s@.len() >= 512,
    ensures
        r == fat_clusters(s@),
{
    let byts_per_sec: u16 = le::read_le16(s, 11);
    let bytes_per_sec: u32 = if byts_per_sec == 0 {
        512
    } else {
        byts_per_sec as u32
    };
    let fat_sz_16: u16 = le::read_le16(s, 22);
    let fat_sz: u32 = if fat_sz_16 != 0 {
        fat_sz_16 as u32
    } else {
        le::read_le32(s, 36)
    };
    let tot_sec_16: u16 = le::read_le16(s, 19);
    let tot_sec: u32 = if tot_sec_16 != 0 {
        tot_sec_16 as u32
    } else {
        le::read_le32(s, 32)
    };
    let root_dir_sectors: u32 = (le::read_le16(s, 17) as u32 * 32 + (bytes_per_sec - 1))
        / bytes_per_sec;
    let num_fats: u32 = s[16] as u32;
    let data_sec: u32 = tot_sec.saturating_sub(le::read_le16(s, 14) as u32).saturating_sub(
        num_fats.wrapping_mul(fat_sz),
    ).saturating_sub(root_dir_sectors);
    let sec_per_clus: u32 = s[13] as u32;
    if sec_per_clus != 0 {
        data_sec / sec_per_clus
    } else {
        0
    }
}

/// Classifies a boot sector.
pub fn classify_boot_sector(s: &[u8]) -> (r: Option<FileSystemType>)
    requires
        s@.len() >= 512,
    ensures
        r == boot_sector_fs(s@),
{
    if s[3] == 0x45 && s[4] == 0x58 && s[5] == 0x46 && s[6] == 0x41 && s[7] == 0x54 && s[8] == 0x20
        && s[9] == 0x20 && s[10] == 0x20 {
        return Some(FileSystemType::ExFat);
    }
    if s[510] != 0x55 || s[511] != 0xAA {
        return None;
    }
    let count_of_clusters: u32 = count_clusters(s);
    if count_of_clusters < FAT16_MIN_CLUSTERS {
        None
    } else if count_of_clusters < FAT32_MIN_CLUSTERS {
        Some(FileSystemType::Fat16)
    } else {
        Some(FileSystemType::Fat32)
    }
}

/// Looks for FAT16, FAT32 or exFAT in the boot sector.
pub fn probe_fat_exfat<F: FnMut(usize, usize) -> Result<Vec<u8>, Error>>(read_offset: &mut F) -> (r:
    Option<FileSystemType>)
    requires
        probe::reads_exactly(*old(read_offset)),
    ensures
        *final(read_offset) == *old(read_offset),
        exists|out: Result<Vec<u8>, Error>| #[trigger]
            call_ensures(*old(read_offset), (0usize, 512usize), out)
                && r == FsProber::FatExfat.verdict(probe::bytes_of(out)),
{
    FsProber::FatExfat.probe(read_offset)
}

/// Whether `n` is what a boot sector gives in a field of two bytes at `short` or, where that is 0,
/// in one of four bytes at `long`.
pub open spec fn given_in(s: Seq<u8>, short: int, long: int, n: int) -> bool {
    if le::spells(s, short, 2, 0) {
        le::spells(s, long, 4, n)
    } else {
        le::spells(s, short, 2, n)
    }
}

/// exFAT is told by its name, the letters `EXFAT` and three blanks from byte 3 on, whatever the
/// rest is; and nothing else is exFAT.
pub proof fn law_exfat_is_told_by_its_name(s: Seq<u8>)
    requires
        s.len() >= 512,
    ensures
        boot_sector_fs(s) == Some(FileSystemType::ExFat) <==> s.subrange(3, 11) == seq![
            0x45u8,
            0x58u8,
            0x46u8,
            0x41u8,
            0x54u8,
            0x20u8,
            0x20u8,
            0x20u8,
        ],
{
    let name = s.subrange(3, 11);
    let letters = seq![0x45u8, 0x58u8, 0x46u8, 0x41u8, 0x54u8, 0x20u8, 0x20u8, 0x20u8];
    assert(forall|i: int| 0 <= i < 8 ==> #[trigger] name[i] == s[3 + i]);
    if is_exfat(s) {
        assert(name =~= letters);
    } else if name == letters {
        assert(name[0] == 0x45 && name[1] == 0x58 && name[2] == 0x46 && name[3] == 0x41);
        assert(name[4] == 0x54 && name[5] == 0x20 && name[6] == 0x20 && name[7] == 0x20);
    }
}

/// Without the boot signature in its two last bytes a sector is of the FAT family only if it is
/// exFAT.
pub proof fn law_fat_needs_the_boot_signature(s: Seq<u8>)
    requires
        s.len() >= 512,
        s[510] != 0x55 || s[511] != 0xAA,
    ensures
        boot_sector_fs(s) is None || boot_sector_fs(s) == Some(FileSystemType::ExFat),
{
}

/// FAT16 and FAT32 are told apart by the number of clusters, which is that of the whole clusters in
/// the sectors that the reserved ones, the tables and the root directory leave: from 4085 clusters
/// on a volume is FAT16, from 65525 on FAT32. The parameters are what the boot sector spells:
/// `total` sectors of `sector_len` bytes, of which `reserved` are reserved, `fats` hold the tables
/// (their number in byte 16, each of `fat_size` sectors, modulo `2^32`), and `root` hold the
/// `root_entries` entries of the root directory, of 32 bytes each; byte 13 is the size of a
/// cluster.
pub proof fn law_fat_is_told_by_its_clusters(
    s: Seq<u8>,
    sector_len: int,
    reserved: int,
    root_entries: int,
    total: int,
    fat_size: int,
    fats: int,
    root: int,
    data: int,
    clusters: int,
)
    requires
        s.len() >= 512,
        boot_sector_fs(s) != Some(FileSystemType::ExFat),
        s[510] == 0x55 && s[511] == 0xAA,
        s[13] > 0,
        if le::spells(s, 11, 2, 0) {
            sector_len == 512
        } else {
            le::spells(s, 11, 2, sector_len)
        },
        le::spells(s, 14, 2, reserved),
        le::spells(s, 17, 2, root_entries),
        given_in(s, 19, 32, total),
        given_in(s, 22, 36, fat_size),
        0 <= fats < 0x1_0000_0000,
        (s[16] * fat_size - fats) % 0x1_0000_0000 == 0,
        root_entries * 32 <= root * sector_len < root_entries * 32 + sector_len,
        data >= 0,
        reserved + fats + root + data == total || (data == 0 && reserved + fats + root > total),
        clusters * s[13] <= data < clusters * s[13] + s[13],
    ensures
        clusters < 4085 ==> boot_sector_fs(s) is None,
        4085 <= clusters < 65525 ==> boot_sector_fs(s) == Some(FileSystemType::Fat16),
        65525 <= clusters ==> boot_sector_fs(s) == Some(FileSystemType::Fat32),
{
    lemma_field(s, 11);
    lemma_field(s, 14);
    lemma_field(s, 17);
    lemma_field(s, 19);
    lemma_field(s, 22);
    lemma_long_field(s, 32);
    lemma_long_field(s, 36);
    let top = root_entries * 32 + sector_len - 1;
    assert(top / sector_len == root) by {
        vstd::arithmetic::div_mod::lemma_fundamental_div_mod_converse(
            top,
            sector_len,
            root,
            top - root * sector_len,
        );
        assert(root * sector_len == sector_len * root) by (nonlinear_arith);
    }
    assert(0 <= root) by (nonlinear_arith)
        requires
            0 <= root_entries * 32 <= root * sector_len,
            sector_len > 0,
    ;
    let product = s[16] * fat_size;
    assert(product % 0x1_0000_0000 == fats);
    assert(fat_data_sectors(s) == data);
    vstd::arithmetic::div_mod::lemma_fundamental_div_mod_converse(
        data,
        s[13] as int,
        clusters,
        data - clusters * s[13],
    );
    assert(fat_clusters(s) == clusters);
}

/// A volume whose clusters have no size is no FAT volume.
pub proof fn law_fat_needs_a_cluster_size(s: Seq<u8>)
    requires
        s.len() >= 512,
        s[13] == 0,
    ensures
        boot_sector_fs(s) is None || boot_sector_fs(s) == Some(FileSystemType::ExFat),
{
}

/// What a field of two bytes spells is the number that is read from it.
proof fn lemma_field(s: Seq<u8>, at: int)
    ensures
        forall|n: int| #[trigger] le::spells(s, at, 2, n) ==> n == le::le16(s, at),
        le::spells(s, at, 2, le::le16(s, at)),
        0 <= le::le16(s, at),
{
    le::law_le16_is_spelled(s, at);
    assert forall|n: int| #[trigger] le::spells(s, at, 2, n) implies n == le::le16(s, at) by {
        le::law_spelling_is_unique(s, at, 2, n, le::le16(s, at));
    }
}

/// What a field of four bytes spells is the number that is read from it.
proof fn lemma_long_field(s: Seq<u8>, at: int)
    ensures
        forall|n: int| #[trigger] le::spells(s, at, 4, n) ==> n == le::le32(s, at),
        0 <= le::le32(s, at),
{
    le::law_le32_is_spelled(s, at);
    assert forall|n: int| #[trigger] le::spells(s, at, 4, n) implies n == le::le32(s, at) by {
        le::law_spelling_is_unique(s, at, 4, n, le::le32(s, at));
    }
}

} // verus!
