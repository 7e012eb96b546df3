//! The master boot record.
use crate::le;
use vstd::prelude::*;

verus! {

/// Where the four partition entries start in the boot sector.
pub const MBR_TABLE_OFFSET: usize = 446;

/// The length of one partition entry.
pub const MBR_ENTRY_LEN: usize = 16;

/// The partition type that marks a disk as partitioned by a GUID partition table.
pub const MBR_TYPE_PROTECTIVE: u8 = 0xEE;

/// One used entry of the partition table.
#[derive(Debug, Clone, Copy, PartialEq, Eq, Structural)]
pub struct MBRPartition {
    pub part_type: u8,
    pub start_lba: u32,
    pub sectors_count: u32,
}

/// A master boot record: its four partition entries, `None` where an entry is unused.
#[derive(Debug, Clone, Copy)]
pub struct MBR {
    pub partitions: [Option<MBRPartition>; 4],
}

/// Whether `s` starts with a boot sector that carries the boot signature.
pub open spec fn is_mbr(s: Seq<u8>) -> bool {
    s.len() >= 512 && s[510] == 0x55 && s[511] == 0xAA
}

/// Entry `i` of the partition table in the boot sector `s`; an entry of type 0 is unused.
pub open spec fn mbr_entry(s: Seq<u8>, i: int) -> Option<MBRPartition> {
    let at = MBR_TABLE_OFFSET + MBR_ENTRY_LEN * i;
    if s[at + 4] == 0 {
        None
    } else {
        Some(
            MBRPartition {
                part_type: s[at + 4],
                start_lba: le::le32(s, at + 8) as u32,
                sectors_count: le::le32(s, at + 12) as u32,
            },
        )
    }
}

/// The partition table of the boot sector `s`.
pub open spec fn mbr_table(s: Seq<u8>) -> Seq<Option<MBRPartition>> {
    Seq::new(4, |i: int| mbr_entry(s, i))
}

/// Whether a partition table has a protective entry.
pub open spec fn has_protective(table: Seq<Option<MBRPartition>>) -> bool {
    exists|i: int|
        0 <= i < table.len() && (#[trigger] table[i] matches Some(p) && p.part_type
            == MBR_TYPE_PROTECTIVE)
}

fn parse_entry(sector: &[u8], i: usize) -> (r: Option<MBRPartition>)
    requires
        sector@.len() >= 512,
        i < 4,
    ensures
        r == mbr_entry(sector@, i as int),
{
    let at: usize = MBR_TABLE_OFFSET + MBR_ENTRY_LEN * i;
    if sector[at + 4] == 0 {
        None
    } else {
        Some(
            MBRPartition {
                part_type: sector[at + 4],
                start_lba: le::read_le32(sector, at + 8),
                sectors_count: le::read_le32(sector, at + 12),
            },
        )
    }
}

impl MBR {
    /// Parses a boot sector; `None` where it is too short or lacks the boot signature.
    pub fn parse(sector: &[u8]) -> (r: Option<MBR>)
        ensures
            r is Some <==> is_mbr(sector@),
            r matches Some(m) ==> m.partitions@ == mbr_table(sector@),
    {
        if sector.len() < 512 || sector[510] != 0x55 || sector[511] != 0xAA {
            return None;
        }
        let partitions = [
            parse_entry(sector, 0),
            parse_entry(sector, 1),
            parse_entry(sector, 2),
            parse_entry(sector, 3),
        ];
        assert(partitions@ =~= mbr_table(sector@));
        Some(MBR { partitions })
    }

    /// Whether the record only shields a disk that a GUID partition table describes.
    pub fn is_protective_gpt(&self) -> (r: bool)
        ensures
            r == has_protective(self.partitions@),
    {
        let mut i: usize = 0;
        while i < 4
            invariant
                i <= 4,
                self.partitions@.len() == 4,
                forall|j: int|
                    0 <= j < i ==> !(#[trigger] self.partitions@[j] matches Some(p)
                        && p.part_type == MBR_TYPE_PROTECTIVE),
            decreases 4 - i,
        {
            if let Some(p) = self.partitions[i] {
                if p.part_type == MBR_TYPE_PROTECTIVE {
                    assert(self.partitions@[i as int] == Some(p));
                    return true;
                }
            }
            i = i + 1;
        }
        false
    }
}

/// A boot sector is told by its two last bytes, whatever the others are.
pub proof fn law_boot_signature(s: Seq<u8>)
    ensures
        is_mbr(s) <==> s.len() >= 512 && s.subrange(510, 512) == seq![0x55u8, 0xAAu8],
{
    if s.len() >= 512 {
        let tail = s.subrange(510, 512);
        if is_mbr(s) {
            assert(tail =~= seq![0x55u8, 0xAAu8]);
        } else if tail == seq![0x55u8, 0xAAu8] {
            assert(tail[0] == s[510]);
            assert(tail[1] == s[511]);
        }
    }
}

/// Each of the four entries, 16 bytes each from byte 446 on, is what its bytes say: the fifth is
/// the type, which is not 0 in an entry that is used; bytes 8 to 11 spell the first sector, and
/// bytes 12 to 15 the number of sectors.
pub proof fn law_entries_are_what_their_bytes_say(s: Seq<u8>, i: int)
    requires
        s.len() >= 512,
        0 <= i < 4,
    ensures
        mbr_table(s).len() == 4,
        mbr_table(s)[i] is Some <==> s[450 + 16 * i] != 0,
        mbr_table(s)[i] matches Some(p) ==> {
            &&& p.part_type == s[450 + 16 * i]
            &&& le::spells(s, 454 + 16 * i, 4, p.start_lba as int)
            &&& le::spells(s, 458 + 16 * i, 4, p.sectors_count as int)
        },
{
    le::law_le32_is_spelled(s, 454 + 16 * i);
    le::law_le32_is_spelled(s, 458 + 16 * i);
    assert(mbr_table(s)[i] == mbr_entry(s, i));
}

/// A record is protective exactly where one of its four types is `0xEE`.
pub proof fn law_protective_record_has_a_type(s: Seq<u8>)
    requires
        s.len() >= 512,
    ensures
        has_protective(mbr_table(s)) <==> s[450] == 0xEE || s[466] == 0xEE || s[482] == 0xEE
            || s[498] == 0xEE,
{
    let t = mbr_table(s);
    assert(t[0] == mbr_entry(s, 0) && t[1] == mbr_entry(s, 1));
    assert(t[2] == mbr_entry(s, 2) && t[3] == mbr_entry(s, 3));
}

} // verus!
