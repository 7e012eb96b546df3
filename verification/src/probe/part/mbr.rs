//! Master boot records.
use super::{PartitionRange, ProbeContext};
use crate::error::Error;
use crate::le;
use crate::utils::mbr;
use crate::utils::mbr::{MBRPartition, MBR};
use vstd::prelude::*;

verus! {

/// The partitions that the first `n` entries of a table give: the used ones of non-zero length.
pub open spec fn mbr_ranges(table: Seq<Option<MBRPartition>>, n: int) -> Seq<PartitionRange>
    decreases n,
{
    if n <= 0 {
        Seq::empty()
    } else {
        let before = mbr_ranges(table, n - 1);
        match table[n - 1] {
            Some(p) => if p.sectors_count != 0 {
                before.push(
                    PartitionRange {
                        start_lba: p.start_lba as usize,
                        num_blocks: p.sectors_count as usize,
                    },
                )
            } else {
                before
            },
            None => before,
        }
    }
}

/// The partitions of a disk with boot sector `sector0`; `None` where it has no boot record, a
/// protective one, or one without partitions.
pub open spec fn mbr_found(sector0: Seq<u8>) -> Option<Seq<PartitionRange>> {
    let table = mbr::mbr_table(sector0);
    if !mbr::is_mbr(sector0) || mbr::has_protective(table) {
        None
    } else {
        super::match_of(mbr_ranges(table, 4))
    }
}

/// Looks for a master boot record with partitions. A protective record is left to the prober for
/// GUID partition tables.
pub fn probe_mbr<F: FnMut(usize, usize) -> Result<Vec<u8>, Error>>(
    ctx: &ProbeContext<'_>,
    _read_lba: &mut F,
) -> (found: Option<Vec<PartitionRange>>)
    ensures
        *final(_read_lba) == *old(_read_lba),
        super::parts_of(found) == mbr_found(ctx.sector0@),
{
    find_partitions(ctx)
}

/// Lists the partitions of a master boot record in the first block; it makes no reads.
pub fn find_partitions(ctx: &ProbeContext<'_>) -> (found: Option<Vec<PartitionRange>>)
    ensures
        super::parts_of(found) == mbr_found(ctx.sector0@),
{
    let record = match MBR::parse(ctx.sector0) {
        Some(record) => record,
        None => {
            return None;
        },
    };
    if record.is_protective_gpt() {
        return None;
    }
    let ghost table = mbr::mbr_table(ctx.sector0@);
    let mut parts: Vec<PartitionRange> = Vec::new();
    let mut i: usize = 0;
    while i < 4
        invariant
            i <= 4,
            record.partitions@ == table,
            table.len() == 4,
            parts@ == mbr_ranges(table, i as int),
        decreases 4 - i,
    {
        if let Some(entry) = record.partitions[i] {
            if entry.sectors_count != 0 {
                parts.push(
                    PartitionRange {
                        start_lba: entry.start_lba as usize,
                        num_blocks: entry.sectors_count as usize,
                    },
                );
            }
        }
        i = i + 1;
    }
    if parts.len() == 0 {
        None
    } else {
        Some(parts)
    }
}

/// A master boot record lists at most four partitions.
pub proof fn lemma_mbr_bounded(sector0: Seq<u8>)
    ensures
        mbr_found(sector0) matches Some(parts) ==> parts.len() <= 4,
{
    reveal_with_fuel(mbr_ranges, 5);
}

/// Whether entry `i` of the boot record in `sector0` is one to list: its type and its number of
/// sectors are not 0.
pub open spec fn to_list(sector0: Seq<u8>, i: int) -> bool {
    sector0[450 + 16 * i] != 0 && !le::spells(sector0, 458 + 16 * i, 4, 0)
}

/// The partitions of a boot record are those of its entries, in their order, and of no others. Each
/// starts at the sector, and has the length, that the entry spells; so none is empty. `entries` are
/// the numbers of the entries.
pub proof fn law_record_lists_its_entries(sector0: Seq<u8>, found: Seq<PartitionRange>) -> (entries:
    Seq<int>)
    requires
        mbr_found(sector0) == Some(found),
    ensures
        entries.len() == found.len(),
        forall|j: int, k: int| 0 <= j < k < entries.len() ==> entries[j] < entries[k],
        forall|k: int|
            0 <= k < found.len() ==> {
                &&& 0 <= #[trigger] entries[k] < 4
                &&& to_list(sector0, entries[k])
                &&& le::spells(sector0, 454 + 16 * entries[k], 4, found[k].start_lba as int)
                &&& le::spells(sector0, 458 + 16 * entries[k], 4, found[k].num_blocks as int)
                &&& found[k].num_blocks > 0
            },
        forall|i: int| 0 <= i < 4 && #[trigger] to_list(sector0, i) ==> entries.contains(i),
{
    lemma_ranges_of_entries(sector0, 4)
}

/// A boot record lists nothing exactly where it is none, is protective, or has no entry to list.
pub proof fn law_record_without_partitions(sector0: Seq<u8>)
    ensures
        mbr_found(sector0) is Some <==> {
            &&& sector0.len() >= 512 && sector0[510] == 0x55 && sector0[511] == 0xAA
            &&& sector0[450] != 0xEE && sector0[466] != 0xEE
            &&& sector0[482] != 0xEE && sector0[498] != 0xEE
            &&& exists|i: int| 0 <= i < 4 && #[trigger] to_list(sector0, i)
        },
{
    if sector0.len() >= 512 {
        mbr::law_boot_signature(sector0);
        mbr::law_protective_record_has_a_type(sector0);
        let entries = lemma_ranges_of_entries(sector0, 4);
        let ranges = mbr_ranges(mbr::mbr_table(sector0), 4);
        if ranges.len() > 0 {
            assert(0 <= entries[0] < 4 && to_list(sector0, entries[0]));
        }
    }
}

proof fn lemma_ranges_of_entries(sector0: Seq<u8>, n: int) -> (entries: Seq<int>)
    requires
        sector0.len() >= 512,
        0 <= n <= 4,
    ensures
        entries.len() == mbr_ranges(mbr::mbr_table(sector0), n).len(),
        forall|j: int, k: int| 0 <= j < k < entries.len() ==> entries[j] < entries[k],
        forall|k: int|
            0 <= k < entries.len() ==> {
                let range = mbr_ranges(mbr::mbr_table(sector0), n)[k];
                &&& 0 <= #[trigger] entries[k] < n
                &&& to_list(sector0, entries[k])
                &&& le::spells(sector0, 454 + 16 * entries[k], 4, range.start_lba as int)
                &&& le::spells(sector0, 458 + 16 * entries[k], 4, range.num_blocks as int)
                &&& range.num_blocks > 0
            },
        forall|i: int| 0 <= i < n && #[trigger] to_list(sector0, i) ==> entries.contains(i),
    decreases n,
{
    if n <= 0 {
        Seq::empty()
    } else {
        let before = lemma_ranges_of_entries(sector0, n - 1);
        let i = n - 1;
        mbr::law_entries_are_what_their_bytes_say(sector0, i);
        let entries = if to_list(sector0, i) {
            before.push(i)
        } else {
            before
        };
        if let Some(p) = mbr::mbr_table(sector0)[i] {
            if p.sectors_count != 0 && le::spells(sector0, 458 + 16 * i, 4, 0) {
                le::law_spelling_is_unique(sector0, 458 + 16 * i, 4, 0, p.sectors_count as int);
            }
        }
        assert forall|e: int| 0 <= e < n && #[trigger] to_list(
            sector0,
            e,
        ) implies entries.contains(e) by {
            if e < i {
                let k = choose|k: int| 0 <= k < before.len() && before[k] == e;
                assert(entries[k] == e);
            } else {
                assert(entries[before.len() as int] == e);
            }
        }
        entries
    }
}

} // verus!
