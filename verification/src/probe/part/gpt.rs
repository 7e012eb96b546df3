//! GUID partition tables.
use super::{PartitionRange, ProbeContext};
use crate::error::Error;
use crate::le;
use crate::probe;
use crate::probe::ReadMade;
use crate::utils::gpt;
use crate::utils::gpt::{GPTHeader, GPTPartition};
use crate::utils::mbr;
use crate::utils::mbr::MBR;
use vstd::prelude::*;

verus! {

/// Where the header of a GUID partition table is to be found.
#[derive(Debug, Clone, Copy, PartialEq, Eq, Structural)]
pub enum HeaderPlace {
    /// The disk has no such table, or its blocks are of a size that cannot hold one.
    Nowhere,
    /// In the block after the first.
    SecondBlock,
    /// In the second half kilobyte of the first block.
    FirstBlock,
}

/// Where the partition entries stand.
#[derive(Debug, Clone, Copy, PartialEq, Eq, Structural)]
pub struct EntryTable {
    /// The block that the entries start in.
    pub lba: usize,
    /// The length of the whole blocks that hold the entries.
    pub span: usize,
    /// The length of the entries.
    pub entries_len: usize,
    pub num: u32,
    pub size: u32,
}

/// Where the header is on a disk with first block `sector0`.
pub open spec fn header_place(sector0: Seq<u8>, block_size: usize) -> HeaderPlace {
    if !mbr::is_mbr(sector0) || !mbr::has_protective(mbr::mbr_table(sector0)) {
        HeaderPlace::Nowhere
    } else if block_size == 512 {
        HeaderPlace::SecondBlock
    } else if block_size >= 1024 && sector0.len() >= 1024 {
        HeaderPlace::FirstBlock
    } else {
        HeaderPlace::Nowhere
    }
}

/// `len` rounded up to whole blocks.
pub open spec fn whole_blocks(len: int, block_size: int) -> int {
    ((len + block_size - 1) / block_size) * block_size
}

/// Where the entries are that the header in `header` describes; `None` where it is no header,
/// describes no entries, or describes more than memory can hold.
pub open spec fn entry_table(header: Seq<u8>, block_size: usize) -> Option<EntryTable> {
    match gpt::gpt_header(header) {
        None => None,
        Some(h) => {
            let entries_len = h.num_partition_entries * h.partition_entry_size;
            let span = whole_blocks(entries_len, block_size as int);
            if entries_len == 0 || span > isize::MAX {
                None
            } else {
                Some(
                    EntryTable {
                        lba: h.partition_entry_lba as usize,
                        span: span as usize,
                        entries_len: entries_len as usize,
                        num: h.num_partition_entries,
                        size: h.partition_entry_size,
                    },
                )
            }
        },
    }
}

/// Whether an entry gives a partition: it is in use and does not end before it starts.
pub open spec fn usable(p: GPTPartition) -> bool {
    p.active() && p.last_lba >= p.first_lba
}

/// The blocks from the first to the last of an entry, both included.
pub open spec fn range_of(p: GPTPartition) -> PartitionRange {
    PartitionRange {
        start_lba: p.first_lba as usize,
        num_blocks: ((p.last_lba - p.first_lba) as u64).wrapping_add(1) as usize,
    }
}

/// The partitions that entries give: the usable ones, in order.
pub open spec fn gpt_ranges(entries: Seq<GPTPartition>) -> Seq<PartitionRange>
    decreases entries.len(),
{
    if entries.len() == 0 {
        Seq::empty()
    } else {
        let before = gpt_ranges(entries.drop_last());
        if usable(entries.last()) {
            before.push(range_of(entries.last()))
        } else {
            before
        }
    }
}

/// The partitions in the blocks `span` that hold an entry table.
pub open spec fn table_found(table: EntryTable, span: Seq<u8>) -> Option<Seq<PartitionRange>> {
    super::match_of(
        gpt_ranges(gpt::gpt_entries(span.take(table.entries_len as int), table.num, table.size)),
    )
}

/// What follows from a header: one read of the entries, or none where there are none.
pub open spec fn header_run(
    header: Seq<u8>,
    block_size: usize,
    reads: Seq<ReadMade>,
    found: Option<Seq<PartitionRange>>,
) -> bool {
    match entry_table(header, block_size) {
        None => reads.len() == 0 && found is None,
        Some(table) => {
            &&& reads.len() == 1
            &&& reads[0].at == table.lba
            &&& reads[0].len == table.span
            &&& found == (match reads[0].bytes {
                Some(span) => table_found(table, span),
                None => None,
            })
        },
    }
}

/// What is found on a disk with first block `sector0` by the reads `reads`.
pub open spec fn gpt_run(
    sector0: Seq<u8>,
    block_size: usize,
    reads: Seq<ReadMade>,
    found: Option<Seq<PartitionRange>>,
) -> bool {
    match header_place(sector0, block_size) {
        HeaderPlace::Nowhere => reads.len() == 0 && found is None,
        HeaderPlace::FirstBlock => header_run(
            sector0.subrange(512, 1024),
            block_size,
            reads,
            found,
        ),
        HeaderPlace::SecondBlock => {
            &&& reads.len() >= 1
            &&& reads[0].at == 1
            &&& reads[0].len == 512
            &&& match reads[0].bytes {
                Some(header) => header_run(header, block_size, reads.skip(1), found),
                None => reads.len() == 1 && found is None,
            }
        },
    }
}

/// A table that is found has partitions.
pub proof fn lemma_gpt_found_not_empty(
    sector0: Seq<u8>,
    block_size: usize,
    reads: Seq<ReadMade>,
    found: Option<Seq<PartitionRange>>,
)
    requires
        gpt_run(sector0, block_size, reads, found),
    ensures
        found matches Some(parts) ==> parts.len() > 0,
{
}

/// Entries give no more partitions than there are entries.
proof fn lemma_ranges_bounded(entries: Seq<GPTPartition>)
    ensures
        gpt_ranges(entries).len() <= entries.len(),
    decreases entries.len(),
{
    if entries.len() > 0 {
        lemma_ranges_bounded(entries.drop_last());
    }
}

/// What a header leads to is bounded by the memory that its entries need.
proof fn lemma_header_bounded(
    header: Seq<u8>,
    block_size: usize,
    reads: Seq<ReadMade>,
    found: Option<Seq<PartitionRange>>,
)
    requires
        block_size > 0,
        header_run(header, block_size, reads, found),
    ensures
        found matches Some(parts) ==> parts.len() * gpt::GPT_MIN_ENTRY_LEN <= isize::MAX,
{
    if let (Some(table), Some(parts)) = (entry_table(header, block_size), found) {
        let span = reads[0].bytes->0;
        let data = span.take(table.entries_len as int);
        let len = data.len() as int;
        let num = table.num as int;
        let size = table.size as int;
        let h = gpt::gpt_header(header)->0;
        let entries_len = h.num_partition_entries * h.partition_entry_size;
        let top = entries_len + block_size - 1;
        lemma_ranges_bounded(gpt::gpt_entries(data, table.num, table.size));
        vstd::arithmetic::div_mod::lemma_fundamental_div_mod(top, block_size as int);
        assert((top / block_size as int) * block_size == block_size * (top / block_size as int))
            by (nonlinear_arith);
        assert(num * size <= isize::MAX);
        if size >= gpt::GPT_MIN_ENTRY_LEN {
            if num * size > len {
                assert(len / size <= num) by (nonlinear_arith)
                    requires
                        num * size > len,
                        size > 0,
                        len >= 0,
                ;
            }
            assert(num * gpt::GPT_MIN_ENTRY_LEN <= num * size) by (nonlinear_arith)
                requires
                    0 <= num,
                    gpt::GPT_MIN_ENTRY_LEN <= size,
            ;
            assert(parts.len() * gpt::GPT_MIN_ENTRY_LEN <= num * gpt::GPT_MIN_ENTRY_LEN)
                by (nonlinear_arith)
                requires
                    parts.len() <= num,
            ;
        }
    }
}

/// The number of partitions of a table is bounded by the memory that its entries need.
pub proof fn lemma_gpt_found_bounded(
    sector0: Seq<u8>,
    block_size: usize,
    reads: Seq<ReadMade>,
    found: Option<Seq<PartitionRange>>,
)
    requires
        block_size > 0,
        gpt_run(sector0, block_size, reads, found),
    ensures
        found matches Some(parts) ==> parts.len() * gpt::GPT_MIN_ENTRY_LEN <= isize::MAX,
{
    match header_place(sector0, block_size) {
        HeaderPlace::Nowhere => {},
        HeaderPlace::FirstBlock => {
            lemma_header_bounded(sector0.subrange(512, 1024), block_size, reads, found);
        },
        HeaderPlace::SecondBlock => {
            if let Some(header) = reads[0].bytes {
                lemma_header_bounded(header, block_size, reads.skip(1), found);
            }
        },
    }
}

/// Finds where the header is.
pub fn find_header(ctx: &ProbeContext<'_>) -> (r: HeaderPlace)
    ensures
        r == header_place(ctx.sector0@, ctx.block_size),
{
    let record = match MBR::parse(ctx.sector0) {
        Some(record) => record,
        None => {
            return HeaderPlace::Nowhere;
        },
    };
    if !record.is_protective_gpt() {
        HeaderPlace::Nowhere
    } else if ctx.block_size == 512 {
        HeaderPlace::SecondBlock
    } else if ctx.block_size >= 1024 && ctx.sector0.len() >= 1024 {
        HeaderPlace::FirstBlock
    } else {
        HeaderPlace::Nowhere
    }
}

/// Finds where the entries are that a header describes.
pub fn find_entries(header: &[u8], block_size: usize) -> (r: Option<EntryTable>)
    requires
        block_size > 0,
    ensures
        r == entry_table(header@, block_size),
        r matches Some(table) ==> table.entries_len <= table.span,
{
    let h = match GPTHeader::parse(header) {
        Some(h) => h,
        None => {
            return None;
        },
    };
    let num: u128 = h.num_partition_entries as u128;
    let size: u128 = h.partition_entry_size as u128;
    assert(num * size <= 0xFFFF_FFFF * 0xFFFF_FFFF) by (nonlinear_arith)
        requires
            num <= 0xFFFF_FFFF,
            size <= 0xFFFF_FFFF,
    ;
    let entries_len: u128 = num * size;
    if entries_len == 0 {
        return None;
    }
    let block: u128 = block_size as u128;
    let blocks: u128 = (entries_len + block - 1) / block;
    proof {
        let top = entries_len + block - 1;
        vstd::arithmetic::div_mod::lemma_fundamental_div_mod(top, block as int);
        assert(blocks * block == block * (top / block as int)) by (nonlinear_arith)
            requires
                blocks == top / block as int,
        ;
        assert(0 <= top % (block as int) < block);
    }
    let span: u128 = blocks * block;
    if span > isize::MAX as u128 {
        return None;
    }
    Some(
        EntryTable {
            lba: h.partition_entry_lba as usize,
            span: span as usize,
            entries_len: entries_len as usize,
            num: h.num_partition_entries,
            size: h.partition_entry_size,
        },
    )
}

/// Lists the partitions in the blocks that hold an entry table.
pub fn list_partitions(table: &EntryTable, span: &[u8]) -> (found: Option<Vec<PartitionRange>>)
    requires
        table.entries_len <= span@.len(),
    ensures
        super::parts_of(found) == table_found(*table, span@),
{
    let data = vstd::slice::slice_subrange(span, 0, table.entries_len);
    assert(data@ =~= span@.take(table.entries_len as int));
    let entries = GPTPartition::parse_entries(data, table.num, table.size);
    let mut parts: Vec<PartitionRange> = Vec::new();
    let mut i: usize = 0;
    assert(entries@.take(0) =~= Seq::<GPTPartition>::empty());
    while i < entries.len()
        invariant
            i <= entries@.len(),
            parts@ == gpt_ranges(entries@.take(i as int)),
        decreases entries@.len() - i,
    {
        let p = entries[i];
        assert(entries@.take(i + 1).drop_last() =~= entries@.take(i as int));
        if p.is_active() && p.last_lba >= p.first_lba {
            let last_index: u64 = p.last_lba - p.first_lba;
            parts.push(
                PartitionRange {
                    start_lba: p.first_lba as usize,
                    num_blocks: last_index.wrapping_add(1) as usize,
                },
            );
        }
        i = i + 1;
    }
    assert(entries@.take(i as int) =~= entries@);
    if parts.len() == 0 {
        None
    } else {
        Some(parts)
    }
}

/// Looks for a GUID partition table with partitions.
pub fn probe_gpt<F: FnMut(usize, usize) -> Result<Vec<u8>, Error>>(
    ctx: &ProbeContext<'_>,
    read_lba: &mut F,
) -> (found: Option<Vec<PartitionRange>>)
    requires
        probe::reads_exactly(*old(read_lba)),
    ensures
        *final(read_lba) == *old(read_lba),
        exists|reads: Seq<ReadMade>| #[trigger]
            gpt_run(ctx.sector0@, ctx.block_size, reads, super::parts_of(found)) && (forall|i: int|
                0 <= i < reads.len() ==> probe::answered(*old(read_lba), #[trigger] reads[i])),
{
    let ghost mut reads: Seq<ReadMade> = Seq::empty();
    let header: Vec<u8> = match find_header(ctx) {
        HeaderPlace::Nowhere => {
            assert(gpt_run(ctx.sector0@, ctx.block_size, reads, None));
            return None;
        },
        HeaderPlace::FirstBlock => {
            vstd::slice::slice_to_vec(vstd::slice::slice_subrange(ctx.sector0, 512, 1024))
        },
        HeaderPlace::SecondBlock => {
            let out = read_lba(1, 512);
            proof {
                let made = ReadMade { at: 1, len: 512, bytes: probe::bytes_of(out) };
                assert(call_ensures(*old(read_lba), (made.at, made.len), out));
                assert(probe::answered(*old(read_lba), made));
                reads = reads.push(made);
            }
            match out {
                Ok(header) => header,
                Err(_) => {
                    assert(gpt_run(ctx.sector0@, ctx.block_size, reads, None));
                    return None;
                },
            }
        },
    };
    let ghost before = reads;
    let table = match find_entries(header.as_slice(), ctx.block_size) {
        Some(table) => table,
        None => {
            assert(reads.skip(1).len() == 0 || reads.len() == 0);
            assert(gpt_run(ctx.sector0@, ctx.block_size, reads, None));
            return None;
        },
    };
    let out = read_lba(table.lba, table.span);
    proof {
        let made = ReadMade { at: table.lba, len: table.span, bytes: probe::bytes_of(out) };
        assert(call_ensures(*old(read_lba), (made.at, made.len), out));
        assert(probe::answered(*old(read_lba), made));
        reads = reads.push(made);
        if before.len() == 1 {
            assert(reads.skip(1) =~= seq![made]);
        }
    }
    match out {
        Ok(span) => {
            let found = list_partitions(&table, span.as_slice());
            assert(gpt_run(ctx.sector0@, ctx.block_size, reads, super::parts_of(found)));
            found
        },
        Err(_) => {
            assert(gpt_run(ctx.sector0@, ctx.block_size, reads, None));
            None
        },
    }
}

/// Whether entry `e` of the table in `span` is one to list: it lies in the table, its type is not
/// all 0, and its last block, which bytes 40 to 47 spell, is not before its first, which bytes 32
/// to 39 spell.
pub open spec fn to_list(table: EntryTable, span: Seq<u8>, e: int) -> bool {
    let at = e * table.size;
    &&& 0 <= e < table.num
    &&& table.size >= 128
    &&& at + table.size <= table.entries_len
    &&& exists|k: int| at <= k < at + 16 && #[trigger] span[k] != 0
    &&& exists|first: int, last: int| #[trigger]
        le::spells(span, at + 32, 8, first) && #[trigger] le::spells(span, at + 40, 8, last)
            && first <= last
}

/// Whether a range runs from block `first` to block `last`, both included, as far as the machine
/// can tell their numbers.
pub open spec fn runs_from_to(range: PartitionRange, first: int, last: int) -> bool {
    &&& first <= usize::MAX ==> range.start_lba == first
    &&& last - first < usize::MAX ==> range.num_blocks == last - first + 1
}

/// The partitions of a GUID partition table are those of its entries, in their order, and of no
/// others. Each runs from the first block that the entry spells to the last. `entries` are the
/// numbers of the entries.
pub proof fn law_table_lists_its_entries(
    table: EntryTable,
    span: Seq<u8>,
    found: Seq<PartitionRange>,
) -> (entries: Seq<int>)
    requires
        table.entries_len <= span.len(),
        table_found(table, span) == Some(found),
    ensures
        found.len() > 0,
        entries.len() == found.len(),
        forall|j: int, k: int| 0 <= j < k < entries.len() ==> entries[j] < entries[k],
        forall|k: int|
            0 <= k < found.len() ==> {
                &&& to_list(table, span, #[trigger] entries[k])
                &&& forall|first: int, last: int| #[trigger]
                    le::spells(span, entries[k] * table.size + 32, 8, first) && #[trigger]
                    le::spells(span, entries[k] * table.size + 40, 8, last) ==> first <= last
                        && runs_from_to(found[k], first, last)
            },
        forall|e: int| #[trigger] to_list(table, span, e) ==> entries.contains(e),
{
    let data = span.take(table.entries_len as int);
    let all = gpt::gpt_entries(data, table.num, table.size);
    let entries = lemma_ranges_of_entries(all);
    assert forall|k: int| 0 <= k < found.len() implies {
        &&& to_list(table, span, #[trigger] entries[k])
        &&& forall|first: int, last: int| #[trigger]
            le::spells(span, entries[k] * table.size + 32, 8, first) && #[trigger] le::spells(
                span,
                entries[k] * table.size + 40,
                8,
                last,
            ) ==> first <= last && runs_from_to(found[k], first, last)
    } by {
        let e = entries[k];
        lemma_entry_spelled(table, span, e);
        assert forall|first: int, last: int| #[trigger]
            le::spells(span, e * table.size + 32, 8, first) && #[trigger] le::spells(
                span,
                e * table.size + 40,
                8,
                last,
            ) implies first <= last && runs_from_to(found[k], first, last) by {
            le::law_spelling_is_unique(
                span,
                e * table.size + 32,
                8,
                first,
                all[e].first_lba as int,
            );
            le::law_spelling_is_unique(span, e * table.size + 40, 8, last, all[e].last_lba as int);
        }
    }
    assert forall|e: int| #[trigger] to_list(table, span, e) implies entries.contains(e) by {
        assert((e + 1) * table.size == e * table.size + table.size) by (nonlinear_arith);
        gpt::law_entries_lie_side_by_side(data, table.num, table.size, e);
        lemma_entry_spelled(table, span, e);
        let at = e * table.size;
        let (first, last) = choose|first: int, last: int| #[trigger]
            le::spells(span, at + 32, 8, first) && #[trigger] le::spells(span, at + 40, 8, last)
                && first <= last;
        le::law_spelling_is_unique(span, at + 32, 8, first, all[e].first_lba as int);
        le::law_spelling_is_unique(span, at + 40, 8, last, all[e].last_lba as int);
        assert(usable(all[e]));
    }
    entries
}

/// A table that lists nothing has no entry to list.
pub proof fn law_table_without_partitions(table: EntryTable, span: Seq<u8>, e: int)
    requires
        table.entries_len <= span.len(),
        table_found(table, span) is None,
    ensures
        !to_list(table, span, e),
{
    let data = span.take(table.entries_len as int);
    let all = gpt::gpt_entries(data, table.num, table.size);
    if to_list(table, span, e) {
        let at = e * table.size;
        assert((e + 1) * table.size == e * table.size + table.size) by (nonlinear_arith);
        gpt::law_entries_lie_side_by_side(data, table.num, table.size, e);
        lemma_entry_spelled(table, span, e);
        let (first, last) = choose|first: int, last: int| #[trigger]
            le::spells(span, at + 32, 8, first) && #[trigger] le::spells(span, at + 40, 8, last)
                && first <= last;
        le::law_spelling_is_unique(span, at + 32, 8, first, all[e].first_lba as int);
        le::law_spelling_is_unique(span, at + 40, 8, last, all[e].last_lba as int);
        let entries = lemma_ranges_of_entries(all);
        assert(usable(all[e]));
        assert(entries.contains(e));
    }
}

/// Entries that do not overlap give partitions that do not overlap.
pub proof fn law_partitions_keep_apart(p: GPTPartition, q: GPTPartition)
    requires
        p.first_lba <= p.last_lba < q.first_lba <= q.last_lba,
        q.last_lba < usize::MAX,
    ensures
        range_of(p).start_lba + range_of(p).num_blocks <= range_of(q).start_lba,
        range_of(p).num_blocks > 0,
        range_of(q).num_blocks > 0,
{
}

/// Where the entries are that a header describes: in whole blocks, the fewest that hold them all,
/// from the block on that the header spells.
pub proof fn law_entries_lie_where_the_header_says(
    header: Seq<u8>,
    block_size: usize,
    table: EntryTable,
)
    requires
        block_size > 0,
        entry_table(header, block_size) == Some(table),
    ensures
        header.len() >= 92,
        forall|lba: int| #[trigger]
            le::spells(header, 72, 8, lba) && lba <= usize::MAX ==> table.lba == lba,
        le::spells(header, 80, 4, table.num as int),
        le::spells(header, 84, 4, table.size as int),
        table.entries_len == table.num * table.size,
        table.entries_len > 0,
        table.span as int % block_size as int == 0,
        table.entries_len <= table.span < table.entries_len + block_size,
{
    gpt::law_header_is_what_its_bytes_say(header);
    let h = gpt::gpt_header(header)->0;
    let len = h.num_partition_entries * h.partition_entry_size;
    lemma_whole_blocks(len, block_size as int);
    assert(len >= 0) by (nonlinear_arith)
        requires
            len == h.num_partition_entries * h.partition_entry_size,
            h.num_partition_entries >= 0,
            h.partition_entry_size >= 0,
    ;
    assert forall|lba: int| #[trigger]
        le::spells(header, 72, 8, lba) && lba <= usize::MAX implies table.lba == lba by {
        le::law_spelling_is_unique(header, 72, 8, lba, h.partition_entry_lba as int);
    }
}

/// A header leads to entries exactly where it describes any, and no more than memory can hold.
pub proof fn law_header_leads_to_entries(header: Seq<u8>, block_size: usize, num: int, size: int)
    requires
        block_size > 0,
        header.len() >= 92,
        header.take(8) == seq![
            0x45u8,
            0x46u8,
            0x49u8,
            0x20u8,
            0x50u8,
            0x41u8,
            0x52u8,
            0x54u8,
        ],
        le::spells(header, 80, 4, num),
        le::spells(header, 84, 4, size),
    ensures
        num * size == 0 ==> entry_table(header, block_size) is None,
        num * size > isize::MAX ==> entry_table(header, block_size) is None,
        0 < num * size && num * size + block_size - 1 <= isize::MAX ==> entry_table(
            header,
            block_size,
        ) is Some,
{
    gpt::law_header_is_what_its_bytes_say(header);
    let h = gpt::gpt_header(header)->0;
    le::law_spelling_is_unique(header, 80, 4, num, h.num_partition_entries as int);
    le::law_spelling_is_unique(header, 84, 4, size, h.partition_entry_size as int);
    lemma_whole_blocks(num * size, block_size as int);
}

/// A disk with a protective boot record has its header in the half kilobyte after the record: on
/// disks with blocks of 512 bytes that is the second block, on those with blocks of 1024 bytes or
/// more it is in the first. No other disk has one.
pub proof fn law_header_follows_the_record(sector0: Seq<u8>, block_size: usize)
    ensures
        ({
            let protective = sector0.len() >= 512 && sector0[510] == 0x55 && sector0[511] == 0xAA
                && (sector0[450] == 0xEE || sector0[466] == 0xEE || sector0[482] == 0xEE
                || sector0[498] == 0xEE);
            &&& header_place(sector0, block_size) == HeaderPlace::SecondBlock <==> protective
                && block_size == 512
            &&& header_place(sector0, block_size) == HeaderPlace::FirstBlock <==> protective
                && block_size >= 1024 && sector0.len() >= 1024
        }),
{
    if sector0.len() >= 512 {
        mbr::law_boot_signature(sector0);
        mbr::law_protective_record_has_a_type(sector0);
    }
}

/// What a search for a GUID partition table reads: where the header is in the second block, that
/// block; then, where the header leads to entries, their blocks; and nothing else.
pub proof fn law_search_reads_header_and_entries(
    sector0: Seq<u8>,
    block_size: usize,
    reads: Seq<ReadMade>,
    found: Option<Seq<PartitionRange>>,
)
    requires
        gpt_run(sector0, block_size, reads, found),
    ensures
        header_place(sector0, block_size) == HeaderPlace::Nowhere ==> reads.len() == 0 && found
            is None,
        header_place(sector0, block_size) == HeaderPlace::SecondBlock ==> reads.len() >= 1
            && reads[0].at == 1 && reads[0].len == 512,
        ({
            let header = if block_size == 512 {
                reads[0].bytes
            } else {
                Some(sector0.subrange(512, 1024))
            };
            let made = if block_size == 512 {
                1int
            } else {
                0
            };
            header_place(sector0, block_size) != HeaderPlace::Nowhere ==> match header {
                None => reads.len() == made && found is None,
                Some(bytes) => match entry_table(bytes, block_size) {
                    None => reads.len() == made && found is None,
                    Some(table) => {
                        &&& reads.len() == made + 1
                        &&& reads[made].at == table.lba
                        &&& reads[made].len == table.span
                        &&& found == (match reads[made].bytes {
                            Some(span) => table_found(table, span),
                            None => None,
                        })
                    },
                },
            }
        }),
{
    if reads.len() > 1 {
        assert(reads.skip(1)[0] == reads[1]);
    }
}

proof fn lemma_whole_blocks(len: int, block_size: int)
    requires
        block_size > 0,
    ensures
        whole_blocks(len, block_size) % block_size == 0,
        len <= whole_blocks(len, block_size) < len + block_size,
{
    let top = len + block_size - 1;
    vstd::arithmetic::div_mod::lemma_fundamental_div_mod(top, block_size);
    vstd::arithmetic::div_mod::lemma_mod_multiples_basic(top / block_size, block_size);
    assert((top / block_size) * block_size == block_size * (top / block_size)) by (nonlinear_arith);
}

/// An entry of a table, as the span that holds the table spells it.
proof fn lemma_entry_spelled(table: EntryTable, span: Seq<u8>, e: int)
    requires
        table.entries_len <= span.len(),
        0 <= e < gpt::gpt_entries(
            span.take(table.entries_len as int),
            table.num,
            table.size,
        ).len(),
    ensures
        ({
            let p = gpt::gpt_entries(span.take(table.entries_len as int), table.num, table.size)[e];
            let at = e * table.size;
            &&& 0 <= at
            &&& 0 <= e < table.num
            &&& table.size >= 128
            &&& at + table.size <= table.entries_len
            &&& p.active() <==> exists|k: int| at <= k < at + 16 && #[trigger] span[k] != 0
            &&& le::spells(span, at + 32, 8, p.first_lba as int)
            &&& le::spells(span, at + 40, 8, p.last_lba as int)
        }),
{
    let data = span.take(table.entries_len as int);
    let p = gpt::gpt_entries(data, table.num, table.size)[e];
    let at = e * table.size;
    gpt::law_entries_lie_side_by_side(data, table.num, table.size, e);
    gpt::law_entry_is_what_its_bytes_say(data, table.num, table.size, e);
    assert((e + 1) * table.size == at + table.size) by (nonlinear_arith)
        requires
            at == e * table.size,
    ;
    assert(0 <= at) by (nonlinear_arith)
        requires
            at == e * table.size,
            0 <= e,
    ;
    assert(forall|k: int| at <= k < at + table.size ==> #[trigger] data[k] == span[k]);
    le::law_spelling_is_local(data, at + 32, span, at + 32, 8, p.first_lba as int);
    le::law_spelling_is_local(data, at + 40, span, at + 40, 8, p.last_lba as int);
    if p.active() {
        let k = choose|k: int| at <= k < at + 16 && #[trigger] data[k] != 0;
        assert(span[k] != 0);
    } else if exists|k: int| at <= k < at + 16 && #[trigger] span[k] != 0 {
        let k = choose|k: int| at <= k < at + 16 && #[trigger] span[k] != 0;
        assert(data[k] != 0);
    }
}

/// The ranges of entries are those of the usable ones, in their order.
proof fn lemma_ranges_of_entries(all: Seq<GPTPartition>) -> (entries: Seq<int>)
    ensures
        entries.len() == gpt_ranges(all).len(),
        forall|j: int, k: int| 0 <= j < k < entries.len() ==> entries[j] < entries[k],
        forall|k: int|
            0 <= k < entries.len() ==> {
                let p = all[entries[k]];
                &&& 0 <= #[trigger] entries[k] < all.len()
                &&& p.active()
                &&& p.first_lba <= p.last_lba
                &&& runs_from_to(gpt_ranges(all)[k], p.first_lba as int, p.last_lba as int)
            },
        forall|e: int|
            0 <= e < all.len() && #[trigger] usable(all[e]) ==> entries.contains(e),
    decreases all.len(),
{
    if all.len() == 0 {
        Seq::empty()
    } else {
        let fewer = all.drop_last();
        let before = lemma_ranges_of_entries(fewer);
        let i = all.len() - 1;
        let entries = if usable(all[i]) {
            before.push(i)
        } else {
            before
        };
        assert forall|k: int| 0 <= k < entries.len() implies {
            let p = all[entries[k]];
            &&& 0 <= #[trigger] entries[k] < all.len()
            &&& p.active()
            &&& p.first_lba <= p.last_lba
            &&& runs_from_to(gpt_ranges(all)[k], p.first_lba as int, p.last_lba as int)
        } by {
            if k < before.len() {
                assert(entries[k] == before[k]);
                assert(fewer[before[k]] == all[before[k]]);
            }
        }
        assert forall|e: int| 0 <= e < all.len() && #[trigger] usable(
            all[e],
        ) implies entries.contains(e) by {
            if e < i {
                assert(usable(fewer[e]));
                let k = choose|k: int| 0 <= k < before.len() && before[k] == e;
                assert(entries[k] == e);
            } else {
                assert(entries[before.len() as int] == e);
            }
        }
        entries
    }
}

} // verus!
