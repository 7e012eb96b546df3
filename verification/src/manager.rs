//! Partitions of raw block devices with blocks of 512 bytes.
use crate::cap::Endpoint;
use crate::error::Error;
use crate::fossil::buffer::IoUringSqe;
use crate::probe;
use crate::text;
use crate::utils::gpt;
use crate::utils::gpt::{GPTHeader, GPTPartition};
use crate::utils::mbr;
use crate::utils::mbr::{MBRPartition, MBR};
use std::collections::BTreeMap;
use vstd::prelude::*;
use vstd::string::StringExecFns;

verus! {

/// Where a partition lies on its device.
#[derive(Debug, Clone, Copy, PartialEq, Eq, Structural)]
pub struct PartitionMetadata {
    pub parent: u64,
    pub start_lba: u64,
    pub num_blocks: u64,
    pub block_size: u64,
}

/// A partition of a device.
#[derive(Debug, Clone, Copy, PartialEq, Eq, Structural)]
pub struct PartitionProxy {
    pub meta: PartitionMetadata,
}

/// What kind of device a logical device is.
#[derive(Debug, Clone, Copy, PartialEq, Eq, Structural)]
pub enum LogicDeviceType {
    /// A disk of so many bytes.
    RawBlock(u64),
    /// A partition of so many blocks.
    Block(u64),
    /// Anything else.
    Other,
}

/// The description of a logical device.
#[derive(Debug)]
pub struct LogicDeviceDesc {
    pub name: String,
    pub dev_type: LogicDeviceType,
    pub parent_name: String,
    pub badge: Option<u64>,
}

/// The description of a logical device as a mathematical object.
#[verifier::ext_equal]
pub struct DescView {
    pub name: Seq<char>,
    pub dev_type: LogicDeviceType,
    pub parent_name: Seq<char>,
    pub badge: Option<u64>,
}

impl View for LogicDeviceDesc {
    type V = DescView;

    open spec fn view(&self) -> DescView {
        DescView {
            name: self.name@,
            dev_type: self.dev_type,
            parent_name: self.parent_name@,
            badge: self.badge,
        }
    }
}

/// The unit in which disks are read, and in which request offsets count the start of a partition.
pub const SECTOR: u64 = 512;

/// The length of the longest partition entry table that can be read.
pub const TABLE_ROOM: usize = 16384;

impl PartitionProxy {
    /// A partition.
    pub fn new(meta: PartitionMetadata, _endpoint: Endpoint, _name: String) -> (r: PartitionProxy)
        ensures
            r.meta == meta,
    {
        PartitionProxy { meta }
    }

    /// Turns an offset in the partition into an offset on the device.
    pub fn translate_sqe(&self, sqe: &mut IoUringSqe)
        requires
            self.meta.start_lba * SECTOR <= u64::MAX,
            old(sqe).off + self.meta.start_lba * SECTOR <= usize::MAX,
        ensures
            *final(sqe) == (IoUringSqe {
                off: (old(sqe).off + self.meta.start_lba * SECTOR) as usize,
                ..*old(sqe)
            }),
            final(sqe).off - old(sqe).off == 512 * self.meta.start_lba,
            final(sqe).opcode == old(sqe).opcode,
            final(sqe).addr == old(sqe).addr,
            final(sqe).len == old(sqe).len,
            final(sqe).user_data == old(sqe).user_data,
    {
        sqe.off = sqe.off + (self.meta.start_lba * SECTOR) as usize;
    }
}

/// The length of the entries that the header of a partition table describes.
pub open spec fn entries_len(header: GPTHeader) -> int {
    header.num_partition_entries * header.partition_entry_size
}

/// Whether the partition table that the sector `header` describes, if it is a header, can be read.
pub open spec fn table_fits(header: Seq<u8>) -> bool {
    gpt::gpt_header(header) matches Some(h) ==> entries_len(h) <= TABLE_ROOM
}

/// Whether every partition table that the disk can describe can be read in full.
pub open spec fn tables_fit<F: FnMut(u64) -> Result<Vec<u8>, Error>>(read: F) -> bool {
    forall|out: Result<Vec<u8>, Error>| #[trigger]
        call_ensures(read, (1u64,), out) ==> (out matches Ok(header) ==> table_fits(header@))
}

/// Whether the disk starts with an archive, which opens with the digits `070701`.
pub open spec fn is_archive(s: Seq<u8>) -> bool {
    &&& s.len() >= 6
    &&& s[0] == 0x30
    &&& s[1] == 0x37
    &&& s[2] == 0x30
    &&& s[3] == 0x37
    &&& s[4] == 0x30
    &&& s[5] == 0x31
}

/// Whether a disk with first sector `sector0` is one with a GUID partition table: not an archive,
/// but with a protective master boot record.
pub open spec fn is_guid_disk(sector0: Seq<u8>) -> bool {
    &&& !is_archive(sector0)
    &&& mbr::is_mbr(sector0)
    &&& mbr::has_protective(mbr::mbr_table(sector0))
}

/// Sector number `i` of the entries that the header of a partition table describes.
pub open spec fn table_sector(header: GPTHeader, i: int) -> u64 {
    header.partition_entry_lba.wrapping_add(i as u64)
}

/// Whether the sectors of the entries may be read that the header of a partition table describes.
pub open spec fn reads_entries<F: FnMut(u64) -> Result<Vec<u8>, Error>>(
    read: F,
    header: GPTHeader,
) -> bool {
    forall|i: int|
        0 <= i < (entries_len(header) + 511) / 512 ==> call_requires(
            read,
            (#[trigger] table_sector(header, i),),
        )
}

/// What is needed of the closure that reads sectors to list the partitions of a disk: nothing,
/// unless it has a GUID partition table. Then the header may be read, and the entries that it
/// describes, and these are not too long.
pub open spec fn reads_disk<F: FnMut(u64) -> Result<Vec<u8>, Error>>(
    read: F,
    sector0: Seq<u8>,
) -> bool {
    is_guid_disk(sector0) ==> {
        &&& call_requires(read, (1u64,))
        &&& tables_fit(read)
        &&& forall|out: Result<Vec<u8>, Error>| #[trigger]
            call_ensures(read, (1u64,), out) ==> (out matches Ok(sector) ==> (
            gpt::gpt_header(sector@) matches Some(header) ==> reads_entries(read, header)))
    }
}

/// The sectors that were read, one behind the other; those that were not leave no gap.
pub open spec fn joined(chunks: Seq<Option<Seq<u8>>>) -> Seq<u8>
    decreases chunks.len(),
{
    if chunks.len() == 0 {
        Seq::empty()
    } else {
        match chunks.last() {
            Some(bytes) => joined(chunks.drop_last()) + bytes,
            None => joined(chunks.drop_last()),
        }
    }
}

/// The first `len` bytes of `s`, with zeros for what is missing.
pub open spec fn padded(s: Seq<u8>, len: nat) -> Seq<u8> {
    Seq::new(
        len,
        |k: int|
            if k < s.len() {
                s[k]
            } else {
                0u8
            },
    )
}

/// The name of partition number `i`, counting from one.
pub open spec fn part_name(i: nat) -> Seq<char> {
    seq!['p'] + text::decimal(i)
}

/// The description of a partition of the device `parent`.
pub open spec fn part_desc(parent: DescView, name: Seq<char>, num_blocks: u64) -> DescView {
    DescView { name, dev_type: LogicDeviceType::Block(num_blocks), ..parent }
}

/// The partitions that entries of a GUID partition table give: those in use.
pub open spec fn gpt_parts(parent: DescView, entries: Seq<GPTPartition>) -> Seq<(DescView, u64)>
    decreases entries.len(),
{
    if entries.len() == 0 {
        Seq::empty()
    } else {
        let before = gpt_parts(parent, entries.drop_last());
        let p = entries.last();
        if p.active() {
            before.push(
                (
                    part_desc(
                        parent,
                        part_name(entries.len()),
                        p.last_lba.wrapping_sub(p.first_lba).wrapping_add(1),
                    ),
                    p.first_lba,
                ),
            )
        } else {
            before
        }
    }
}

/// The partitions that the first `n` entries of a master boot record give: those in use.
pub open spec fn mbr_parts(
    parent: DescView,
    table: Seq<Option<MBRPartition>>,
    n: int,
) -> Seq<(DescView, u64)>
    decreases n,
{
    if n <= 0 {
        Seq::empty()
    } else {
        let before = mbr_parts(parent, table, n - 1);
        match table[n - 1] {
            Some(p) => before.push(
                (
                    part_desc(parent, part_name(n as nat), p.sectors_count as u64),
                    p.start_lba as u64,
                ),
            ),
            None => before,
        }
    }
}

/// The descriptions and first blocks of partitions as mathematical objects.
pub open spec fn parts_view(parts: Seq<(LogicDeviceDesc, u64)>) -> Seq<(DescView, u64)> {
    parts.map_values(|p: (LogicDeviceDesc, u64)| (p.0@, p.1))
}

/// The sectors of a partition entry table that were asked for, and what each read gave.
pub open spec fn table_read<F: FnMut(u64) -> Result<Vec<u8>, Error>>(
    read: F,
    header: GPTHeader,
    outs: Seq<Result<Vec<u8>, Error>>,
) -> bool {
    &&& outs.len() == (entries_len(header) + 511) / 512
    &&& forall|i: int|
        0 <= i < outs.len() ==> call_ensures(
            read,
            (table_sector(header, i),),
            #[trigger] outs[i],
        )
}

/// The partitions of a disk with a GUID partition table were listed.
pub open spec fn gpt_listed<F: FnMut(u64) -> Result<Vec<u8>, Error>>(
    read: F,
    parent: DescView,
    found: Seq<(DescView, u64)>,
) -> bool {
    exists|first: Result<Vec<u8>, Error>| #[trigger]
        call_ensures(read, (1u64,), first) && match probe::bytes_of(first) {
            None => found.len() == 0,
            Some(sector) => match gpt::gpt_header(sector) {
                None => found.len() == 0,
                Some(header) => exists|outs: Seq<Result<Vec<u8>, Error>>| #[trigger]
                    table_read(read, header, outs) && found == gpt_parts(
                        parent,
                        gpt::gpt_entries(
                            padded(joined(probe::all_bytes(outs)), entries_len(header) as nat),
                            header.num_partition_entries,
                            header.partition_entry_size,
                        ),
                    ),
            },
        }
}

/// The partitions of a disk with first sector `sector0` were listed: an archive is one partition,
/// a disk with a GUID partition table has those of the table, one with another master boot record
/// has those of the record, and any other disk has none.
pub open spec fn parts_listed<F: FnMut(u64) -> Result<Vec<u8>, Error>>(
    read: F,
    parent: DescView,
    sector0: Seq<u8>,
    num_blocks: u64,
    found: Seq<(DescView, u64)>,
) -> bool {
    if is_archive(sector0) {
        found == seq![(part_desc(parent, "initrd"@, num_blocks), 0u64)]
    } else if !mbr::is_mbr(sector0) {
        found.len() == 0
    } else if mbr::has_protective(mbr::mbr_table(sector0)) {
        gpt_listed(read, parent, found)
    } else {
        found == mbr_parts(parent, mbr::mbr_table(sector0), 4)
    }
}

/// Whether the partition table that a sector describes, if it is a header, can be read.
pub fn gpt_table_fits(header: &[u8]) -> (r: bool)
    ensures
        r == table_fits(header@),
{
    match GPTHeader::parse(header) {
        Some(h) => {
            let num: u64 = h.num_partition_entries as u64;
            let size: u64 = h.partition_entry_size as u64;
            assert(num * size <= 0xFFFF_FFFF * 0xFFFF_FFFF) by (nonlinear_arith)
                requires
                    num <= 0xFFFF_FFFF,
                    size <= 0xFFFF_FFFF,
            ;
            num * size <= TABLE_ROOM as u64
        },
        None => true,
    }
}

fn make_part(parent: &LogicDeviceDesc, name: String, num_blocks: u64) -> (r: LogicDeviceDesc)
    ensures
        r@ == part_desc(parent@, name@, num_blocks),
{
    LogicDeviceDesc {
        name,
        dev_type: LogicDeviceType::Block(num_blocks),
        parent_name: parent.parent_name.clone(),
        badge: parent.badge,
    }
}

fn make_name(i: usize) -> (r: String)
    ensures
        r@ == part_name(i as nat),
{
    proof {
        reveal_strlit("p");
    }
    let mut r = String::from_str("p");
    assert(r@ =~= seq!['p']);
    let number = text::to_decimal(i);
    r.append(number.as_str());
    r
}

fn list_entries(parent: &LogicDeviceDesc, entries: &Vec<GPTPartition>) -> (r: Vec<
    (LogicDeviceDesc, u64),
>)
    ensures
        parts_view(r@) == gpt_parts(parent@, entries@),
{
    let mut r: Vec<(LogicDeviceDesc, u64)> = Vec::new();
    let mut i: usize = 0;
    assert(parts_view(r@) =~= gpt_parts(parent@, entries@.take(0)));
    while i < entries.len()
        invariant
            i <= entries@.len(),
            parts_view(r@) == gpt_parts(parent@, entries@.take(i as int)),
        decreases entries@.len() - i,
    {
        let ghost had = parts_view(r@);
        let p = entries[i];
        assert(entries@.take(i + 1).drop_last() =~= entries@.take(i as int));
        if p.is_active() {
            let num_blocks: u64 = p.last_lba.wrapping_sub(p.first_lba).wrapping_add(1);
            let desc = make_part(parent, make_name(i + 1), num_blocks);
            let ghost view = desc@;
            r.push((desc, p.first_lba));
            assert(parts_view(r@) =~= had.push((view, p.first_lba)));
        }
        i = i + 1;
    }
    assert(entries@.take(i as int) =~= entries@);
    r
}

fn list_record(parent: &LogicDeviceDesc, record: &MBR) -> (r: Vec<(LogicDeviceDesc, u64)>)
    ensures
        parts_view(r@) == mbr_parts(parent@, record.partitions@, 4),
{
    let mut r: Vec<(LogicDeviceDesc, u64)> = Vec::new();
    let mut i: usize = 0;
    assert(parts_view(r@) =~= mbr_parts(parent@, record.partitions@, 0));
    while i < 4
        invariant
            i <= 4,
            record.partitions@.len() == 4,
            parts_view(r@) == mbr_parts(parent@, record.partitions@, i as int),
        decreases 4 - i,
    {
        let ghost had = parts_view(r@);
        if let Some(p) = record.partitions[i] {
            let desc = make_part(parent, make_name(i + 1), p.sectors_count as u64);
            let ghost view = desc@;
            r.push((desc, p.start_lba as u64));
            assert(parts_view(r@) =~= had.push((view, p.start_lba as u64)));
        }
        i = i + 1;
    }
    r
}

fn read_table<F: FnMut(u64) -> Result<Vec<u8>, Error>>(read: &mut F, header: &GPTHeader) -> (data:
    Vec<u8>)
    requires
        reads_entries(*old(read), *header),
        entries_len(*header) <= TABLE_ROOM,
    ensures
        *final(read) == *old(read),
        exists|outs: Seq<Result<Vec<u8>, Error>>| #[trigger]
            table_read(*old(read), *header, outs) && data@ == padded(
                joined(probe::all_bytes(outs)),
                entries_len(*header) as nat,
            ),
{
    let num: u64 = header.num_partition_entries as u64;
    let size: u64 = header.partition_entry_size as u64;
    let len: u64 = num * size;
    let blocks: u64 = (len + 511) / 512;
    let mut data: Vec<u8> = Vec::new();
    let ghost mut outs: Seq<Result<Vec<u8>, Error>> = Seq::empty();
    let mut i: u64 = 0;
    assert(data@ =~= joined(probe::all_bytes(outs)));
    while i < blocks
        invariant
            i <= blocks,
            blocks <= 32,
            *read == *old(read),
            reads_entries(*read, *header),
            blocks == (entries_len(*header) + 511) / 512,
            outs.len() == i,
            forall|j: int|
                0 <= j < outs.len() ==> call_ensures(
                    *old(read),
                    (table_sector(*header, j),),
                    #[trigger] outs[j],
                ),
            data@ == joined(probe::all_bytes(outs)),
        decreases blocks - i,
    {
        let ghost had = outs;
        assert(table_sector(*header, i as int) == header.partition_entry_lba.wrapping_add(i));
        let out = read(header.partition_entry_lba.wrapping_add(i));
        proof {
            assert(call_ensures(*old(read), (table_sector(*header, i as int),), out));
            outs = outs.push(out);
            assert(probe::all_bytes(outs).drop_last() =~= probe::all_bytes(had));
            assert(probe::all_bytes(outs).last() == probe::bytes_of(out));
        }
        if let Ok(chunk) = out {
            data.extend_from_slice(chunk.as_slice());
            assert(data@ =~= joined(probe::all_bytes(outs)));
        }
        i = i + 1;
    }
    let ghost all = data@;
    let want: usize = len as usize;
    if data.len() > want {
        data.truncate(want);
    }
    while data.len() < want
        invariant
            data@.len() <= want,
            data@ == padded(all, data@.len()),
            data@.len() < want ==> all.len() <= data@.len(),
        decreases want - data@.len(),
    {
        data.push(0);
        assert(data@ =~= padded(all, data@.len()));
    }
    assert(table_read(*old(read), *header, outs));
    data
}

/// The partitions of the disks, by badge.
pub struct FossilManager {
    partitions: BTreeMap<usize, PartitionProxy>,
}

impl View for FossilManager {
    type V = Map<usize, PartitionProxy>;

    closed spec fn view(&self) -> Map<usize, PartitionProxy> {
        self.partitions@
    }
}

impl FossilManager {
    /// No partitions.
    pub fn new(_device_ep: Endpoint) -> (r: FossilManager)
        ensures
            r@ == Map::<usize, PartitionProxy>::empty(),
    {
        FossilManager { partitions: BTreeMap::new() }
    }

    /// Registers a partition.
    pub fn register_proxy(&mut self, badge: usize, proxy: PartitionProxy)
        ensures
            final(self)@ == old(self)@.insert(badge, proxy),
    {
        self.partitions.insert(badge, proxy);
    }

    /// The partition with a badge.
    pub fn get_partition(&self, badge: usize) -> (r: Option<&PartitionProxy>)
        ensures
            match r {
                Some(proxy) => self@.contains_key(badge) && *proxy == self@[badge],
                None => !self@.contains_key(badge),
            },
    {
        self.partitions.get(&badge)
    }

    /// Lists the partitions of a disk with first sector `sector0`.
    pub fn probe<F: FnMut(u64) -> Result<Vec<u8>, Error>>(
        &mut self,
        _parent: usize,
        parent_desc: &LogicDeviceDesc,
        sector0: &[u8],
        num_blocks: u64,
        read_fn: &mut F,
    ) -> (found: Vec<(LogicDeviceDesc, u64)>)
        requires
            reads_disk(*old(read_fn), sector0@),
        ensures
            final(self)@ == old(self)@,
            *final(read_fn) == *old(read_fn),
            parts_listed(
                *old(read_fn),
                parent_desc@,
                sector0@,
                num_blocks,
                parts_view(found@),
            ),
    {
        let mut results: Vec<(LogicDeviceDesc, u64)> = Vec::new();
        if sector0.len() >= 6 && sector0[0] == 0x30 && sector0[1] == 0x37 && sector0[2] == 0x30
            && sector0[3] == 0x37 && sector0[4] == 0x30 && sector0[5] == 0x31 {
            let desc = make_part(parent_desc, String::from_str("initrd"), num_blocks);
            let ghost view = desc@;
            results.push((desc, 0));
            assert(parts_view(results@) =~= seq![(view, 0u64)]);
            return results;
        }
        let record = match MBR::parse(sector0) {
            Some(record) => record,
            None => {
                return results;
            },
        };
        if !record.is_protective_gpt() {
            return list_record(parent_desc, &record);
        }
        let first = read_fn(1);
        assert(call_ensures(*old(read_fn), (1u64,), first));
        let sector = match &first {
            Ok(sector) => sector,
            Err(_) => {
                return results;
            },
        };
        let header = match GPTHeader::parse(sector.as_slice()) {
            Some(header) => header,
            None => {
                return results;
            },
        };
        let data = read_table(read_fn, &header);
        let entries = GPTPartition::parse_entries(
            data.as_slice(),
            header.num_partition_entries,
            header.partition_entry_size,
        );
        list_entries(parent_desc, &entries)
    }
}

/// The partitions that are listed of a disk have different names.
pub proof fn law_part_names_differ(i: nat, j: nat)
    requires
        i != j,
    ensures
        part_name(i) != part_name(j),
{
    assert(part_name(i).skip(1) =~= text::decimal(i));
    assert(part_name(j).skip(1) =~= text::decimal(j));
    if part_name(i) == part_name(j) {
        text::law_decimal_tells_numbers_apart(i, j);
    }
}

/// A listed partition is named by a `p` and its number in decimal digits.
pub proof fn law_part_name_tells_the_number(i: nat)
    ensures
        part_name(i)[0] == 'p',
        part_name(i).len() >= 2,
        text::number_of(part_name(i).skip(1)) == i,
        i > 0 ==> part_name(i)[1] != '0',
{
    text::law_decimal_spells_the_number(i);
    assert(part_name(i).skip(1) =~= text::decimal(i));
}

/// Of a GUID partition table the entries in use are listed, in their order, and no others. Each
/// partition starts at the first block of its entry, ends at its last (its length is taken modulo
/// `2^64`), and is named by the number of the entry, counting from one; all else is as the disk is
/// described. `used` are the places of the entries.
pub proof fn law_guid_disk_lists_its_entries(parent: DescView, entries: Seq<GPTPartition>) -> (used:
    Seq<int>)
    ensures
        used.len() == gpt_parts(parent, entries).len(),
        forall|j: int, k: int| 0 <= j < k < used.len() ==> used[j] < used[k],
        forall|k: int|
            #![trigger used[k]]
            0 <= k < used.len() ==> {
                let part = gpt_parts(parent, entries)[k];
                let entry = entries[used[k]];
                &&& 0 <= used[k] < entries.len()
                &&& entry.active()
                &&& part.1 == entry.first_lba
                &&& part.0.dev_type is Block
                &&& entry.first_lba <= entry.last_lba + 1 && entry.last_lba - entry.first_lba
                    < u64::MAX ==> part.1 + part.0.dev_type->Block_0 - 1 == entry.last_lba
                &&& entry.first_lba > entry.last_lba + 1 ==> part.1 + part.0.dev_type->Block_0 - 1
                    == entry.last_lba + 0x1_0000_0000_0000_0000
                &&& entry.last_lba - entry.first_lba == u64::MAX ==> part.0.dev_type->Block_0 == 0
                &&& part.0.name[0] == 'p'
                &&& text::number_of(part.0.name.skip(1)) == used[k] + 1
                &&& part.0.parent_name == parent.parent_name
                &&& part.0.badge == parent.badge
            },
        forall|i: int|
            0 <= i < entries.len() && (#[trigger] entries[i]).active() ==> used.contains(i),
    decreases entries.len(),
{
    if entries.len() == 0 {
        Seq::empty()
    } else {
        let fewer = entries.drop_last();
        let before = law_guid_disk_lists_its_entries(parent, fewer);
        let n = entries.len() - 1;
        let used = if entries.last().active() {
            before.push(n)
        } else {
            before
        };
        law_part_name_tells_the_number(entries.len());
        assert forall|k: int|
            #![trigger used[k]]
            0 <= k < used.len() implies {
            let part = gpt_parts(parent, entries)[k];
            let entry = entries[used[k]];
            &&& 0 <= used[k] < entries.len()
            &&& entry.active()
            &&& part.1 == entry.first_lba
            &&& part.0.dev_type is Block
            &&& entry.first_lba <= entry.last_lba + 1 && entry.last_lba - entry.first_lba
                < u64::MAX ==> part.1 + part.0.dev_type->Block_0 - 1 == entry.last_lba
            &&& entry.first_lba > entry.last_lba + 1 ==> part.1 + part.0.dev_type->Block_0 - 1
                == entry.last_lba + 0x1_0000_0000_0000_0000
            &&& entry.last_lba - entry.first_lba == u64::MAX ==> part.0.dev_type->Block_0 == 0
            &&& part.0.name[0] == 'p'
            &&& text::number_of(part.0.name.skip(1)) == used[k] + 1
            &&& part.0.parent_name == parent.parent_name
            &&& part.0.badge == parent.badge
        } by {
            if k < before.len() {
                assert(used[k] == before[k]);
                assert(fewer[before[k]] == entries[before[k]]);
            }
        }
        assert forall|i: int|
            0 <= i < entries.len() && (#[trigger] entries[i]).active() implies used.contains(
            i,
        ) by {
            if i < n {
                assert(fewer[i].active());
                let k = choose|k: int| 0 <= k < before.len() && before[k] == i;
                assert(used[k] == i);
            } else {
                assert(used[before.len() as int] == i);
            }
        }
        used
    }
}

/// Of a boot record the entries in use are listed, in their order, and no others. Each partition
/// starts at the first sector of its entry, has as many blocks as the entry has sectors, and is
/// named by the number of the entry, counting from one; all else is as the disk is described.
/// `used` are the places of the entries.
pub proof fn law_record_disk_lists_its_entries(
    parent: DescView,
    table: Seq<Option<MBRPartition>>,
    n: int,
) -> (used: Seq<int>)
    requires
        0 <= n <= table.len(),
    ensures
        used.len() == mbr_parts(parent, table, n).len(),
        forall|j: int, k: int| 0 <= j < k < used.len() ==> used[j] < used[k],
        forall|k: int|
            #![trigger used[k]]
            0 <= k < used.len() ==> {
                let part = mbr_parts(parent, table, n)[k];
                let entry = table[used[k]];
                &&& 0 <= used[k] < n
                &&& entry is Some
                &&& part.1 == entry->0.start_lba
                &&& part.0.dev_type is Block
                &&& part.0.dev_type->Block_0 == entry->0.sectors_count
                &&& part.0.name[0] == 'p'
                &&& text::number_of(part.0.name.skip(1)) == used[k] + 1
                &&& part.0.parent_name == parent.parent_name
                &&& part.0.badge == parent.badge
            },
        forall|i: int| 0 <= i < n && #[trigger] table[i] is Some ==> used.contains(i),
    decreases n,
{
    if n <= 0 {
        Seq::empty()
    } else {
        let before = law_record_disk_lists_its_entries(parent, table, n - 1);
        let used = if table[n - 1] is Some {
            before.push(n - 1)
        } else {
            before
        };
        law_part_name_tells_the_number(n as nat);
        assert forall|k: int|
            #![trigger used[k]]
            0 <= k < used.len() implies {
            let part = mbr_parts(parent, table, n)[k];
            let entry = table[used[k]];
            &&& 0 <= used[k] < n
            &&& entry is Some
            &&& part.1 == entry->0.start_lba
            &&& part.0.dev_type is Block
            &&& part.0.dev_type->Block_0 == entry->0.sectors_count
            &&& part.0.name[0] == 'p'
            &&& text::number_of(part.0.name.skip(1)) == used[k] + 1
            &&& part.0.parent_name == parent.parent_name
            &&& part.0.badge == parent.badge
        } by {
            if k < before.len() {
                assert(used[k] == before[k]);
            }
        }
        assert forall|i: int| 0 <= i < n && #[trigger] table[i] is Some implies used.contains(
            i,
        ) by {
            if i < n - 1 {
                let k = choose|k: int| 0 <= k < before.len() && before[k] == i;
                assert(used[k] == i);
            } else {
                assert(used[before.len() as int] == i);
            }
        }
        used
    }
}

/// A disk that starts with the digits `070701` is one partition, which starts with the disk and is
/// as long.
pub proof fn law_archive_is_one_partition<F: FnMut(u64) -> Result<Vec<u8>, Error>>(
    read: F,
    parent: DescView,
    sector0: Seq<u8>,
    num_blocks: u64,
    found: Seq<(DescView, u64)>,
)
    requires
        sector0.len() >= 6,
        sector0.take(6) == seq![0x30u8, 0x37u8, 0x30u8, 0x37u8, 0x30u8, 0x31u8],
        parts_listed(read, parent, sector0, num_blocks, found),
    ensures
        found.len() == 1,
        found[0].1 == 0,
        found[0].0.name == seq!['i', 'n', 'i', 't', 'r', 'd'],
        found[0].0.dev_type == LogicDeviceType::Block(num_blocks),
        found[0].0.parent_name == parent.parent_name,
        found[0].0.badge == parent.badge,
{
    let head = sector0.take(6);
    assert(head[0] == sector0[0] && head[1] == sector0[1] && head[2] == sector0[2]);
    assert(head[3] == sector0[3] && head[4] == sector0[4] && head[5] == sector0[5]);
    reveal_strlit("initrd");
    assert("initrd"@ =~= seq!['i', 'n', 'i', 't', 'r', 'd']);
}

/// Any other disk has the partitions of its boot record, or of the table that the sector after a
/// protective record describes; a disk without either has none. `first` and `outs` are what the
/// sectors read as.
pub proof fn law_other_disks_have_the_partitions_of_their_tables<
    F: FnMut(u64) -> Result<Vec<u8>, Error>,
>(
    read: F,
    parent: DescView,
    sector0: Seq<u8>,
    num_blocks: u64,
    found: Seq<(DescView, u64)>,
) -> (w: (Result<Vec<u8>, Error>, Seq<Result<Vec<u8>, Error>>))
    requires
        sector0.len() < 6 || sector0.take(6) != seq![
            0x30u8,
            0x37u8,
            0x30u8,
            0x37u8,
            0x30u8,
            0x31u8,
        ],
        parts_listed(read, parent, sector0, num_blocks, found),
    ensures
        ({
            let signed = sector0.len() >= 512 && sector0[510] == 0x55 && sector0[511] == 0xAA;
            let protective = sector0[450] == 0xEE || sector0[466] == 0xEE || sector0[482] == 0xEE
                || sector0[498] == 0xEE;
            &&& !signed ==> found.len() == 0
            &&& signed && !protective ==> found == mbr_parts(parent, mbr::mbr_table(sector0), 4)
            &&& signed && protective ==> {
                &&& call_ensures(read, (1u64,), w.0)
                &&& w.0 is Err ==> found.len() == 0
                &&& w.0 is Ok && gpt::gpt_header(w.0->Ok_0@) is None ==> found.len() == 0
                &&& w.0 is Ok && gpt::gpt_header(w.0->Ok_0@) is Some ==> {
                    let header = gpt::gpt_header(w.0->Ok_0@)->0;
                    &&& table_read(read, header, w.1)
                    &&& found == gpt_parts(
                        parent,
                        gpt::gpt_entries(
                            padded(
                                joined(probe::all_bytes(w.1)),
                                (header.num_partition_entries * header.partition_entry_size) as nat,
                            ),
                            header.num_partition_entries,
                            header.partition_entry_size,
                        ),
                    )
                }
            }
        }),
{
    if is_archive(sector0) {
        assert(sector0.take(6) =~= seq![0x30u8, 0x37u8, 0x30u8, 0x37u8, 0x30u8, 0x31u8]);
    }
    mbr::law_boot_signature(sector0);
    if sector0.len() >= 512 {
        mbr::law_protective_record_has_a_type(sector0);
    }
    if is_guid_disk(sector0) {
        let first = choose|first: Result<Vec<u8>, Error>| #[trigger]
            call_ensures(read, (1u64,), first) && match probe::bytes_of(first) {
                None => found.len() == 0,
                Some(sector) => match gpt::gpt_header(sector) {
                    None => found.len() == 0,
                    Some(header) => exists|outs: Seq<Result<Vec<u8>, Error>>| #[trigger]
                        table_read(read, header, outs) && found == gpt_parts(
                            parent,
                            gpt::gpt_entries(
                                padded(joined(probe::all_bytes(outs)), entries_len(header) as nat),
                                header.num_partition_entries,
                                header.partition_entry_size,
                            ),
                        ),
                },
            };
        if first is Ok && gpt::gpt_header(first->Ok_0@) is Some {
            let header = gpt::gpt_header(first->Ok_0@)->0;
            let outs = choose|outs: Seq<Result<Vec<u8>, Error>>| #[trigger]
                table_read(read, header, outs) && found == gpt_parts(
                    parent,
                    gpt::gpt_entries(
                        padded(joined(probe::all_bytes(outs)), entries_len(header) as nat),
                        header.num_partition_entries,
                        header.partition_entry_size,
                    ),
                );
            (first, outs)
        } else {
            (first, Seq::empty())
        }
    } else {
        arbitrary()
    }
}

/// A partition entry table is read from the sector that the header names on, in as many sectors of
/// 512 bytes as hold all entries; the numbers of sectors are taken modulo `2^64`.
pub proof fn law_table_is_read_sector_by_sector<F: FnMut(u64) -> Result<Vec<u8>, Error>>(
    read: F,
    header: GPTHeader,
    outs: Seq<Result<Vec<u8>, Error>>,
    i: int,
    sector: u64,
)
    requires
        table_read(read, header, outs),
    ensures
        ({
            let len = header.num_partition_entries * header.partition_entry_size;
            len <= 512 * outs.len() < len + 512
        }),
        0 <= i < outs.len() && (sector == header.partition_entry_lba + i || sector
            + 0x1_0000_0000_0000_0000 == header.partition_entry_lba + i) ==> call_ensures(
            read,
            (sector,),
            outs[i],
        ),
{
    let (num, size) = (header.num_partition_entries, header.partition_entry_size);
    assert(num * size <= 0xFFFF_FFFF * 0xFFFF_FFFF) by (nonlinear_arith)
        requires
            num <= 0xFFFF_FFFF,
            size <= 0xFFFF_FFFF,
    ;
    if 0 <= i < outs.len() && (sector == header.partition_entry_lba + i || sector
        + 0x1_0000_0000_0000_0000 == header.partition_entry_lba + i) {
        assert(table_sector(header, i) == sector);
    }
}

/// Sectors of 512 bytes that were all read lie one behind the other, and what is used of them is
/// what was read.
pub proof fn law_sectors_lie_one_behind_the_other(
    chunks: Seq<Option<Seq<u8>>>,
    len: nat,
    i: int,
    j: int,
)
    requires
        forall|k: int|
            0 <= k < chunks.len() ==> (#[trigger] chunks[k]) is Some && chunks[k]->0.len() == 512,
        0 <= i < chunks.len(),
        0 <= j < 512,
    ensures
        joined(chunks).len() == 512 * chunks.len(),
        joined(chunks)[512 * i + j] == chunks[i]->0[j],
        padded(joined(chunks), len).len() == len,
        512 * i + j < len ==> padded(joined(chunks), len)[512 * i + j] == chunks[i]->0[j],
    decreases chunks.len(),
{
    let fewer = chunks.drop_last();
    assert forall|k: int| 0 <= k < fewer.len() implies (#[trigger] fewer[k]) is Some
        && fewer[k]->0.len() == 512 by {
        assert(chunks[k] is Some);
    }
    assert(chunks[chunks.len() - 1] is Some);
    lemma_joined_len(fewer);
    if i < fewer.len() {
        law_sectors_lie_one_behind_the_other(fewer, len, i, j);
        assert(fewer[i] == chunks[i]);
    }
}

proof fn lemma_joined_len(chunks: Seq<Option<Seq<u8>>>)
    requires
        forall|k: int|
            0 <= k < chunks.len() ==> (#[trigger] chunks[k]) is Some && chunks[k]->0.len() == 512,
    ensures
        joined(chunks).len() == 512 * chunks.len(),
    decreases chunks.len(),
{
    if chunks.len() > 0 {
        let fewer = chunks.drop_last();
        assert forall|k: int| 0 <= k < fewer.len() implies (#[trigger] fewer[k]) is Some
            && fewer[k]->0.len() == 512 by {
            assert(chunks[k] is Some);
        }
        assert(chunks[chunks.len() - 1] is Some);
        lemma_joined_len(fewer);
    }
}

/// What is missing of a table reads as zeros.
pub proof fn law_missing_bytes_are_zeros(s: Seq<u8>, len: nat, k: int)
    requires
        0 <= k < len,
    ensures
        padded(s, len).len() == len,
        k < s.len() ==> padded(s, len)[k] == s[k],
        k >= s.len() ==> padded(s, len)[k] == 0,
{
}

/// A table can be read if its entries take at most 16384 bytes.
pub proof fn law_tables_of_16_kilobytes_fit(header: Seq<u8>)
    ensures
        table_fits(header) <==> (gpt::gpt_header(header) matches Some(h)
            ==> h.num_partition_entries * h.partition_entry_size <= 16384),
{
}

} // verus!
