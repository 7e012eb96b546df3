//! Looking for partitions and file systems through the block cache.
use super::buffer::BufferCache;
use super::coherence;
use super::reader;
use super::reader::{DeviceAnswers, Store};
use crate::error::Error;
use crate::probe::fs;
use crate::probe::fs::{FileSystemType, FsProber, FILESYSTEM_PROBERS};
use crate::probe::part;
use crate::probe::part::gpt;
use crate::probe::part::gpt::HeaderPlace;
use crate::probe::part::mbr;
use crate::probe::part::{PartitionRange, ProbeContext};
use crate::probe::ReadMade;
use vstd::prelude::*;

verus! {

/// One span that was read: where, how much, and what it gave if the read succeeded.
pub struct SpanMade {
    pub first_lba: usize,
    pub offset: usize,
    pub len: usize,
    pub bytes: Option<Seq<u8>>,
}

/// The spans were read through the cache, one after the other.
pub open spec fn spans_done(
    dev: DeviceAnswers,
    hw_id: usize,
    block_size: usize,
    spans: Seq<SpanMade>,
    before: Store,
    after: Store,
) -> bool
    decreases spans.len(),
{
    if spans.len() == 0 {
        after == before
    } else {
        let last = spans.last();
        exists|between: Store, out: Result<Seq<u8>, Error>| #[trigger]
            reader::span_read(
                dev,
                hw_id,
                block_size,
                last.first_lba,
                last.offset as int,
                last.len as int,
                between,
                after,
                out,
            ) && last.bytes == reader::got(out) && spans_done(
                dev,
                hw_id,
                block_size,
                spans.drop_last(),
                before,
                between,
            )
    }
}

/// The spans of a partition at `first_lba` that the registered file system probers look at, as far
/// as they read as `windows`.
pub open spec fn fs_spans(first_lba: usize, windows: Seq<Option<Seq<u8>>>) -> Seq<SpanMade> {
    Seq::new(
        windows.len(),
        |i: int|
            SpanMade {
                first_lba,
                offset: FsProber::spec_registered(i).spec_offset(),
                len: FsProber::spec_registered(i).spec_window(),
                bytes: windows[i],
            },
    )
}

/// The file system of the partition at `first_lba` was found to be `found`.
pub open spec fn sniffed(
    dev: DeviceAnswers,
    hw_id: usize,
    block_size: usize,
    first_lba: usize,
    before: Store,
    after: Store,
    found: FileSystemType,
) -> bool {
    exists|windows: Seq<Option<Seq<u8>>>| #[trigger]
        fs::fs_run(windows, found) && spans_done(
            dev,
            hw_id,
            block_size,
            fs_spans(first_lba, windows),
            before,
            after,
        )
}

/// The spans that reads of whole blocks are.
pub open spec fn part_spans(reads: Seq<ReadMade>) -> Seq<SpanMade> {
    Seq::new(
        reads.len(),
        |i: int|
            SpanMade {
                first_lba: reads[i].at,
                offset: 0,
                len: reads[i].len,
                bytes: reads[i].bytes,
            },
    )
}

/// The partitions of a device with first block `sector0` were found to be `found`.
pub open spec fn scanned(
    dev: DeviceAnswers,
    hw_id: usize,
    block_size: usize,
    sector0: Seq<u8>,
    before: Store,
    after: Store,
    found: Seq<PartitionRange>,
) -> bool {
    exists|reads: Seq<ReadMade>| #[trigger]
        part::parts_run(sector0, block_size, reads, found) && spans_done(
            dev,
            hw_id,
            block_size,
            part_spans(reads),
            before,
            after,
        )
}

/// Finds the file system of the partition at `first_lba`.
pub fn sniff_fs<D: Fn(usize, usize, usize) -> Result<Vec<u8>, Error>>(
    cache: &mut BufferCache,
    arena: &mut [u8],
    dev: &D,
    hw_id: usize,
    block_size: usize,
    first_lba: usize,
) -> (found: FileSystemType)
    requires
        reader::reads_blocks(*dev),
        (Store { cache: old(cache)@, arena: old(arena)@ }).can_serve(block_size),
    ensures
        (Store { cache: final(cache)@, arena: final(arena)@ }).can_serve(block_size),
        (Store { cache: final(cache)@, arena: final(arena)@ }).same_layout(
            Store { cache: old(cache)@, arena: old(arena)@ },
        ),
        sniffed(
            reader::answers(*dev),
            hw_id,
            block_size,
            first_lba,
            Store { cache: old(cache)@, arena: old(arena)@ },
            Store { cache: final(cache)@, arena: final(arena)@ },
            found,
        ),
{
    let ghost before = Store { cache: cache@, arena: arena@ };
    let ghost mut windows: Seq<Option<Seq<u8>>> = Seq::empty();
    let mut i: usize = 0;
    while i < FILESYSTEM_PROBERS
        invariant
            i <= FILESYSTEM_PROBERS,
            reader::reads_blocks(*dev),
            before == (Store { cache: old(cache)@, arena: old(arena)@ }),
            (Store { cache: cache@, arena: arena@ }).can_serve(block_size),
            (Store { cache: cache@, arena: arena@ }).same_layout(before),
            windows.len() == i,
            forall|j: int|
                0 <= j < i ==> FsProber::spec_registered(j).verdict(#[trigger] windows[j]) is None,
            spans_done(
                reader::answers(*dev),
                hw_id,
                block_size,
                fs_spans(first_lba, windows),
                before,
                Store { cache: cache@, arena: arena@ },
            ),
        decreases FILESYSTEM_PROBERS - i,
    {
        let ghost now = Store { cache: cache@, arena: arena@ };
        let ghost had = windows;
        let prober = FsProber::registered(i);
        let out = reader::read_span(
            cache,
            arena,
            dev,
            hw_id,
            block_size,
            first_lba,
            prober.offset(),
            prober.window(),
        );
        proof {
            windows = windows.push(reader::got(reader::seen(out)));
            let spans = fs_spans(first_lba, windows);
            assert(spans.drop_last() =~= fs_spans(first_lba, had));
            assert(reader::span_read(
                reader::answers(*dev),
                hw_id,
                block_size,
                spans.last().first_lba,
                spans.last().offset as int,
                spans.last().len as int,
                now,
                Store { cache: cache@, arena: arena@ },
                reader::seen(out),
            ));
        }
        if let Ok(window) = out {
            if let Some(found) = prober.classify(window.as_slice()) {
                assert(fs::fs_run(windows, found));
                return found;
            }
        }
        i = i + 1;
    }
    assert(fs::fs_run(windows, FileSystemType::Unknown));
    FileSystemType::Unknown
}

/// Finds the partitions of a device with first block `sector0`.
pub fn scan_partitions<D: Fn(usize, usize, usize) -> Result<Vec<u8>, Error>>(
    cache: &mut BufferCache,
    arena: &mut [u8],
    dev: &D,
    hw_id: usize,
    block_size: usize,
    sector0: &[u8],
) -> (found: Vec<PartitionRange>)
    requires
        reader::reads_blocks(*dev),
        (Store { cache: old(cache)@, arena: old(arena)@ }).can_serve(block_size),
    ensures
        (Store { cache: final(cache)@, arena: final(arena)@ }).can_serve(block_size),
        (Store { cache: final(cache)@, arena: final(arena)@ }).same_layout(
            Store { cache: old(cache)@, arena: old(arena)@ },
        ),
        scanned(
            reader::answers(*dev),
            hw_id,
            block_size,
            sector0@,
            Store { cache: old(cache)@, arena: old(arena)@ },
            Store { cache: final(cache)@, arena: final(arena)@ },
            found@,
        ),
{
    let ctx = ProbeContext { sector0, block_size };
    let ghost before = Store { cache: cache@, arena: arena@ };
    let ghost mut reads: Seq<ReadMade> = Seq::empty();
    assert(part_spans(reads) =~= Seq::empty());
    let place = gpt::find_header(&ctx);
    let mut header: Option<Vec<u8>> = None;
    match place {
        HeaderPlace::Nowhere => {},
        HeaderPlace::FirstBlock => {
            header = Some(
                vstd::slice::slice_to_vec(vstd::slice::slice_subrange(sector0, 512, 1024)),
            );
        },
        HeaderPlace::SecondBlock => {
            let out = reader::read_span(cache, arena, dev, hw_id, block_size, 1, 0, 512);
            proof {
                reads = lemma_add_read(
                    reader::answers(*dev),
                    hw_id,
                    block_size,
                    reads,
                    1,
                    512,
                    before,
                    before,
                    Store { cache: cache@, arena: arena@ },
                    reader::seen(out),
                );
            }
            if let Ok(bytes) = out {
                header = Some(bytes);
            }
        },
    }
    let ghost header_reads = reads;
    let ghost now = Store { cache: cache@, arena: arena@ };
    let mut found: Option<Vec<PartitionRange>> = None;
    if let Some(bytes) = header {
        if let Some(table) = gpt::find_entries(bytes.as_slice(), block_size) {
            let out = reader::read_span(
                cache,
                arena,
                dev,
                hw_id,
                block_size,
                table.lba,
                0,
                table.span,
            );
            proof {
                reads = lemma_add_read(
                    reader::answers(*dev),
                    hw_id,
                    block_size,
                    reads,
                    table.lba,
                    table.span,
                    before,
                    now,
                    Store { cache: cache@, arena: arena@ },
                    reader::seen(out),
                );
                if header_reads.len() == 1 {
                    assert(reads.skip(1) =~= seq![reads.last()]);
                    assert(reads[0] == header_reads[0]);
                }
            }
            if let Ok(span) = out {
                found = gpt::list_partitions(&table, span.as_slice());
            }
        } else {
            assert(reads.len() == 1 ==> reads.skip(1).len() == 0);
        }
    }
    assert(gpt::gpt_run(sector0@, block_size, reads, part::parts_of(found)));
    proof {
        gpt::lemma_gpt_found_not_empty(sector0@, block_size, reads, part::parts_of(found));
    }
    if let Some(parts) = found {
        assert(part::parts_run(sector0@, block_size, reads, parts@));
        return parts;
    }
    let found_mbr = mbr::find_partitions(&ctx);
    match found_mbr {
        Some(parts) => {
            assert(part::parts_run(sector0@, block_size, reads, parts@));
            parts
        },
        None => {
            let none: Vec<PartitionRange> = Vec::new();
            assert(part::parts_run(sector0@, block_size, reads, none@));
            none
        },
    }
}

/// One more read of whole blocks.
proof fn lemma_add_read(
    dev: DeviceAnswers,
    hw_id: usize,
    block_size: usize,
    reads: Seq<ReadMade>,
    at: usize,
    len: usize,
    before: Store,
    between: Store,
    after: Store,
    out: Result<Seq<u8>, Error>,
) -> (r: Seq<ReadMade>)
    requires
        spans_done(dev, hw_id, block_size, part_spans(reads), before, between),
        reader::span_read(dev, hw_id, block_size, at, 0, len as int, between, after, out),
    ensures
        r == reads.push(ReadMade { at, len, bytes: reader::got(out) }),
        spans_done(dev, hw_id, block_size, part_spans(r), before, after),
{
    let r = reads.push(ReadMade { at, len, bytes: reader::got(out) });
    assert(part_spans(r).drop_last() =~= part_spans(reads));
    let last = part_spans(r).last();
    assert(reader::span_read(
        dev,
        hw_id,
        block_size,
        last.first_lba,
        last.offset as int,
        last.len as int,
        between,
        after,
        out,
    ));
    r
}

/// The file system that the partition at `first_lba` of an image holds: what the first of the
/// probers that recognises its window makes of it.
#[verifier::opaque]
pub open spec fn image_fs(
    image: spec_fn(usize) -> Seq<u8>,
    block_size: usize,
    first_lba: usize,
) -> FileSystemType {
    let boot_sector = coherence::image_span(image, block_size, first_lba, 0, 512);
    let superblock = coherence::image_span(image, block_size, first_lba, 1024, 1024);
    let header = coherence::image_span(image, block_size, first_lba, 0, 4);
    match FsProber::FatExfat.spec_classify(boot_sector) {
        Some(found) => found,
        None => match FsProber::Extfs.spec_classify(superblock) {
            Some(found) => found,
            None => match FsProber::Initrdfs.spec_classify(header) {
                Some(found) => found,
                None => FileSystemType::Unknown,
            },
        },
    }
}

/// The partitions that the header `header` of a GUID partition table leads to on an image.
pub open spec fn image_table(
    image: spec_fn(usize) -> Seq<u8>,
    block_size: usize,
    header: Seq<u8>,
) -> Option<Seq<PartitionRange>> {
    match gpt::entry_table(header, block_size) {
        None => None,
        Some(table) => gpt::table_found(
            table,
            coherence::image_span(image, block_size, table.lba, 0, table.span as int),
        ),
    }
}

/// The partitions of an image: those of its GUID partition table, else those of its master boot
/// record, else none.
#[verifier::opaque]
pub open spec fn image_parts(
    image: spec_fn(usize) -> Seq<u8>,
    block_size: usize,
) -> Seq<PartitionRange> {
    let by_guid = match gpt::header_place(image(0), block_size) {
        HeaderPlace::Nowhere => None,
        HeaderPlace::FirstBlock => image_table(image, block_size, image(0).subrange(512, 1024)),
        HeaderPlace::SecondBlock => image_table(
            image,
            block_size,
            coherence::image_span(image, block_size, 1, 0, 512),
        ),
    };
    match by_guid {
        Some(parts) => parts,
        None => match mbr::mbr_found(image(0)) {
            Some(parts) => parts,
            None => Seq::empty(),
        },
    }
}

/// Spans of an image that were read are spans of the image.
proof fn lemma_spans_of_the_image(
    dev: DeviceAnswers,
    image: spec_fn(usize) -> Seq<u8>,
    hw_id: usize,
    block_size: usize,
    spans: Seq<SpanMade>,
    before: Store,
    after: Store,
)
    requires
        reader::gives_blocks(dev),
        coherence::is_image(dev, hw_id, block_size, image),
        before.can_serve(block_size),
        coherence::coherent(dev, hw_id, block_size, before),
        spans_done(dev, hw_id, block_size, spans, before, after),
    ensures
        coherence::coherent(dev, hw_id, block_size, after),
        after.can_serve(block_size),
        after.same_layout(before),
        forall|i: int|
            0 <= i < spans.len() ==> (#[trigger] spans[i]).bytes == Some(
                coherence::image_span(
                    image,
                    block_size,
                    spans[i].first_lba,
                    spans[i].offset as int,
                    spans[i].len as int,
                ),
            ),
    decreases spans.len(),
{
    if spans.len() > 0 {
        let last = spans.last();
        let (between, out) = choose|between: Store, out: Result<Seq<u8>, Error>| #[trigger]
            reader::span_read(
                dev,
                hw_id,
                block_size,
                last.first_lba,
                last.offset as int,
                last.len as int,
                between,
                after,
                out,
            ) && last.bytes == reader::got(out) && spans_done(
                dev,
                hw_id,
                block_size,
                spans.drop_last(),
                before,
                between,
            );
        lemma_spans_of_the_image(
            dev,
            image,
            hw_id,
            block_size,
            spans.drop_last(),
            before,
            between,
        );
        coherence::law_span_reads_the_image(
            dev,
            image,
            hw_id,
            block_size,
            last.first_lba,
            last.offset as int,
            last.len as int,
            between,
            after,
            out,
        );
        assert forall|i: int| 0 <= i < spans.len() implies (#[trigger] spans[i]).bytes == Some(
            coherence::image_span(
                image,
                block_size,
                spans[i].first_lba,
                spans[i].offset as int,
                spans[i].len as int,
            ),
        ) by {
            if i < spans.len() - 1 {
                assert(spans.drop_last()[i] == spans[i]);
            }
        }
    }
}

/// On a device that never fails and does not change, the file system that is found through the
/// cache is the one that the device holds.
pub proof fn law_sniff_finds_what_is_there(
    dev: DeviceAnswers,
    image: spec_fn(usize) -> Seq<u8>,
    hw_id: usize,
    block_size: usize,
    first_lba: usize,
    before: Store,
    after: Store,
    found: FileSystemType,
)
    requires
        coherence::mirrors(dev, image, hw_id, block_size, before),
        sniffed(dev, hw_id, block_size, first_lba, before, after, found),
    ensures
        found == image_fs(image, block_size, first_lba),
        coherence::mirrors(dev, image, hw_id, block_size, after),
{
    reveal(coherence::mirrors);
    reveal(image_fs);
    let windows = choose|windows: Seq<Option<Seq<u8>>>| #[trigger]
        fs::fs_run(windows, found) && spans_done(
            dev,
            hw_id,
            block_size,
            fs_spans(first_lba, windows),
            before,
            after,
        );
    let spans = fs_spans(first_lba, windows);
    lemma_spans_of_the_image(dev, image, hw_id, block_size, spans, before, after);
    assert(spans[0].bytes == windows[0]);
    if windows.len() > 1 {
        assert(spans[1].bytes == windows[1]);
        assert(FsProber::spec_registered(0).verdict(windows[0]) is None);
    }
    if windows.len() > 2 {
        assert(spans[2].bytes == windows[2]);
        assert(FsProber::spec_registered(1).verdict(windows[1]) is None);
    }
}

/// On a device that never fails and does not change, the partitions that are found through the
/// cache are those that the device holds.
pub proof fn law_scan_finds_what_is_there(
    dev: DeviceAnswers,
    image: spec_fn(usize) -> Seq<u8>,
    hw_id: usize,
    block_size: usize,
    before: Store,
    after: Store,
    found: Seq<PartitionRange>,
)
    requires
        coherence::mirrors(dev, image, hw_id, block_size, before),
        scanned(dev, hw_id, block_size, image(0), before, after, found),
    ensures
        found == image_parts(image, block_size),
        coherence::mirrors(dev, image, hw_id, block_size, after),
{
    reveal(coherence::mirrors);
    reveal(image_parts);
    let reads = choose|reads: Seq<ReadMade>| #[trigger]
        part::parts_run(image(0), block_size, reads, found) && spans_done(
            dev,
            hw_id,
            block_size,
            part_spans(reads),
            before,
            after,
        );
    let spans = part_spans(reads);
    lemma_spans_of_the_image(dev, image, hw_id, block_size, spans, before, after);
    assert forall|i: int| 0 <= i < reads.len() implies (#[trigger] reads[i]).bytes == Some(
        coherence::image_span(image, block_size, reads[i].at, 0, reads[i].len as int),
    ) by {
        assert(spans[i].bytes == reads[i].bytes);
    }
    if reads.len() > 1 {
        assert(reads.skip(1)[0] == reads[1]);
    }
}

/// A scan finds no more partitions than a table in memory, or a master boot record, can list.
pub proof fn lemma_scan_bounded(
    dev: DeviceAnswers,
    hw_id: usize,
    block_size: usize,
    sector0: Seq<u8>,
    before: Store,
    after: Store,
    found: Seq<PartitionRange>,
)
    requires
        block_size > 0,
        scanned(dev, hw_id, block_size, sector0, before, after, found),
    ensures
        found.len() <= isize::MAX / 128 + 4,
{
    let reads = choose|reads: Seq<ReadMade>| #[trigger]
        part::parts_run(sector0, block_size, reads, found) && spans_done(
            dev,
            hw_id,
            block_size,
            part_spans(reads),
            before,
            after,
        );
    let by_guid = choose|by_guid: Option<Seq<PartitionRange>>| #[trigger]
        gpt::gpt_run(sector0, block_size, reads, by_guid) && found == (match by_guid {
            Some(parts) => parts,
            None => match mbr::mbr_found(sector0) {
                Some(parts) => parts,
                None => Seq::empty(),
            },
        });
    gpt::lemma_gpt_found_bounded(sector0, block_size, reads, by_guid);
    mbr::lemma_mbr_bounded(sector0);
}

/// Whether `bytes` lie on an image, from the start of block `first_lba` on.
pub open spec fn lies_at(
    image: spec_fn(usize) -> Seq<u8>,
    block_size: usize,
    first_lba: int,
    bytes: Seq<u8>,
) -> bool {
    forall|k: int|
        0 <= k < bytes.len() ==> #[trigger] bytes[k] == image(
            (first_lba + k / block_size as int) as usize,
        )[k % block_size as int]
}

/// A span of an image is what lies there.
proof fn lemma_span_lies(
    image: spec_fn(usize) -> Seq<u8>,
    block_size: usize,
    first_lba: usize,
    bytes: Seq<u8>,
    offset: int,
    len: int,
)
    requires
        block_size > 0,
        lies_at(image, block_size, first_lba as int, bytes),
        0 <= offset,
        0 <= len,
        offset + len <= bytes.len(),
        first_lba + bytes.len() <= usize::MAX,
    ensures
        coherence::image_span(image, block_size, first_lba, offset, len) == bytes.subrange(
            offset,
            offset + len,
        ),
{
    let span = coherence::image_span(image, block_size, first_lba, offset, len);
    assert forall|k: int| 0 <= k < len implies #[trigger] span[k] == bytes[offset + k] by {
        let at = offset + k;
        let q = at / block_size as int;
        let j = at % block_size as int;
        vstd::arithmetic::div_mod::lemma_fundamental_div_mod(at, block_size as int);
        assert(0 <= q <= at) by (nonlinear_arith)
            requires
                at == block_size * q + j,
                0 <= j < block_size,
                at >= 0,
        ;
        let lba = (first_lba + q) as usize;
        assert(lba * block_size + j == first_lba * block_size + at) by (nonlinear_arith)
            requires
                lba == first_lba + q,
                at == block_size * q + j,
        ;
        coherence::law_span_lies_where_it_says(
            image,
            block_size,
            first_lba,
            offset,
            len,
            k,
            lba,
            j,
        );
    }
    assert(span =~= bytes.subrange(offset, offset + len));
}

/// The file system of a partition is told by its own first bytes, `bytes`, wherever it lies on the
/// disk and whatever the size of the disk's blocks: FAT and exFAT by the boot sector, else ext by
/// the superblock, from byte 1024 on, else the initial RAM disk.
pub proof fn law_partition_is_told_by_its_bytes(
    image: spec_fn(usize) -> Seq<u8>,
    block_size: usize,
    first_lba: usize,
    bytes: Seq<u8>,
)
    requires
        block_size > 0,
        bytes.len() == 2048,
        first_lba + 2048 <= usize::MAX,
        lies_at(image, block_size, first_lba as int, bytes),
    ensures
        image_fs(image, block_size, first_lba) == (match (
            fs::fatfs::boot_sector_fs(bytes.subrange(0, 512)),
            fs::extfs::superblock_fs(bytes.subrange(1024, 2048)),
            fs::initrdfs::header_fs(bytes.subrange(0, 4)),
        ) {
            (Some(found), _, _) => found,
            (None, Some(found), _) => found,
            (None, None, Some(found)) => found,
            (None, None, None) => FileSystemType::Unknown,
        }),
{
    reveal(image_fs);
    lemma_span_lies(image, block_size, first_lba, bytes, 0, 512);
    lemma_span_lies(image, block_size, first_lba, bytes, 1024, 1024);
    lemma_span_lies(image, block_size, first_lba, bytes, 0, 4);
}

/// A disk that starts with a protective boot record and, in the next half kilobyte, with a header,
/// has the partitions of the table that the header describes, which lies as `entries` on the disk.
/// `head` are its first 1024 bytes.
pub proof fn law_guid_disk_has_the_partitions_of_its_table(
    image: spec_fn(usize) -> Seq<u8>,
    block_size: usize,
    head: Seq<u8>,
    table: gpt::EntryTable,
    entries: Seq<u8>,
    parts: Seq<PartitionRange>,
)
    requires
        block_size == 512 || block_size >= 1024,
        image(0).len() == block_size,
        head.len() == 1024,
        lies_at(image, block_size, 0, head),
        head[510] == 0x55 && head[511] == 0xAA,
        head[450] == 0xEE || head[466] == 0xEE || head[482] == 0xEE || head[498] == 0xEE,
        gpt::entry_table(head.subrange(512, 1024), block_size) == Some(table),
        entries.len() == table.span,
        table.lba + table.span <= usize::MAX,
        lies_at(image, block_size, table.lba as int, entries),
        gpt::table_found(table, entries) == Some(parts),
    ensures
        image_parts(image, block_size) == parts,
{
    reveal(image_parts);
    let sector0 = image(0);
    assert(forall|k: int| 0 <= k < 512 ==> #[trigger] head[k] == sector0[k]) by {
        assert forall|k: int| 0 <= k < 512 implies #[trigger] head[k] == sector0[k] by {
            vstd::arithmetic::div_mod::lemma_small_mod(k as nat, block_size as nat);
            vstd::arithmetic::div_mod::lemma_basic_div(k, block_size as int);
        }
    }
    assert(head[510] == sector0[510] && head[511] == sector0[511]);
    assert(head[450] == sector0[450] && head[466] == sector0[466]);
    assert(head[482] == sector0[482] && head[498] == sector0[498]);
    gpt::law_header_follows_the_record(sector0, block_size);
    let header = head.subrange(512, 1024);
    if block_size == 512 {
        lemma_span_lies(image, block_size, 0, head, 512, 512);
        let second = coherence::image_span(image, block_size, 1, 0, 512);
        assert(second =~= coherence::image_span(image, block_size, 0, 512, 512)) by {
            assert forall|k: int| 0 <= k < 512 implies #[trigger] second[k]
                == coherence::image_span(image, block_size, 0, 512, 512)[k] by {
                coherence::law_span_lies_where_it_says(image, block_size, 1, 0, 512, k, 1, k);
                coherence::law_span_lies_where_it_says(image, block_size, 0, 512, 512, k, 1, k);
            }
        }
        assert(second == header);
    } else {
        assert forall|k: int| 512 <= k < 1024 implies #[trigger] head[k] == sector0[k] by {
            vstd::arithmetic::div_mod::lemma_small_mod(k as nat, block_size as nat);
            vstd::arithmetic::div_mod::lemma_basic_div(k, block_size as int);
        }
        assert(sector0.subrange(512, 1024) =~= header);
    }
    lemma_span_lies(image, block_size, table.lba, entries, 0, table.span as int);
    assert(entries.subrange(0, table.span as int) =~= entries);
}

/// A disk without a protective boot record has the partitions of its boot record, or none.
pub proof fn law_other_disk_has_the_partitions_of_its_record(
    image: spec_fn(usize) -> Seq<u8>,
    block_size: usize,
)
    requires
        image(0).len() == block_size,
        block_size >= 512,
        image(0)[450] != 0xEE && image(0)[466] != 0xEE,
        image(0)[482] != 0xEE && image(0)[498] != 0xEE,
    ensures
        image_parts(image, block_size) == (match mbr::mbr_found(image(0)) {
            Some(parts) => parts,
            None => Seq::empty(),
        }),
{
    reveal(image_parts);
    gpt::law_header_follows_the_record(image(0), block_size);
}

} // verus!
