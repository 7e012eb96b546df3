use fossil::error::Error;
use fossil::probe::part::gpt::{find_entries, probe_gpt};
use fossil::probe::part::mbr::probe_mbr;
use fossil::probe::part::{
    detect_partitions_registered, PartProber, PartitionRange, ProbeContext,
};
use fossil::utils::gpt::{GPTHeader, GPTPartition};
use fossil::utils::mbr::MBR;

fn mbr_entry(disk: &mut [u8], i: usize, part_type: u8, start: u32, count: u32) {
    let at = 446 + 16 * i;
    disk[at + 4] = part_type;
    disk[at + 8..at + 12].copy_from_slice(&start.to_le_bytes());
    disk[at + 12..at + 16].copy_from_slice(&count.to_le_bytes());
    disk[510] = 0x55;
    disk[511] = 0xAA;
}

fn gpt_header(disk: &mut [u8], at: usize, entry_lba: u64, num: u32, size: u32) {
    disk[at..at + 8].copy_from_slice(b"EFI PART");
    disk[at + 72..at + 80].copy_from_slice(&entry_lba.to_le_bytes());
    disk[at + 80..at + 84].copy_from_slice(&num.to_le_bytes());
    disk[at + 84..at + 88].copy_from_slice(&size.to_le_bytes());
}

fn gpt_entry(disk: &mut [u8], at: usize, guid: u8, first: u64, last: u64) {
    disk[at] = guid;
    disk[at + 32..at + 40].copy_from_slice(&first.to_le_bytes());
    disk[at + 40..at + 48].copy_from_slice(&last.to_le_bytes());
}

fn read(disk: &[u8], block_size: usize, lba: usize, len: usize) -> Result<Vec<u8>, Error> {
    let at = lba * block_size;
    if at + len <= disk.len() {
        Ok(disk[at..at + len].to_vec())
    } else {
        Err(Error::DeviceError)
    }
}

fn detect(disk: &[u8], block_size: usize) -> Vec<PartitionRange> {
    detect_partitions_registered(&disk[..block_size], block_size, |lba, len| {
        read(disk, block_size, lba, len)
    })
}

fn range(start_lba: usize, num_blocks: usize) -> PartitionRange {
    PartitionRange { start_lba, num_blocks }
}

/// A disk of 512-byte blocks with a GUID partition table of four entries in block 2.
fn gpt_disk() -> Vec<u8> {
    let mut d = vec![0u8; 512 * 8];
    mbr_entry(&mut d, 0, 0xEE, 1, 7);
    gpt_header(&mut d, 512, 2, 4, 128);
    gpt_entry(&mut d, 1024, 7, 34, 133);
    gpt_entry(&mut d, 1024 + 128, 0, 200, 300);
    gpt_entry(&mut d, 1024 + 256, 9, 134, 134);
    gpt_entry(&mut d, 1024 + 384, 9, 150, 149);
    d
}

#[test]
fn disk_without_boot_signature_has_no_partitions() {
    assert_eq!(detect(&vec![0u8; 1024], 512), vec![]);
}

#[test]
fn mbr_lists_used_entries_of_some_length() {
    let mut d = vec![0u8; 512];
    mbr_entry(&mut d, 0, 0x83, 2048, 1000);
    mbr_entry(&mut d, 1, 0, 4096, 1000);
    mbr_entry(&mut d, 2, 0x0C, 8192, 0);
    mbr_entry(&mut d, 3, 0x0C, 9000, 77);
    assert_eq!(detect(&d, 512), vec![range(2048, 1000), range(9000, 77)]);
    let ctx = ProbeContext { sector0: &d, block_size: 512 };
    let found = probe_mbr(&ctx, &mut |_, _| Err(Error::DeviceError));
    assert_eq!(found, Some(vec![range(2048, 1000), range(9000, 77)]));
}

#[test]
fn mbr_without_partitions_is_no_match() {
    let mut d = vec![0u8; 512];
    mbr_entry(&mut d, 0, 0, 1, 1);
    let ctx = ProbeContext { sector0: &d, block_size: 512 };
    assert_eq!(probe_mbr(&ctx, &mut |_, _| Err(Error::DeviceError)), None);
}

#[test]
fn gpt_lists_usable_entries() {
    let d = gpt_disk();
    assert_eq!(detect(&d, 512), vec![range(34, 100), range(134, 1)]);
}

#[test]
fn gpt_asks_for_the_header_and_then_for_whole_blocks_of_entries() {
    let mut d = gpt_disk();
    gpt_header(&mut d, 512, 2, 5, 128);
    let mut asked: Vec<(usize, usize)> = Vec::new();
    let _ = detect_partitions_registered(&d[..512], 512, |lba, len| {
        asked.push((lba, len));
        read(&d, 512, lba, len)
    });
    assert_eq!(asked, vec![(1, 512), (2, 1024)]);
}

#[test]
fn gpt_header_of_large_blocks_is_in_the_first() {
    let mut d = vec![0u8; 4096 * 4];
    mbr_entry(&mut d, 1, 0xEE, 1, 7);
    gpt_header(&mut d, 512, 1, 2, 128);
    gpt_entry(&mut d, 4096 + 128, 1, 6, 9);
    assert_eq!(detect(&d, 4096), vec![range(6, 4)]);
}

#[test]
fn protective_record_without_table_has_no_partitions() {
    let mut d = gpt_disk();
    d[512] = b'X';
    assert_eq!(detect(&d, 512), vec![]);
    let ctx = ProbeContext { sector0: &d[..512], block_size: 512 };
    assert_eq!(probe_gpt(&ctx, &mut |_, _| Err(Error::DeviceError)), None);
    assert_eq!(probe_mbr(&ctx, &mut |_, _| Err(Error::DeviceError)), None);
}

#[test]
fn gpt_on_odd_block_sizes_is_no_match() {
    let d = gpt_disk();
    assert_eq!(detect_partitions_registered(&d[..520], 520, |_, _| Err(Error::DeviceError)), vec![]);
}

#[test]
fn gpt_tables_that_are_empty_or_too_large_are_no_match() {
    let mut h = vec![0u8; 512];
    gpt_header(&mut h, 0, 2, 0, 128);
    assert_eq!(find_entries(&h, 512), None);
    gpt_header(&mut h, 0, 2, u32::MAX, u32::MAX);
    assert_eq!(find_entries(&h, 512), None);
    gpt_header(&mut h, 0, 9, 3, 200);
    let table = find_entries(&h, 512).unwrap();
    assert_eq!((table.lba, table.entries_len, table.span), (9, 600, 1024));
}

#[test]
fn gpt_entry_over_all_blocks_wraps_to_none() {
    let mut d = gpt_disk();
    gpt_entry(&mut d, 1024, 1, 0, u64::MAX);
    assert_eq!(detect(&d, 512)[0], range(0, 0));
}

#[test]
fn gpt_entries_are_parsed_as_far_as_they_lie_in_the_data() {
    let d = gpt_disk();
    assert_eq!(GPTPartition::parse_entries(&d[1024..1024 + 300], 4, 128).len(), 2);
    assert_eq!(GPTPartition::parse_entries(&d[1024..], 4, 128).len(), 4);
    assert_eq!(GPTPartition::parse_entries(&d[1024..], 4, 64).len(), 0);
}

#[test]
fn tables_that_are_too_short_do_not_parse() {
    assert!(MBR::parse(&[0x55; 511]).is_none());
    assert!(GPTHeader::parse(&[0u8; 91]).is_none());
}

#[test]
fn registered_table_probers_have_their_names() {
    assert_eq!(PartProber::registered(0).name(), "gpt");
    assert_eq!(PartProber::registered(1).name(), "mbr");
}
