use fossil::error::Error;
use fossil::fossil::buffer::BufferCache;
use fossil::fossil::reader::{read_block, read_span};
use fossil::fossil::scan::{scan_partitions, sniff_fs};
use fossil::probe::fs::FileSystemType;
use fossil::probe::part::PartitionRange;
use std::cell::RefCell;

const BASE: usize = 0x10000;

fn image(blocks: usize, block_size: usize) -> Vec<u8> {
    (0..blocks * block_size).map(|k| (k / block_size * 7 + k % block_size) as u8).collect()
}

fn read(disk: &[u8], lba: usize, block_size: usize) -> Result<Vec<u8>, Error> {
    let at = lba * block_size;
    if at + block_size <= disk.len() {
        Ok(disk[at..at + block_size].to_vec())
    } else {
        Err(Error::DeviceError)
    }
}

#[test]
fn block_is_read_once_and_then_from_the_cache() {
    let disk = image(32, 512);
    let asked: RefCell<Vec<usize>> = RefCell::new(Vec::new());
    let dev = |_hw: usize, lba: usize, bs: usize| {
        asked.borrow_mut().push(lba);
        read(&disk, lba, bs)
    };
    let mut cache = BufferCache::new(BASE, 2 * 4096, 4096);
    let mut arena = vec![0u8; 2 * 4096];
    let got = read_block(&mut cache, &mut arena, &dev, 1, 512, 11, 512).unwrap();
    assert_eq!(got, &disk[11 * 512..12 * 512]);
    assert_eq!(*asked.borrow(), vec![8, 9, 10, 11, 12, 13, 14, 15]);
    let got = read_block(&mut cache, &mut arena, &dev, 1, 512, 8, 100).unwrap();
    assert_eq!(got, &disk[8 * 512..8 * 512 + 100]);
    assert_eq!(asked.borrow().len(), 8);
    let s = cache.ledger_snapshot();
    assert_eq!((s.hits, s.misses, s.valid_blocks), (1, 1, 1));
}

#[test]
fn read_asks_for_no_more_than_a_block() {
    let disk = image(32, 512);
    let dev = |_hw: usize, lba: usize, bs: usize| read(&disk, lba, bs);
    let mut cache = BufferCache::new(BASE, 4096, 4096);
    let mut arena = vec![0u8; 4096];
    let got = read_block(&mut cache, &mut arena, &dev, 1, 512, 3, 9999).unwrap();
    assert_eq!(got, &disk[3 * 512..4 * 512]);
}

#[test]
fn devices_do_not_see_each_other() {
    let one = image(32, 512);
    let two = vec![0x5Au8; 32 * 512];
    let dev = |hw: usize, lba: usize, bs: usize| read(if hw == 1 { &one } else { &two }, lba, bs);
    let mut cache = BufferCache::new(BASE, 2 * 4096, 4096);
    let mut arena = vec![0u8; 2 * 4096];
    for lba in 0..32 {
        let a = read_block(&mut cache, &mut arena, &dev, 1, 512, lba, 512).unwrap();
        let b = read_block(&mut cache, &mut arena, &dev, 2, 512, lba, 512).unwrap();
        assert_eq!(a, &one[lba * 512..lba * 512 + 512]);
        assert_eq!(b, vec![0x5Au8; 512]);
    }
}

#[test]
fn failed_fill_fails_the_read_and_leaves_the_block_assigned() {
    let dev = |_hw: usize, lba: usize, bs: usize| {
        if lba == 2 {
            Err(Error::Other(9))
        } else {
            Ok(vec![lba as u8; bs])
        }
    };
    let mut cache = BufferCache::new(BASE, 4096, 4096);
    let mut arena = vec![0u8; 4096];
    let r = read_block(&mut cache, &mut arena, &dev, 1, 512, 0, 512);
    assert_eq!(r, Err(Error::Other(9)));
    assert_eq!(cache.ledger_snapshot().valid_blocks, 0);
    assert_eq!(cache.ledger_snapshot().lookup_entries, 1);
    let again = read_block(&mut cache, &mut arena, &dev, 1, 512, 1, 512).unwrap();
    assert_eq!(again, vec![1u8; 512]);
    assert_eq!(cache.ledger_snapshot().hits, 1);
}

#[test]
fn spans_cross_blocks_and_evictions() {
    let disk = image(64, 512);
    let dev = |_hw: usize, lba: usize, bs: usize| read(&disk, lba, bs);
    let mut cache = BufferCache::new(BASE, 4096, 4096);
    let mut arena = vec![0u8; 4096];
    let got = read_span(&mut cache, &mut arena, &dev, 1, 512, 3, 700, 9000).unwrap();
    assert_eq!(got, &disk[3 * 512 + 700..3 * 512 + 9700]);
    let empty = read_span(&mut cache, &mut arena, &dev, 1, 512, 3, 700, 0).unwrap();
    assert_eq!(empty, vec![]);
    let beyond = read_span(&mut cache, &mut arena, &dev, 1, 512, 63, 0, 513);
    assert_eq!(beyond, Err(Error::DeviceError));
}

#[test]
fn blocks_as_large_as_cache_blocks_are_read_one_by_one() {
    let disk = image(8, 4096);
    let dev = |_hw: usize, lba: usize, bs: usize| read(&disk, lba, bs);
    let mut cache = BufferCache::new(BASE, 2 * 4096, 4096);
    let mut arena = vec![0u8; 2 * 4096];
    let got = read_span(&mut cache, &mut arena, &dev, 1, 4096, 2, 4090, 12).unwrap();
    assert_eq!(got, &disk[3 * 4096 - 6..3 * 4096 + 6]);
}

#[test]
fn file_systems_are_found_through_the_cache() {
    let mut disk = vec![0u8; 64 * 512];
    disk[10 * 512 + 1024 + 0x38] = 0x53;
    disk[10 * 512 + 1024 + 0x39] = 0xEF;
    let dev = |_hw: usize, lba: usize, bs: usize| read(&disk, lba, bs);
    let mut cache = BufferCache::new(BASE, 2 * 4096, 4096);
    let mut arena = vec![0u8; 2 * 4096];
    assert_eq!(sniff_fs(&mut cache, &mut arena, &dev, 1, 512, 10), FileSystemType::Ext2);
    assert_eq!(sniff_fs(&mut cache, &mut arena, &dev, 1, 512, 0), FileSystemType::Unknown);
    assert_eq!(sniff_fs(&mut cache, &mut arena, &dev, 1, 512, 1000), FileSystemType::Unknown);
}

#[test]
fn partitions_are_found_through_the_cache() {
    let mut disk = vec![0u8; 64 * 512];
    disk[446 + 4] = 0xEE;
    disk[510] = 0x55;
    disk[511] = 0xAA;
    disk[512..520].copy_from_slice(b"EFI PART");
    disk[512 + 72] = 20;
    disk[512 + 80] = 1;
    disk[512 + 84] = 128;
    disk[20 * 512] = 1;
    disk[20 * 512 + 32] = 30;
    disk[20 * 512 + 40] = 39;
    let dev = |_hw: usize, lba: usize, bs: usize| read(&disk, lba, bs);
    let mut cache = BufferCache::new(BASE, 4096, 4096);
    let mut arena = vec![0u8; 4096];
    let found = scan_partitions(&mut cache, &mut arena, &dev, 1, 512, &disk[..512]);
    assert_eq!(found, vec![PartitionRange { start_lba: 30, num_blocks: 10 }]);
}

#[test]
fn failed_read_spoils_no_other_window() {
    let disk = image(32, 512);
    let dev = |_hw: usize, lba: usize, bs: usize| {
        if lba == 10 {
            Err(Error::Other(9))
        } else {
            read(&disk, lba, bs)
        }
    };
    let mut cache = BufferCache::new(BASE, 3 * 4096, 4096);
    let mut arena = vec![0u8; 3 * 4096];
    read_block(&mut cache, &mut arena, &dev, 1, 512, 3, 512).unwrap();
    let failed = read_block(&mut cache, &mut arena, &dev, 1, 512, 12, 512);
    assert_eq!(failed, Err(Error::Other(9)));
    for lba in (0..8).chain(16..24) {
        let got = read_block(&mut cache, &mut arena, &dev, 1, 512, lba, 512).unwrap();
        assert_eq!(got, &disk[lba * 512..lba * 512 + 512]);
    }
}
