use fossil::error::Error;
use fossil::probe::fs::extfs::probe_extfs;
use fossil::probe::fs::fatfs::probe_fat_exfat;
use fossil::probe::fs::initrdfs::probe_initrdfs;
use fossil::probe::fs::{detect_fs_registered, FileSystemType, FsProber};

fn put16(disk: &mut Vec<u8>, at: usize, x: u16) {
    disk[at..at + 2].copy_from_slice(&x.to_le_bytes());
}

fn put32(disk: &mut Vec<u8>, at: usize, x: u32) {
    disk[at..at + 4].copy_from_slice(&x.to_le_bytes());
}

fn read(disk: &[u8], at: usize, len: usize) -> Result<Vec<u8>, Error> {
    if at + len <= disk.len() {
        Ok(disk[at..at + len].to_vec())
    } else {
        Err(Error::DeviceError)
    }
}

fn detect(disk: &[u8]) -> FileSystemType {
    detect_fs_registered(|at, len| read(disk, at, len))
}

fn blank() -> Vec<u8> {
    vec![0u8; 4096]
}

/// A FAT volume with one sector per cluster whose data area has `clusters` sectors.
fn fat(clusters: u32) -> Vec<u8> {
    let mut d = blank();
    d[510] = 0x55;
    d[511] = 0xAA;
    put16(&mut d, 11, 512);
    d[13] = 1;
    put16(&mut d, 14, 1);
    d[16] = 2;
    put16(&mut d, 17, 512);
    put16(&mut d, 22, 10);
    // 1 reserved sector, 2 * 10 sectors of FAT, 32 sectors of root directory.
    put32(&mut d, 32, clusters + 1 + 20 + 32);
    d
}

#[test]
fn blank_disk_is_unknown() {
    assert_eq!(detect(&blank()), FileSystemType::Unknown);
}

#[test]
fn exfat_is_named_in_the_boot_sector() {
    let mut d = blank();
    d[3..11].copy_from_slice(b"EXFAT   ");
    assert_eq!(detect(&d), FileSystemType::ExFat);
    assert_eq!(
        probe_fat_exfat(&mut |at, len| read(&d, at, len)),
        Some(FileSystemType::ExFat)
    );
}

#[test]
fn fat_types_follow_the_cluster_count() {
    assert_eq!(detect(&fat(4084)), FileSystemType::Unknown);
    assert_eq!(detect(&fat(4085)), FileSystemType::Fat16);
    assert_eq!(detect(&fat(65524)), FileSystemType::Fat16);
    assert_eq!(detect(&fat(65525)), FileSystemType::Fat32);
}

#[test]
fn fat_without_boot_signature_is_no_match() {
    let mut d = fat(5000);
    d[511] = 0;
    assert_eq!(detect(&d), FileSystemType::Unknown);
}

#[test]
fn fat_with_cluster_size_zero_is_no_match() {
    let mut d = fat(70000);
    d[13] = 0;
    assert_eq!(detect(&d), FileSystemType::Unknown);
}

#[test]
fn fat_counts_by_the_16_bit_fields_first() {
    let mut d = fat(70000);
    put16(&mut d, 19, 4085 + 53);
    assert_eq!(detect(&d), FileSystemType::Fat16);
    let mut e = fat(70000);
    put16(&mut e, 22, 0);
    put32(&mut e, 36, 10);
    assert_eq!(detect(&e), FileSystemType::Fat32);
}

#[test]
fn fat_sector_size_zero_counts_as_512() {
    let mut d = fat(4085);
    put16(&mut d, 11, 0);
    assert_eq!(detect(&d), FileSystemType::Fat16);
}

#[test]
fn ext_types_follow_the_features() {
    let mut d = blank();
    put16(&mut d, 1024 + 0x38, 0xEF53);
    assert_eq!(detect(&d), FileSystemType::Ext2);
    put32(&mut d, 1024 + 0x5C, 0x0004);
    assert_eq!(detect(&d), FileSystemType::Ext3);
    put32(&mut d, 1024 + 0x60, 0x0040);
    assert_eq!(detect(&d), FileSystemType::Ext4);
    assert_eq!(
        probe_extfs(&mut |at, len| read(&d, at, len)),
        Some(FileSystemType::Ext4)
    );
}

#[test]
fn initrd_is_known_by_its_magic() {
    let mut d = blank();
    put32(&mut d, 0, 0x9999_9999);
    assert_eq!(detect(&d), FileSystemType::InitrdFS);
    assert_eq!(
        probe_initrdfs(&mut |at, len| read(&d, at, len)),
        Some(FileSystemType::InitrdFS)
    );
    put32(&mut d, 0, 0x9999_9998);
    assert_eq!(probe_initrdfs(&mut |at, len| read(&d, at, len)), None);
}

#[test]
fn first_registered_match_counts_and_ends_the_search() {
    let mut d = fat(5000);
    put16(&mut d, 1024 + 0x38, 0xEF53);
    let mut asked: Vec<(usize, usize)> = Vec::new();
    let found = detect_fs_registered(|at, len| {
        asked.push((at, len));
        read(&d, at, len)
    });
    assert_eq!(found, FileSystemType::Fat16);
    assert_eq!(asked, vec![(0, 512)]);
}

#[test]
fn failed_reads_are_no_match_and_the_next_prober_is_tried() {
    let mut asked: Vec<(usize, usize)> = Vec::new();
    let found = detect_fs_registered(|at, len| {
        asked.push((at, len));
        if len == 4 {
            Ok(vec![0x99, 0x99, 0x99, 0x99])
        } else {
            Err(Error::DeviceError)
        }
    });
    assert_eq!(found, FileSystemType::InitrdFS);
    assert_eq!(asked, vec![(0, 512), (1024, 1024), (0, 4)]);
}

#[test]
fn registered_probers_have_their_names() {
    assert_eq!(FsProber::registered(0).name(), "fatfs/exfat");
    assert_eq!(FsProber::registered(1).name(), "extfs");
    assert_eq!(FsProber::registered(2).name(), "initrdfs");
}
