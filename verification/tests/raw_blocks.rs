use fossil::error::Error;
use fossil::fossil::buffer::IoUringSqe;
use fossil::manager::{
    gpt_table_fits, FossilManager, LogicDeviceDesc, LogicDeviceType, PartitionMetadata,
    PartitionProxy,
};
use fossil::server::{FossilServer, Protocol, Request};

fn desc(name: &str, dev_type: LogicDeviceType) -> LogicDeviceDesc {
    LogicDeviceDesc {
        name: String::from(name),
        dev_type,
        parent_name: String::from("bus"),
        badge: Some(4),
    }
}

fn read(disk: &[u8], lba: u64) -> Result<Vec<u8>, Error> {
    let at = lba as usize * 512;
    if at + 512 <= disk.len() {
        Ok(disk[at..at + 512].to_vec())
    } else {
        Err(Error::DeviceError)
    }
}

fn list(disk: &[u8]) -> Vec<(String, LogicDeviceType, u64)> {
    let parent = desc("sd", LogicDeviceType::RawBlock(1 << 20));
    let mut m = FossilManager::new(0);
    let found = m.probe(0, &parent, &disk[..512], 2048, &mut |lba| read(disk, lba));
    for (d, _) in &found {
        assert_eq!((d.parent_name.as_str(), d.badge), ("bus", Some(4)));
    }
    found.into_iter().map(|(d, lba)| (d.name, d.dev_type, lba)).collect()
}

fn part(name: &str, blocks: u64, lba: u64) -> (String, LogicDeviceType, u64) {
    (String::from(name), LogicDeviceType::Block(blocks), lba)
}

fn gpt_disk(num: u32) -> Vec<u8> {
    let mut d = vec![0u8; 512 * 64];
    d[446 + 4] = 0xEE;
    d[510] = 0x55;
    d[511] = 0xAA;
    d[512..520].copy_from_slice(b"EFI PART");
    d[512 + 72] = 2;
    d[512 + 80..512 + 84].copy_from_slice(&num.to_le_bytes());
    d[512 + 84] = 128;
    for (i, first, last) in [(0usize, 40u8, 49u8), (5, 50, 50)] {
        let at = 1024 + 128 * i;
        d[at] = 1;
        d[at + 32] = first;
        d[at + 40] = last;
    }
    d
}

#[test]
fn archive_is_one_partition() {
    let mut d = vec![0u8; 512];
    d[..6].copy_from_slice(b"070701");
    assert_eq!(list(&d), vec![part("initrd", 2048, 0)]);
}

#[test]
fn boot_record_entries_are_listed_by_number() {
    let mut d = vec![0u8; 512];
    d[510] = 0x55;
    d[511] = 0xAA;
    d[446 + 16 + 4] = 0x83;
    d[446 + 16 + 8] = 63;
    d[446 + 16 + 12] = 200;
    d[446 + 48 + 4] = 0x83;
    assert_eq!(list(&d), vec![part("p2", 200, 63), part("p4", 0, 0)]);
}

#[test]
fn guid_entries_are_listed_by_number() {
    assert_eq!(list(&gpt_disk(8)), vec![part("p1", 10, 40), part("p6", 1, 50)]);
    assert_eq!(list(&gpt_disk(3)), vec![part("p1", 10, 40)]);
}

#[test]
fn sectors_that_cannot_be_read_leave_no_gap() {
    let d = gpt_disk(8);
    let parent = desc("sd", LogicDeviceType::RawBlock(0));
    let mut m = FossilManager::new(0);
    let found = m.probe(0, &parent, &d[..512], 0, &mut |lba| {
        if lba == 2 {
            Err(Error::DeviceError)
        } else {
            read(&d, lba)
        }
    });
    // The second sector of entries moves up: entry 6 becomes entry 2.
    assert_eq!(found.len(), 1);
    assert_eq!(found[0].0.name, "p2");
    assert_eq!(found[0].1, 50);
}

#[test]
fn guid_entry_that_ends_before_it_starts_wraps() {
    let mut d = gpt_disk(1);
    d[1024 + 40] = 30;
    assert_eq!(list(&d), vec![part("p1", u64::MAX - 8, 40)]);
}

#[test]
fn other_disks_have_no_partitions() {
    assert_eq!(list(&vec![0u8; 512]), vec![]);
    let mut d = gpt_disk(8);
    d[512] = 0;
    assert_eq!(list(&d), vec![]);
    assert_eq!(list(&gpt_disk(8)[..512]), vec![]);
}

#[test]
fn tables_of_16384_bytes_fit() {
    assert!(gpt_table_fits(&gpt_disk(128)[512..1024]));
    assert!(!gpt_table_fits(&gpt_disk(129)[512..1024]));
    assert!(gpt_table_fits(&[0u8; 512]));
}

#[test]
fn partitions_are_registered_by_badge() {
    let mut m = FossilManager::new(0);
    let meta = PartitionMetadata { parent: 1, start_lba: 10, num_blocks: 5, block_size: 512 };
    let proxy = PartitionProxy::new(meta, 3, String::from("x"));
    assert!(m.get_partition(8).is_none());
    m.register_proxy(8, proxy);
    assert_eq!(m.get_partition(8), Some(&proxy));
    let mut sqe = IoUringSqe { opcode: 0, addr: 0, len: 1, off: 7, user_data: 2 };
    proxy.translate_sqe(&mut sqe);
    assert_eq!((sqe.off, sqe.len, sqe.user_data), (5127, 1, 2));
}

fn server() -> FossilServer {
    FossilServer::new(5, FossilManager::new(0), 4096)
}

fn probe(s: &mut FossilServer, hw: u64, disk: &[u8], published: &mut Vec<(String, usize)>) -> Result<(), Error> {
    let d = desc("sd", LogicDeviceType::RawBlock(64 * 512));
    s.probe_device(
        hw,
        &d,
        &mut || Ok(()),
        &mut |_| Ok(()),
        &mut |lba| read(disk, lba),
        &mut |d: LogicDeviceDesc, badge| {
            assert_eq!(d.badge, Some(badge as u64));
            published.push((d.name, badge));
            Ok(())
        },
    )
}

#[test]
fn disk_is_probed_and_published_once() {
    let mut s = server();
    assert_eq!(s.next_ring_vaddr, 0x5000_0000 + 4096 * 64);
    let mut published = Vec::new();
    assert_eq!(probe(&mut s, 9, &gpt_disk(8), &mut published), Ok(()));
    assert_eq!(published, vec![(String::from("p1"), 0x1000), (String::from("p6"), 0x1001)]);
    assert_eq!(s.next_ring_vaddr, 0x5000_0000 + 4096 * 65);
    let meta = s.manager.get_partition(0x1001).unwrap().meta;
    let expected = PartitionMetadata { parent: 9, start_lba: 50, num_blocks: 1, block_size: 512 };
    assert_eq!(meta, expected);
    assert_eq!(s.get_capacity(0x1000), Ok(10));
    assert_eq!(s.get_capacity(0x1002), Err(Error::NotFound));
    assert_eq!(probe(&mut s, 9, &gpt_disk(8), &mut published), Ok(()));
    assert_eq!(published.len(), 2);
}

#[test]
fn disk_without_partitions_is_published_whole() {
    let mut s = server();
    let mut published = Vec::new();
    assert_eq!(probe(&mut s, 9, &vec![0u8; 512], &mut published), Ok(()));
    assert_eq!(published, vec![(String::from("sd"), 0x1000)]);
    assert_eq!(s.get_capacity(0x1000), Ok(64));
}

#[test]
fn probing_stops_at_the_first_failure() {
    let d = desc("sd", LogicDeviceType::RawBlock(512));
    let disk = gpt_disk(8);
    let mut s = server();
    let r = s.probe_device(
        1,
        &d,
        &mut || Err(Error::Other(1)),
        &mut |_| Ok(()),
        &mut |_| Err(Error::DeviceError),
        &mut |_, _| Ok(()),
    );
    assert_eq!(r, Err(Error::Other(1)));
    assert_eq!(s.next_ring_vaddr, 0x5000_0000 + 4096 * 64);
    let r = s.probe_device(
        2,
        &d,
        &mut || Ok(()),
        &mut |vaddr| if vaddr == 0x5004_0000 { Err(Error::Other(2)) } else { Ok(()) },
        &mut |_| Err(Error::DeviceError),
        &mut |_, _| Ok(()),
    );
    assert_eq!(r, Err(Error::Other(2)));
    let r = s.probe_device(
        3,
        &d,
        &mut || Ok(()),
        &mut |_| Ok(()),
        &mut |_| Err(Error::DeviceError),
        &mut |_, _| Ok(()),
    );
    assert_eq!(r, Err(Error::DeviceError));
    let r = s.probe_device(
        4,
        &d,
        &mut || Ok(()),
        &mut |_| Ok(()),
        &mut |lba| read(&disk, lba),
        &mut |_, badge| if badge == 0x1001 { Err(Error::Other(3)) } else { Ok(()) },
    );
    assert_eq!(r, Err(Error::Other(3)));
    assert!(s.manager.get_partition(0x1000).is_some());
    assert!(s.manager.get_partition(0x1001).is_none());
    assert!(s.device_clients.is_empty());
    assert_eq!(s.next_partition_badge, 0x1002);
}

#[test]
fn devices_that_are_no_disks_are_only_noted() {
    let mut s = server();
    let d = desc("x", LogicDeviceType::Other);
    let r = s.probe_device(
        1,
        &d,
        &mut || Err(Error::Other(1)),
        &mut |_| Ok(()),
        &mut |_| Err(Error::DeviceError),
        &mut |_, _| Ok(()),
    );
    assert_eq!(r, Ok(()));
    assert!(s.probed_hardware.contains(&1));
    assert_eq!(FossilServer::handle_update(LogicDeviceType::Other, false), Ok(false));
    assert_eq!(FossilServer::handle_update(LogicDeviceType::RawBlock(1), true), Ok(true));
    assert_eq!(
        FossilServer::handle_update(LogicDeviceType::RawBlock(1), false),
        Err(Error::InvalidArgs)
    );
}

#[test]
fn block_rings_are_set_up_and_used() {
    let mut s = server();
    let mut published = Vec::new();
    probe(&mut s, 9, &gpt_disk(8), &mut published).unwrap();
    let sqe = IoUringSqe { opcode: 0, addr: 0, len: 512, off: 1024, user_data: 2 };
    assert_eq!(s.handle_notify_sq(0x1000, sqe), Err(Error::NotInitialized));
    let mut at = Vec::new();
    let r = s.handle_setup_ring(0x1000, &mut || Ok(6), &mut |frame, vaddr| {
        at.push((frame, vaddr));
        Ok(())
    });
    assert_eq!(r, Ok(6));
    assert_eq!(at, vec![(6, 0x5000_0000 + 4096 * 65)]);
    assert_eq!(
        s.handle_setup_ring(0x1000, &mut || Ok(6), &mut |_, _| Ok(())),
        Err(Error::AlreadyExists)
    );
    let out = s.handle_notify_sq(0x1000, sqe).unwrap();
    assert_eq!(out, IoUringSqe { off: 1024 + 40 * 512, ..sqe });
    s.client_rings.insert(1);
    assert_eq!(s.handle_notify_sq(1, sqe), Err(Error::NotFound));
    s.device_clients.insert(9, false);
    assert_eq!(s.sq_partition(0x1000), Err(Error::NotInitialized));
    s.device_clients.remove(&9);
    assert_eq!(s.sq_partition(0x1000), Err(Error::NotFound));
}

#[test]
fn block_ring_that_cannot_be_made_is_not_there() {
    let mut s = server();
    let first = s.next_ring_vaddr;
    assert_eq!(
        s.handle_setup_ring(1, &mut || Err(Error::OutOfMemory), &mut |_, _| Ok(())),
        Err(Error::OutOfMemory)
    );
    assert_eq!(s.next_ring_vaddr, first);
    assert_eq!(
        s.handle_setup_ring(1, &mut || Ok(2), &mut |_, _| Err(Error::Other(8))),
        Err(Error::Other(8))
    );
    assert_eq!(s.next_ring_vaddr, first + 4096);
    assert!(!s.client_rings.contains(&1));
}

#[test]
fn block_messages_are_told_apart() {
    let p = Protocol {
        device: 1,
        update: 2,
        block: 3,
        get_capacity: 4,
        setup_ring: 5,
        notify_sq: 6,
    };
    assert_eq!(FossilServer::dispatch(&p, 1, 2), Ok(Request::Update));
    assert_eq!(FossilServer::dispatch(&p, 3, 4), Ok(Request::GetCapacity));
    assert_eq!(FossilServer::dispatch(&p, 3, 5), Ok(Request::SetupRing));
    assert_eq!(FossilServer::dispatch(&p, 3, 6), Ok(Request::NotifySq));
    assert_eq!(FossilServer::dispatch(&p, 3, 2), Err(Error::InvalidMethod));
    assert_eq!(FossilServer::dispatch(&p, 9, 9), Err(Error::InvalidMethod));
}

#[test]
fn block_server_listens_starts_and_stops() {
    let mut s = server();
    s.listen(2, 3, 4);
    assert_eq!((s.endpoint, s.reply, s.recv), (2, 3, 4));
    s.start();
    assert!(s.running);
    s.stop();
    assert!(!s.running);
}

#[test]
fn ordinary_disks_are_not_searched_for_a_table() {
    let mut m = FossilManager::new(1);
    let mut never = |_: u64| -> Result<Vec<u8>, Error> { panic!("a sector was read") };
    let mut d = vec![0u8; 512];
    d[..6].copy_from_slice(b"070701");
    assert_eq!(m.probe(0, &desc("sd", LogicDeviceType::Other), &d, 5, &mut never).len(), 1);
    let mut d = vec![0u8; 512];
    d[450] = 0x83;
    d[510] = 0x55;
    d[511] = 0xAA;
    assert_eq!(m.probe(0, &desc("sd", LogicDeviceType::Other), &d, 5, &mut never).len(), 1);
}
