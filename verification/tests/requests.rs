use fossil::cap::SharedMemory;
use fossil::config::FSConfig;
use fossil::error::Error;
use fossil::fossil::buffer::IoUringSqe;
use fossil::fossil::proxy::{
    AcquiredShm, Completion, PartitionMetadata, PartitionProxy, SqRoute,
};
use fossil::fossil::server::{
    reply_action, Message, Protocol, ReplyAction, Request, VolumeInfo,
};
use fossil::fossil::sniffer::detect_fs;
use fossil::fossil::{BlockDevice, FossilServer};
use fossil::probe::fs::FileSystemType;

const TOP: usize = 1 << (usize::BITS - 1);
const WRITE: u8 = 2;

fn shm() -> SharedMemory {
    SharedMemory { frame: 77, vaddr: 0x7000_0000, paddr: 0x8000_0000, size: 2 * 4096 }
}

/// A server with a partition under badge 40 at block 100 of device 3, and a ring for it.
fn server() -> FossilServer {
    let mut s = FossilServer::new(5);
    s.init_buffer(shm());
    let meta = PartitionMetadata { parent: 3, start_lba: 100, num_blocks: 50, block_size: 512 };
    s.partitions.insert(
        40,
        PartitionProxy::new(meta, 21, String::from("sdp0"), FileSystemType::Ext2, 0),
    );
    s.device_clients
        .insert(3, BlockDevice { block_size: 512, total_sectors: 1000, has_ring: true });
    assert_eq!(s.handle_setup_ring(40, 4, 8, &mut |_, _, _| Ok(60)), Ok(60));
    s
}

fn sqe(opcode: u8, addr: usize, off: usize, len: u32, user_data: usize) -> IoUringSqe {
    IoUringSqe { opcode, addr, len, off, user_data }
}

#[test]
fn offsets_move_to_the_partition() {
    let s = server();
    let mut r = sqe(1, 2, 512, 4, 5);
    s.partitions[&40].translate_sqe(&mut r);
    assert_eq!(r, sqe(1, 2, 512 + 100 * 512, 4, 5));
}

#[test]
fn shared_buffer_is_acquired_without_its_physical_address() {
    assert_eq!(
        server().handle_acquire_shm(),
        Ok(AcquiredShm { vaddr: 0x7000_0000, size: 8192, frame: 77 })
    );
    assert_eq!(FossilServer::new(1).handle_acquire_shm(), Err(Error::NotInitialized));
}

#[test]
fn shared_buffer_is_registered_without_its_physical_address() {
    let mut s = server();
    assert_eq!(s.handle_register_shm(40, 0x100, 0x2000), Ok(()));
    let p = s.client_shms[&40];
    assert_eq!((p.frame, p.vaddr, p.paddr, p.size, p.recv_slot), (77, 0x100, 0, 0x2000, 0));
    assert_eq!(
        FossilServer::new(1).handle_register_shm(40, 0, 0),
        Err(Error::NotInitialized)
    );
}

#[test]
fn ring_is_set_up_once() {
    let mut s = FossilServer::new(5);
    let mut asked: Vec<(usize, u32, u32)> = Vec::new();
    let r = s.handle_setup_ring(1, 4, 8, &mut |size, sq, cq| {
        asked.push((size, sq, cq));
        Ok(9)
    });
    assert_eq!(r, Ok(9));
    assert_eq!(asked, vec![(64 + 4 * 64 + 8 * 16, 4, 8)]);
    assert_eq!(s.handle_setup_ring(1, 4, 8, &mut |_, _, _| Ok(9)), Err(Error::AlreadyExists));
    assert_eq!(
        s.handle_setup_ring(2, 4, 8, &mut |_, _, _| Err(Error::OutOfMemory)),
        Err(Error::OutOfMemory)
    );
    assert!(s.client_rings.contains(&1) && !s.client_rings.contains(&2));
}

#[test]
fn requests_are_routed_to_the_device() {
    let mut s = server();
    assert_eq!(s.sq_route(40), Ok(SqRoute { hw_id: 3, block_size: 512 }));
    assert_eq!(s.sq_route(41), Err(Error::NotFound));
    s.client_rings.remove(&40);
    assert_eq!(s.sq_route(40), Err(Error::NotInitialized));
    s.client_rings.insert(40);
    s.device_clients.insert(3, BlockDevice { block_size: 512, total_sectors: 1, has_ring: false });
    assert_eq!(s.sq_route(40), Err(Error::NotInitialized));
    s.device_clients.remove(&3);
    assert_eq!(s.sq_route(40), Err(Error::NotFound));
}

#[test]
fn aligned_request_passes_through_and_comes_back() {
    let mut s = server();
    let r = sqe(WRITE, 0x1234, 1024, 512, 888);
    assert!(s.submission_fits(40, &r));
    let out = s.handle_notify_sq(40, r, WRITE);
    assert_eq!(out, sqe(WRITE, 0x1234, 1024 + 51200, 512, 0x1000 | TOP));
    assert_eq!(s.next_partition_badge, 0x1001);
    assert!(s.inflight_requests[&out.user_data].buffer_info.is_none());
    let done = s.handle_notify_cq(out.user_data, 512);
    assert_eq!(done, Some(Completion { client_badge: 40, user_data: 888, res: 512 }));
    assert_eq!(s.handle_notify_cq(out.user_data, 512), None);
    assert!(s.inflight_requests.is_empty());
}

#[test]
fn addresses_in_a_registered_buffer_move_to_the_global_one() {
    let mut s = server();
    s.handle_register_shm(40, 0x100, 0x2000).unwrap();
    assert_eq!(s.handle_notify_sq(40, sqe(1, 0x180, 0, 512, 0), WRITE).addr, 0x7000_0080);
    assert_eq!(s.handle_notify_sq(40, sqe(1, 0x100, 0, 512, 0), WRITE).addr, 0x7000_0000);
    assert_eq!(s.handle_notify_sq(40, sqe(1, 0x20FF, 0, 512, 0), WRITE).addr, 0x7000_1FFF);
    assert_eq!(s.handle_notify_sq(40, sqe(1, 0x2100, 0, 512, 0), WRITE).addr, 0x2100);
    assert_eq!(s.handle_notify_sq(40, sqe(1, 0xFF, 0, 512, 0), WRITE).addr, 0xFF);
}

#[test]
fn unaligned_request_is_widened_and_answered_as_asked() {
    let mut s = server();
    let out = s.handle_notify_sq(40, sqe(WRITE, 0x1234, 700, 400, 888), WRITE);
    // 700 + 51200 lies in block 101, and the request ends in block 102.
    assert_eq!((out.off, out.len), (101 * 512, 1024));
    assert_eq!(out.addr, 0x7000_0000 + 4096);
    let info = s.inflight_requests[&out.user_data].buffer_info.unwrap();
    assert_eq!((info.original_addr, info.original_len, info.original_offset), (0x1234, 400, 51900));
    assert_eq!((info.aligned_offset, info.aligned_len), (51712, 1024));
    assert!(info.is_write && info.is_rmw);
    assert_eq!(info.cache_idx, Some(1));
    let done = s.handle_notify_cq(out.user_data, 1024);
    assert_eq!(done, Some(Completion { client_badge: 40, user_data: 888, res: 400 }));
}

#[test]
fn widened_request_spoils_no_other_window() {
    let mut s = server();
    let client = s.device_clients[&3];
    let mut arena = vec![0u8; 2 * 4096];
    let dev = |_: usize, lba: usize, size: usize| -> Result<Vec<u8>, Error> {
        Ok(vec![lba as u8; size])
    };
    s.read_block(&mut arena, &dev, &client, 3, 90, 512).unwrap();
    let out = s.handle_notify_sq(40, sqe(1, 0, 700, 400, 888), WRITE);
    let at = out.addr - 0x7000_0000;
    arena[at..at + 1024].fill(0xEE);
    for lba in 88..96 {
        let got = s.read_block(&mut arena, &dev, &client, 3, lba, 512).unwrap();
        assert_eq!(got, vec![lba as u8; 512]);
    }
    assert_eq!(s.buffer_cache.ledger_snapshot().misses, 2);
}

#[test]
fn errors_of_widened_requests_are_passed_on() {
    let mut s = server();
    let out = s.handle_notify_sq(40, sqe(1, 0, 1, 1, 5), WRITE);
    assert!(!s.inflight_requests[&out.user_data].buffer_info.unwrap().is_write);
    let done = s.handle_notify_cq(out.user_data, -5);
    assert_eq!(done, Some(Completion { client_badge: 40, user_data: 5, res: -5 }));
}

#[test]
fn answers_to_clients_without_ring_are_dropped() {
    let mut s = server();
    let out = s.handle_notify_sq(40, sqe(1, 0, 0, 512, 5), WRITE);
    s.client_rings.remove(&40);
    assert_eq!(s.handle_notify_cq(out.user_data, 512), None);
    assert!(s.inflight_requests.is_empty());
    assert_eq!(s.handle_notify_cq(12345, 0), None);
}

#[test]
fn requests_beyond_the_machine_do_not_fit() {
    let mut s = server();
    assert!(!s.submission_fits(41, &sqe(1, 0, 0, 512, 0)));
    assert!(!s.submission_fits(40, &sqe(1, 0, usize::MAX, 512, 0)));
    assert!(!s.submission_fits(40, &sqe(1, 0, usize::MAX - 51200, 512, 0)));
    assert!(s.submission_fits(40, &sqe(1, 0, usize::MAX - 51711, 512, 0)));
    s.handle_register_shm(40, 0x100, usize::MAX).unwrap();
    assert!(!s.submission_fits(40, &sqe(1, 0x180, 0, 512, 0)));
    assert!(s.submission_fits(40, &sqe(1, 0xFF, 0, 512, 0)));
    let mut bare = server();
    bare.init_buffer(SharedMemory { frame: 1, vaddr: 0, paddr: 0, size: 100 });
    assert!(bare.submission_fits(40, &sqe(1, 0, 0, 512, 0)));
    assert!(!bare.submission_fits(40, &sqe(1, 0, 1, 512, 0)));
}

fn protocol() -> Protocol {
    Protocol {
        volume: 7,
        get_device: 1,
        probe_device: 2,
        report_state: 3,
        mount_partition: 4,
        get_info: 5,
        setup_ring: 6,
        acquire_shm: 8,
        register_shm: 9,
        kernel: 11,
        notify: 1,
        notify_cq: 0x10,
        notify_sq: 0x20,
        notify_hook: 0x40,
    }
}

fn ask(proto: usize, label: usize, badge: usize, has_cap: bool) -> Result<Request, Error> {
    let mut s = server();
    s.listen(1, 2, 3);
    s.dispatch(&protocol(), &Message { proto, label, badge, has_cap, mr0: 0, mr1: 16 })
}

#[test]
fn messages_are_told_apart() {
    assert_eq!(ask(7, 1, 90, false), Ok(Request::GetDevice { badge: 90 }));
    assert_eq!(ask(7, 2, 90, false), Ok(Request::ProbeDevice));
    assert_eq!(ask(7, 3, 90, false), Ok(Request::ReportState { state: 0, endpoint: None }));
    assert_eq!(ask(7, 3, 90, true), Ok(Request::ReportState { state: 0, endpoint: Some(3) }));
    assert_eq!(ask(7, 4, 90, false), Ok(Request::MountPartition));
    assert_eq!(ask(7, 5, 90, false), Ok(Request::GetInfo));
    assert_eq!(ask(7, 6, 90, false), Ok(Request::SetupRing { sq_entries: 0, cq_entries: 16 }));
    assert_eq!(ask(7, 8, 90, false), Ok(Request::AcquireShm));
    assert_eq!(ask(7, 9, 90, false), Ok(Request::RegisterShm { vaddr: 0, size: 16 }));
    assert_eq!(
        ask(11, 1, 0x50, false),
        Ok(Request::Notify { hook: true, cq: true, sq: false })
    );
    assert_eq!(
        ask(11, 1, 0x20, false),
        Ok(Request::Notify { hook: false, cq: false, sq: true })
    );
}

#[test]
fn unknown_messages_are_invalid_methods() {
    assert_eq!(ask(7, 10, 90, false), Err(Error::InvalidMethod));
    assert_eq!(ask(8, 1, 90, false), Err(Error::InvalidMethod));
    assert_eq!(ask(11, 2, 0x70, false), Err(Error::InvalidMethod));
}

#[test]
fn device_can_be_asked_for_by_badge() {
    let msg = Message { proto: 7, label: 1, badge: 90, has_cap: false, mr0: 55, mr1: 0 };
    assert_eq!(server().dispatch(&protocol(), &msg), Ok(Request::GetDevice { badge: 55 }));
}

#[test]
fn replies_follow_the_result() {
    assert_eq!(reply_action(Ok(())), ReplyAction::Reply);
    assert_eq!(reply_action(Err(Error::Success)), ReplyAction::Discard);
    assert_eq!(
        reply_action(Err(Error::DeviceError)),
        ReplyAction::ReplyError(Error::DeviceError)
    );
}

#[test]
fn info_tells_the_size_of_the_partition() {
    assert_eq!(server().get_info(40), Ok(VolumeInfo { block_size: 512, num_blocks: 50 }));
    assert_eq!(server().get_info(41), Err(Error::NotFound));
}

#[test]
fn buffer_has_the_configured_size_or_the_default() {
    let mut s = FossilServer::new(1);
    assert_eq!(s.buffer_bytes(), 2 * 1024 * 1024);
    s.init_config(Err(Error::InvalidConfig));
    assert_eq!(s.buffer_bytes(), 2 * 1024 * 1024);
    s.init_config(Ok(FSConfig {
        buffer_size: 12345,
        replacement_policy: String::from("fifo"),
        write_policy: String::from("write-back"),
        filesystems: vec![],
    }));
    assert_eq!(s.buffer_bytes(), 12345);
    s.init_buffer(shm());
    assert_eq!(s.buffer_cache.ledger_snapshot().free_blocks, 2);
    assert!(s.buffer_cache.should_write_through(0));
}

#[test]
fn server_listens_starts_and_stops() {
    let mut s = FossilServer::new(1);
    s.listen(2, 3, 4);
    assert_eq!((s.ipc.endpoint, s.ipc.reply, s.ipc.recv), (2, 3, 4));
    s.start();
    assert!(s.ipc.running);
    s.stop();
    assert!(!s.ipc.running);
}

#[test]
fn detection_in_one_go_agrees_with_the_registry() {
    let mut d = vec![0u8; 4096];
    let detect = |d: &[u8]| {
        detect_fs(|at, len| {
            if at + len <= d.len() {
                Ok(d[at..at + len].to_vec())
            } else {
                Err(Error::DeviceError)
            }
        })
    };
    assert_eq!(detect(&d), FileSystemType::Unknown);
    d[0..4].copy_from_slice(&0x9999_9999u32.to_le_bytes());
    assert_eq!(detect(&d), FileSystemType::InitrdFS);
    assert_eq!(detect(&d[..100]), FileSystemType::InitrdFS);
    d[1024 + 0x38..1024 + 0x3A].copy_from_slice(&0xEF53u16.to_le_bytes());
    assert_eq!(detect(&d), FileSystemType::Ext2);
    d[3..11].copy_from_slice(b"EXFAT   ");
    assert_eq!(detect(&d), FileSystemType::ExFat);
}
