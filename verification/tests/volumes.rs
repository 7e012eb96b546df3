use fossil::cap::SharedMemory;
use fossil::config::{FSConfig, FSDriverConfig};
use fossil::error::Error;
use fossil::fossil::server::{next_startup_action, Request, StartupAction, StartupStep};
use fossil::fossil::serving::{next_attention, Answer, Attention, AttentionAction, Payload};
use fossil::fossil::volume::{MountAnswer, MountReply, ServiceState};
use fossil::fossil::{BlockDevice, FossilServer};
use fossil::probe::fs::FileSystemType;

const VADDR: usize = 0x7000_0000;
const SIZE: usize = 4 * 4096;

fn driver(binary: &str, compatible: &[&str]) -> FSDriverConfig {
    FSDriverConfig {
        name: String::from(binary),
        binary: String::from(binary),
        compatible: compatible.iter().map(|s| String::from(*s)).collect(),
        autostart: false,
    }
}

fn config() -> FSConfig {
    FSConfig {
        buffer_size: SIZE,
        replacement_policy: String::from("lru"),
        write_policy: String::from("write-through"),
        filesystems: vec![
            driver("fat", &["fat16", "fat32", "exfat"]),
            driver("ext", &["ext2", "ext4"]),
            driver("ext-again", &["ext3", "ext2"]),
        ],
    }
}

fn shm() -> SharedMemory {
    SharedMemory { frame: 77, vaddr: VADDR, paddr: 0x8000_0000, size: SIZE }
}

fn server() -> FossilServer {
    let mut s = FossilServer::new(5);
    s.init_config(Ok(config()));
    s.init_buffer(shm());
    s
}

fn disk_of(bytes: Vec<u8>) -> impl Fn(usize, usize, usize) -> Result<Vec<u8>, Error> {
    move |_hw: usize, lba: usize, block_size: usize| {
        let at = lba * block_size;
        if at + block_size <= bytes.len() {
            Ok(bytes[at..at + block_size].to_vec())
        } else {
            Err(Error::DeviceError)
        }
    }
}

/// A disk with an ext2 partition of 20 blocks at block 8 and an unknown one of 30 at block 40.
fn two_partitions() -> Vec<u8> {
    let mut d = vec![0u8; 80 * 512];
    d[510] = 0x55;
    d[511] = 0xAA;
    for (i, start, count) in [(0usize, 8u8, 20u8), (2, 40, 30)] {
        let at = 446 + 16 * i;
        d[at + 4] = 0x83;
        d[at + 8] = start;
        d[at + 12] = count;
    }
    d[8 * 512 + 1024 + 0x38] = 0x53;
    d[8 * 512 + 1024 + 0x39] = 0xEF;
    d
}

fn client() -> BlockDevice {
    BlockDevice { block_size: 512, total_sectors: 80, has_ring: true }
}

fn probed() -> FossilServer {
    let mut s = server();
    let mut arena = vec![0u8; SIZE];
    let dev = disk_of(two_partitions());
    let mut next_pid = 99;
    s.probe(&mut arena, 3, "sd", 21, client(), &dev, &mut |_| {
        next_pid += 1;
        Ok(next_pid)
    })
    .unwrap();
    s
}

#[test]
fn new_server_knows_nothing() {
    let s = FossilServer::new(5);
    assert_eq!((s.ipc.endpoint, s.ipc.reply, s.ipc.recv, s.ipc.running), (5, 0, 0, false));
    assert!(s.partitions.is_empty() && s.device_clients.is_empty() && s.global_shm.is_none());
    assert_eq!(s.next_partition_badge, 0x1000);
    assert_eq!(s.buffer_cache.get_block_size(), 4096);
}

#[test]
fn probe_registers_the_partitions_of_the_table() {
    let s = probed();
    assert_eq!(s.name_to_badge.get("sdp0"), Some(0x1000));
    assert_eq!(s.name_to_badge.get("sdp1"), Some(0x1001));
    assert_eq!(s.name_to_badge.get("sdp2"), None);
    let p = &s.partitions[&0x1000];
    assert_eq!((p.meta.parent, p.meta.start_lba, p.meta.num_blocks), (3, 8, 20));
    assert_eq!((p.meta.block_size, p.hardware_ep, p.hardware_badge), (512, 21, 0));
    assert_eq!((p.name.as_str(), p.fs_type), ("sdp0", FileSystemType::Ext2));
    let q = &s.partitions[&0x1001];
    assert_eq!((q.meta.start_lba, q.meta.num_blocks, q.fs_type), (40, 30, FileSystemType::Unknown));
    assert_eq!(s.next_partition_badge, 0x1002);
    assert!(s.probed_hardware.contains(&3));
    assert_eq!(s.device_clients[&3], client());
    assert_eq!(s.partition_driver_pids.get(&0x1000), Some(&100));
    assert_eq!(s.driver_to_partition.get(&100), Some(&0x1000));
    assert_eq!(s.partition_driver_states[&0x1000], ServiceState::Starting);
    assert_eq!(s.partition_driver_pids.get(&0x1001), None);
}

#[test]
fn probe_takes_a_disk_without_table_as_one_partition() {
    let mut s = server();
    let mut arena = vec![0u8; SIZE];
    let dev = disk_of(vec![0u8; 80 * 512]);
    s.probe(&mut arena, 9, "raw", 1, client(), &dev, &mut |_| Ok(1)).unwrap();
    let p = &s.partitions[&0x1000];
    assert_eq!((p.meta.start_lba, p.meta.num_blocks), (0, 80));
    assert_eq!(p.name, "rawp0");
}

#[test]
fn probe_needs_the_global_buffer_and_the_first_block() {
    let mut none = FossilServer::new(5);
    let dev = disk_of(two_partitions());
    let r = none.probe(&mut [], 3, "sd", 21, client(), &dev, &mut |_| Ok(1));
    assert_eq!(r, Err(Error::NotInitialized));

    let mut s = server();
    let mut arena = vec![0u8; SIZE];
    let broken = |_: usize, _: usize, _: usize| -> Result<Vec<u8>, Error> { Err(Error::Other(4)) };
    let r = s.probe(&mut arena, 3, "sd", 21, client(), &broken, &mut |_| Ok(1));
    assert_eq!(r, Err(Error::Other(4)));
    assert!(s.partitions.is_empty() && !s.probed_hardware.contains(&3));
    assert_eq!(s.next_partition_badge, 0x1000);
}

#[test]
fn probe_keeps_to_the_connection_that_is_there() {
    let mut s = probed();
    let mut arena = vec![0u8; SIZE];
    let other = BlockDevice { block_size: 4096, total_sectors: 1, has_ring: false };
    let dev = disk_of(two_partitions());
    s.probe(&mut arena, 3, "sd", 21, other, &dev, &mut |_| Ok(1)).unwrap();
    assert_eq!(s.partitions[&0x1002].meta.block_size, 512);
    assert_eq!(s.name_to_badge.get("sdp0"), Some(0x1002));
}

#[test]
fn partition_is_registered_though_its_driver_does_not_start() {
    let mut s = server();
    let mut arena = vec![0u8; SIZE];
    let dev = disk_of(two_partitions());
    s.probe(&mut arena, 3, "sd", 21, client(), &dev, &mut |_| Err(Error::OutOfMemory)).unwrap();
    assert!(s.partitions.contains_key(&0x1000));
    assert!(s.partition_driver_pids.is_empty() && s.partition_driver_states.is_empty());
}

#[test]
fn server_reads_blocks_through_its_cache() {
    let mut s = server();
    let mut arena = vec![0u8; SIZE];
    let disk = two_partitions();
    let dev = disk_of(disk.clone());
    let got = s.read_block(&mut arena, &dev, &client(), 3, 10, 512).unwrap();
    assert_eq!(got, &disk[10 * 512..11 * 512]);
    assert_eq!(s.buffer_cache.ledger_snapshot().misses, 1);
}

#[test]
fn drivers_are_chosen_by_the_first_that_serves() {
    let s = server();
    let binary = |t| s.select_fs_driver_binary(t);
    assert_eq!(binary(FileSystemType::Fat16).as_deref(), Some("fat"));
    assert_eq!(binary(FileSystemType::Fat32).as_deref(), Some("fat"));
    assert_eq!(binary(FileSystemType::ExFat).as_deref(), Some("fat"));
    assert_eq!(binary(FileSystemType::Ext2).as_deref(), Some("ext"));
    assert_eq!(binary(FileSystemType::Ext3).as_deref(), Some("ext-again"));
    assert_eq!(binary(FileSystemType::Ext4).as_deref(), Some("ext"));
    assert_eq!(binary(FileSystemType::InitrdFS), None);
    assert_eq!(binary(FileSystemType::Unknown), None);
    assert_eq!(FossilServer::new(1).select_fs_driver_binary(FileSystemType::Ext2), None);
    assert_eq!(
        FossilServer::fs_type_compatible_key(FileSystemType::InitrdFS),
        Some("initrdfs")
    );
}

#[test]
fn driver_is_started_once() {
    let mut s = probed();
    let mut started: Vec<String> = Vec::new();
    let mut spawn = |b: String| {
        started.push(b);
        Ok(7)
    };
    assert_eq!(s.ensure_partition_fs_driver(0x1000, FileSystemType::Ext2, &mut spawn), Ok(()));
    assert_eq!(s.ensure_partition_fs_driver(0x2000, FileSystemType::Fat16, &mut spawn), Ok(()));
    assert_eq!(
        s.ensure_partition_fs_driver(0x3000, FileSystemType::Unknown, &mut spawn),
        Err(Error::NotFound)
    );
    assert_eq!(started, vec!["fat"]);
    assert_eq!(s.driver_to_partition[&7], 0x2000);
}

#[test]
fn mount_waits_until_the_driver_runs() {
    let mut s = probed();
    let mut no_spawn = |_: String| -> Result<usize, Error> { Err(Error::OutOfMemory) };
    let mut slot = 500;
    let mut hold = || {
        slot += 1;
        Ok(slot)
    };
    for _ in 0..2 {
        let r = s.handle_mount_partition_request("sdp0", &mut no_spawn, &mut hold);
        assert_eq!(r, Err(Error::Success));
    }
    assert_eq!(s.report_state(100, ServiceState::Starting, None, &mut |c| Ok(c)), Ok(vec![]));
    assert_eq!(s.pending_mount_replies[&0x1000], vec![501, 502]);
    let replies = s
        .report_state(100, ServiceState::Running, Some(40), &mut |c| Ok(c + 1000))
        .unwrap();
    let grant = |slot| MountReply { slot, answer: MountAnswer::Grant(1040) };
    assert_eq!(replies, vec![grant(501), grant(502)]);
    assert!(s.pending_mount_replies.is_empty());
    assert_eq!(s.partition_driver_states[&0x1000], ServiceState::Running);
    let r = s.handle_mount_partition_request("sdp0", &mut no_spawn, &mut hold);
    assert_eq!(r, Ok(1040));
    assert_eq!(s.mount_partition("sdp0", &mut no_spawn), Ok(1040));
}

#[test]
fn waiters_learn_of_a_driver_that_fails_or_ends() {
    for (state, error) in [
        (ServiceState::Failed, Error::DeviceError),
        (ServiceState::Stopped, Error::NotFound),
        (ServiceState::Exited, Error::NotFound),
    ] {
        let mut s = probed();
        s.queue_mount_reply(0x1000, 9);
        let replies = s.report_state(100, state, None, &mut |c| Ok(c)).unwrap();
        assert_eq!(replies, vec![MountReply { slot: 9, answer: MountAnswer::Fail(error) }]);
        assert!(s.pending_mount_replies.is_empty());
    }
}

#[test]
fn waiters_of_a_running_driver_without_endpoint_are_refused() {
    let mut s = probed();
    s.queue_mount_reply(0x1000, 9);
    let replies = s.wake_mount_waiters(0x1000, ServiceState::Running);
    assert_eq!(replies, vec![MountReply { slot: 9, answer: MountAnswer::Fail(Error::NotFound) }]);
    assert_eq!(s.wake_mount_waiters(0x1000, ServiceState::Failed), vec![]);
}

#[test]
fn report_of_a_running_driver_needs_its_endpoint() {
    let mut s = probed();
    s.queue_mount_reply(0x1000, 9);
    let mut keep = |c| Ok(c);
    assert_eq!(
        s.report_state(100, ServiceState::Running, None, &mut keep),
        Err(Error::InvalidCapability)
    );
    assert_eq!(s.partition_driver_states[&0x1000], ServiceState::Running);
    assert_eq!(s.pending_mount_replies[&0x1000], vec![9]);
    assert_eq!(
        s.report_state(1, ServiceState::Running, Some(3), &mut keep),
        Err(Error::NotFound)
    );
    assert_eq!(
        s.report_state(100, ServiceState::Running, Some(3), &mut |_| Err(Error::OutOfMemory)),
        Err(Error::OutOfMemory)
    );
    assert!(s.partition_fs_endpoints.is_empty());
}

#[test]
fn mount_fails_without_partition_driver_or_slot() {
    let mut s = probed();
    let mut spawn = |_: String| -> Result<usize, Error> { Ok(200) };
    let mut hold = || -> Result<usize, Error> { Err(Error::OutOfMemory) };
    let mut mount = |name: &str| s.handle_mount_partition_request(name, &mut spawn, &mut hold);
    assert_eq!(mount("sdp7"), Err(Error::NotFound));
    assert_eq!(mount("sdp1"), Err(Error::NotFound));
    assert_eq!(mount("sdp0"), Err(Error::OutOfMemory));
    assert_eq!(s.mount_partition("sdp0", &mut spawn), Err(Error::NotFound));
    assert_eq!(s.mount_partition("nothing", &mut spawn), Err(Error::NotFound));
}

#[test]
fn devices_are_given_to_drivers_and_by_badge() {
    let s = probed();
    let mut mint = |badge: usize| Ok(badge + 1);
    assert_eq!(s.get_device(100, &mut mint), Ok(0x1001));
    assert_eq!(s.get_device(0x1001, &mut mint), Ok(0x1002));
    assert_eq!(s.get_device(4, &mut mint), Err(Error::NotFound));
    assert_eq!(
        s.get_device(100, &mut |_| Err(Error::OutOfMemory)),
        Err(Error::OutOfMemory)
    );
}

#[test]
fn pending_devices_queue_up_once() {
    let mut s = server();
    let names = |list: &[&str]| -> Result<Vec<String>, Error> {
        Ok(list.iter().map(|n| String::from(*n)).collect())
    };
    assert_eq!(s.sync_devices(&mut || names(&["a", "b", "a"])), Ok(()));
    assert_eq!(s.handle_notify_sync(&mut || names(&["c", "b"])), Ok(()));
    assert_eq!(s.pending_devices, vec!["a", "b", "c"]);
    assert_eq!(s.next_pending_device().as_deref(), Some("a"));
    assert_eq!(s.sync_devices(&mut || Err(Error::DeviceError)), Err(Error::DeviceError));
    assert_eq!(s.sync_devices(&mut || names(&["a"])), Ok(()));
    assert_eq!(s.pending_devices, vec!["b", "c", "a"]);
}

#[test]
fn pending_queue_runs_out() {
    let mut s = server();
    assert_eq!(s.next_pending_device(), None);
    s.sync_devices(&mut || Ok(vec![String::from("x")])).unwrap();
    assert_eq!(s.next_pending_device().as_deref(), Some("x"));
    assert_eq!(s.next_pending_device(), None);
}

#[test]
fn only_block_devices_that_were_not_probed_are() {
    let s = probed();
    assert!(s.should_probe(4, true));
    assert!(!s.should_probe(4, false));
    assert!(!s.should_probe(3, true));
}

#[test]
fn probe_on_request_needs_a_device_of_that_name() {
    let mut s = server();
    let mut all = || Ok(vec![String::from("sd"), String::from("hd")]);
    let mut nothing = || Ok(vec![]);
    let mut broken = || Err(Error::Other(1));
    let mut found = || Ok(vec![String::from("hd")]);
    assert_eq!(s.probe_device(&mut nothing, &mut all), Err(Error::NotFound));
    assert_eq!(s.probe_device(&mut broken, &mut all), Err(Error::Other(1)));
    assert!(s.pending_devices.is_empty());
    assert_eq!(s.probe_device(&mut found, &mut all), Ok(()));
    assert_eq!(s.pending_devices, vec!["sd", "hd"]);
}

#[test]
fn ledger_counts_waiters_and_endpoints() {
    let mut s = server();
    s.ledger_mount_waiter_queued(8);
    s.ledger_mount_waiter_queued(9);
    s.ledger_mount_waiter_woken(8);
    s.ledger_partition_ep_minted();
    let l = &s.resource_ledger;
    assert_eq!((l.mount_waiters_queued, l.mount_waiters_woken), (2, 1));
    assert_eq!(l.partition_endpoint_mints, 1);
    assert!(l.mount_reply_slots_live.contains(&9) && !l.mount_reply_slots_live.contains(&8));
    s.resource_ledger.partition_endpoint_mints = usize::MAX;
    s.ledger_partition_ep_minted();
    assert_eq!(s.resource_ledger.partition_endpoint_mints, usize::MAX);
}

#[test]
fn pending_devices_are_probed_in_order() {
    let mut s = server();
    let mut arena = vec![0u8; SIZE];
    let names = ["a", "b", "net", "a-again"];
    s.sync_devices(&mut || Ok(names.iter().map(|n| String::from(*n)).collect())).unwrap();
    let dev = disk_of(two_partitions());
    let mut attached: Vec<(String, usize)> = Vec::new();
    let r = s.process_pending_probes(
        &mut arena,
        &mut |name: String| match name.as_str() {
            "a" | "a-again" => Ok((1, true)),
            "b" => Ok((2, true)),
            _ => Ok((3, false)),
        },
        &mut |name: String, hw: usize| {
            attached.push((name, hw));
            Ok((60 + hw, client()))
        },
        &dev,
        &mut |_| Ok(7),
    );
    assert_eq!(r, Ok(()));
    assert_eq!(attached, vec![(String::from("a"), 1), (String::from("b"), 2)]);
    assert!(s.pending_devices.is_empty());
    assert_eq!(s.name_to_badge.get("ap1"), Some(0x1001));
    assert_eq!(s.name_to_badge.get("bp0"), Some(0x1002));
    assert_eq!(s.partitions[&0x1002].hardware_ep, 62);
    assert_eq!(s.name_to_badge.get("netp0"), None);
}

#[test]
fn pending_probes_stop_at_the_first_failure() {
    let mut s = server();
    let mut arena = vec![0u8; SIZE];
    s.sync_devices(&mut || Ok(vec![String::from("a"), String::from("b"), String::from("c")]))
        .unwrap();
    let dev = disk_of(two_partitions());
    let mut describe = |name: String| match name.as_str() {
        "a" => Err(Error::Other(1)),
        _ => Ok((5, true)),
    };
    let mut attach = |name: String, _: usize| match name.as_str() {
        "b" => Err(Error::Other(2)),
        _ => Ok((9, client())),
    };
    let mut run = || {
        s.process_pending_probes(&mut arena, &mut describe, &mut attach, &dev, &mut |_| Ok(7))
    };
    assert_eq!(run(), Err(Error::Other(1)));
    assert_eq!(run(), Err(Error::Other(2)));
    assert_eq!(run(), Ok(()));
    assert_eq!(run(), Ok(()));
    assert_eq!(s.name_to_badge.get("cp0"), Some(0x1000));
}

#[test]
fn initialisation_takes_configuration_buffer_and_devices() {
    let mut s = FossilServer::new(5);
    let mut wanted = 0;
    let r = s.init(
        &mut || Ok(config()),
        &mut |size| {
            wanted = size;
            Ok(shm())
        },
        &mut || Ok(vec![String::from("sd")]),
    );
    assert_eq!(r, Ok(()));
    assert_eq!(wanted, SIZE);
    assert_eq!(s.global_shm, Some(shm()));
    assert_eq!(s.pending_devices, vec!["sd"]);
    assert_eq!(s.buffer_cache.ledger_snapshot().free_blocks, 4);
    assert_eq!(s.fs_config.unwrap().filesystems.len(), 3);
}

#[test]
fn initialisation_goes_on_without_configuration_but_not_without_buffer() {
    let mut s = FossilServer::new(5);
    let mut wanted = 0;
    let r = s.init(
        &mut || Err(Error::InvalidConfig),
        &mut |size| {
            wanted = size;
            Err(Error::OutOfMemory)
        },
        &mut || Ok(vec![String::from("sd")]),
    );
    assert_eq!(r, Err(Error::OutOfMemory));
    assert_eq!(wanted, 2 * 1024 * 1024);
    assert!(s.fs_config.is_none() && s.global_shm.is_none() && s.pending_devices.is_empty());
    let r = s.init(&mut || Err(Error::NotFound), &mut |_| Ok(shm()), &mut || Err(Error::Other(6)));
    assert_eq!(r, Err(Error::Other(6)));
    assert!(s.global_shm.is_some());
}

#[test]
fn cache_serves_blocks_up_to_its_own_size() {
    let s = server();
    let arena = vec![0u8; SIZE];
    assert!(s.can_serve(&arena, 512) && s.can_serve(&arena, 4096));
    assert!(!s.can_serve(&arena, 0) && !s.can_serve(&arena, 8192));
    assert!(!s.can_serve(&arena[1..], 512));
    assert!(!FossilServer::new(1).can_serve(&[], 512));
}

fn serve(s: &mut FossilServer, request: Request, badge: usize) -> Result<Answer, Error> {
    let payload = Payload { name: String::from("sdp0"), state: ServiceState::Failed };
    s.serve(
        request,
        badge,
        &payload,
        &mut |partition| Ok(partition * 2),
        &mut || Ok(vec![String::from("sd")]),
        &mut || Ok(vec![String::from("sd"), String::from("hd")]),
        &mut |cap| Ok(cap + 1),
        &mut |_| Ok(300),
        &mut || Ok(44),
        &mut |size, _, _| Ok(size),
    )
}

#[test]
fn requests_are_carried_out_and_answered() {
    let mut s = probed();
    assert_eq!(serve(&mut s, Request::GetDevice { badge: 100 }, 0), Ok(Answer::Cap(0x2000)));
    assert_eq!(serve(&mut s, Request::GetDevice { badge: 1 }, 0), Err(Error::NotFound));
    assert_eq!(serve(&mut s, Request::MountPartition, 0), Err(Error::Success));
    assert_eq!(
        serve(&mut s, Request::ReportState { state: 0, endpoint: None }, 100),
        Ok(Answer::Woken(vec![MountReply {
            slot: 44,
            answer: MountAnswer::Fail(Error::DeviceError)
        }]))
    );
    assert_eq!(serve(&mut s, Request::GetInfo, 0x1000), Ok(Answer::Words(512, 20)));
    assert_eq!(serve(&mut s, Request::GetInfo, 1), Err(Error::NotFound));
    let ring = Request::SetupRing { sq_entries: 1, cq_entries: 1 };
    assert_eq!(serve(&mut s, ring, 5), Ok(Answer::Cap(144)));
    assert_eq!(serve(&mut s, ring, 5), Err(Error::AlreadyExists));
    assert_eq!(
        serve(&mut s, Request::AcquireShm, 5),
        Ok(Answer::WordsAndCap(VADDR, SIZE, 77))
    );
    assert_eq!(
        serve(&mut s, Request::RegisterShm { vaddr: 1, size: 2 }, 5),
        Ok(Answer::Done)
    );
    assert_eq!(s.client_shms[&5].paddr, 0);
    assert_eq!(serve(&mut s, Request::ProbeDevice, 5), Ok(Answer::Done));
    assert_eq!(s.pending_devices, vec!["sd", "hd"]);
}

#[test]
fn mounted_file_systems_are_answered_with_a_copy() {
    let mut s = probed();
    s.report_state(100, ServiceState::Running, Some(1), &mut |c| Ok(c)).unwrap();
    assert_eq!(serve(&mut s, Request::MountPartition, 0), Ok(Answer::Copy(1)));
}

#[test]
fn notifications_sync_devices_and_call_for_attention() {
    let mut s = probed();
    let note = Request::Notify { hook: false, cq: true, sq: false };
    assert_eq!(serve(&mut s, note, 0), Ok(Answer::Attend(vec![Attention::Answers])));
    assert!(s.pending_devices.is_empty());
    let note = Request::Notify { hook: true, cq: false, sq: true };
    assert_eq!(serve(&mut s, note, 0), Ok(Answer::Attend(vec![Attention::Requests])));
    assert_eq!(s.pending_devices, vec!["sd", "hd"]);
    let note = Request::Notify { hook: false, cq: true, sq: true };
    let both = vec![Attention::Answers, Attention::Requests];
    assert_eq!(serve(&mut s, note, 0), Ok(Answer::Attend(both)));
    let note = Request::Notify { hook: false, cq: false, sq: false };
    assert_eq!(serve(&mut s, note, 0), Ok(Answer::Attend(vec![])));
}

#[test]
fn attention_goes_on_after_a_failure_and_is_not_answered() {
    let steps = vec![Attention::Answers, Attention::Requests];
    let mut seen = Vec::new();
    let mut outcome = Ok(());
    let r = loop {
        match next_attention(&steps, seen.len(), outcome) {
            AttentionAction::Attend(step) => seen.push(step),
            AttentionAction::End(r) => break r,
        }
        outcome = Err(Error::NotFound);
    };
    assert_eq!(r, Err(Error::Success));
    assert_eq!(seen, steps);
    assert_eq!(
        next_attention(&vec![], 0, Ok(())),
        AttentionAction::End(Err(Error::Success))
    );
}

/// The end of a start-up, and the steps that were taken, where each step has the outcome that is
/// listed for it, or else goes well.
fn start_up(
    prepared: Result<(), Error>,
    failures: &[(StartupStep, Error)],
) -> (Result<(), Error>, Vec<StartupStep>) {
    let mut steps = Vec::new();
    let mut action = next_startup_action(None, prepared);
    loop {
        match action {
            StartupAction::End(r) => return (r, steps),
            StartupAction::Take(step) => {
                steps.push(step);
                let failed = failures.iter().find(|f| f.0 == step).map(|f| f.1);
                action = next_startup_action(Some(step), failed.map_or(Ok(()), Err));
            }
        }
    }
}

#[test]
fn start_up_reports_running_last() {
    let all =
        vec![StartupStep::Probe, StartupStep::Hook, StartupStep::Register, StartupStep::Report];
    assert_eq!(start_up(Ok(()), &[]), (Ok(()), all.clone()));
    let unregistered = start_up(Ok(()), &[(StartupStep::Register, Error::Other(1))]);
    assert_eq!(unregistered, (Ok(()), all.clone()));
    let unreported = start_up(Ok(()), &[(StartupStep::Report, Error::Other(2))]);
    assert_eq!(unreported, (Err(Error::Other(2)), all));
}

#[test]
fn start_up_that_fails_is_not_reported() {
    assert_eq!(start_up(Err(Error::Other(3)), &[]), (Err(Error::Other(3)), vec![]));
    assert_eq!(
        start_up(Ok(()), &[(StartupStep::Probe, Error::Other(4))]),
        (Err(Error::Other(4)), vec![StartupStep::Probe])
    );
    assert_eq!(
        start_up(Ok(()), &[(StartupStep::Hook, Error::Other(5))]),
        (Err(Error::Other(5)), vec![StartupStep::Probe, StartupStep::Hook])
    );
}

#[test]
fn empty_queue_needs_no_room_in_the_cache() {
    let mut s = FossilServer::new(5);
    s.init_buffer(SharedMemory { frame: 1, vaddr: VADDR, paddr: 0, size: 100 });
    let r = s.process_pending_probes(
        &mut [0u8; 100],
        &mut |_| Err(Error::NotFound),
        &mut |_, _| Err(Error::NotFound),
        &disk_of(vec![]),
        &mut |_| Ok(1),
    );
    assert_eq!(r, Ok(()));
}

#[test]
fn drivers_lead_back_to_their_partitions() {
    let mut s = probed();
    s.partitions.get_mut(&0x1001).unwrap().fs_type = FileSystemType::Ext2;
    let before = s.driver_to_partition.clone();
    let mut fails = |_: String| Err(Error::Other(7));
    let r = s.ensure_partition_fs_driver(0x1001, FileSystemType::Ext2, &mut fails);
    assert_eq!(r, Err(Error::Other(7)));
    assert_eq!(s.driver_to_partition, before);
    let r = s.ensure_partition_fs_driver(0x1001, FileSystemType::Ext2, &mut |_| Ok(200));
    assert_eq!(r, Ok(()));
    for (badge, pid) in &s.partition_driver_pids {
        assert_eq!(s.driver_to_partition.get(pid), Some(badge));
    }
    let r = s.ensure_partition_fs_driver(0x1001, FileSystemType::Unknown, &mut |_| Ok(201));
    assert_eq!(r, Err(Error::NotFound));
    assert_eq!(s.driver_to_partition.len(), 2);
}

#[test]
fn nothing_is_started_or_held_back_without_need() {
    let mut s = probed();
    let unwanted = |_: String| -> Result<usize, Error> { panic!("a driver was started") };
    let r = s.ensure_partition_fs_driver(0x1000, FileSystemType::Ext2, unwanted);
    assert_eq!(r, Ok(()));
    let mut held = 0;
    let r = s.handle_mount_partition_request("sdp0", unwanted, || {
        held += 1;
        Ok(44)
    });
    assert_eq!((r, held), (Err(Error::Success), 1));
    s.report_state(100, ServiceState::Running, Some(6), |cap| Ok(cap + 1)).unwrap();
    let r = s.handle_mount_partition_request("sdp0", unwanted, || panic!("a reply was held back"));
    assert_eq!(r, Ok(7));
    let r = s.handle_mount_partition_request("nop0", unwanted, || panic!("a reply was held back"));
    assert_eq!(r, Err(Error::NotFound));
    assert_eq!(s.get_device(1, |_| panic!("an endpoint was made")), Err(Error::NotFound));
    let r = s.report_state(1, ServiceState::Running, Some(6), |_| panic!("a cap was kept"));
    assert_eq!(r, Err(Error::NotFound));
    let r = s.report_state(100, ServiceState::Failed, Some(6), |_| panic!("a cap was kept"));
    assert_eq!(r, Ok(vec![]));
    assert_eq!(s.handle_setup_ring(0x1000, 4, 8, |_, _, _| Ok(9)), Ok(9));
    let r = s.handle_setup_ring(0x1000, 4, 8, |_, _, _| panic!("a ring was made"));
    assert_eq!(r, Err(Error::AlreadyExists));
}
